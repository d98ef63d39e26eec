//! What evaluation means.
//!
//! The functions of this module define, over mathematical values, the text
//! that a tree evaluates to and what its evaluation changes. The evaluator
//! and the directives are proved to compute exactly this.
//!
//! An evaluation reads a [`World`], which it never changes, and an [`Env`]:
//! the directive registry and the variable context. It gives an
//! [`Outcome`]: the environment after it, the text or the error, and the
//! [`Effect`]s on the rest of the evaluator's state in the order in which
//! they happened. The text depends on the world, the environment and the
//! tree alone.

use crate::error::EvalError;
use crate::markdown::{markdown_html, title_of};
use crate::node::Tree;
use crate::page::{normalize, RefDefModel};
use crate::pattern::{passes, pattern_valid};
use crate::placeholder::{token, PlaceholderAction};
use crate::text::{concat, count, decimal, join, trim};
use crate::toctree::TocEntryModel;
use vstd::prelude::*;

verus! {

/// What a directive does when it is called.
#[verifier::ext_equal]
pub ghost enum Behavior {
    Dummy,
    Version { components: Seq<Seq<char>> },
    Admonition { title: Seq<char>, class: Seq<char> },
    Concat,
    Markdown,
    Template { template: Seq<char>, checkers: Seq<Seq<char>> },
    DefineTemplate,
    DefinitionList,
    Include,
    Import,
    Let,
    Define,
    ThemeConfig,
    TocTree,
    Heading { level: nat },
    RefDef,
    Ref,
    Steps,
}

/// What an evaluation reads and never changes.
#[verifier::ext_equal]
pub ghost struct World {
    /// The trees of the source files that have been parsed, by path.
    pub sources: Map<Seq<char>, Tree>,
    /// The paths of the source files, by file number.
    pub files: Seq<Seq<char>>,
    /// The marker with which placeholder tokens begin.
    pub marker: Seq<char>,
}

/// What an evaluation reads and may change: the directives and the variables.
#[verifier::ext_equal]
pub ghost struct Env {
    pub registry: Map<Seq<char>, Behavior>,
    pub ctx: Map<Seq<char>, Tree>,
}

/// A change to the state that evaluation writes and never reads.
#[verifier::ext_equal]
pub ghost enum Effect {
    /// The reference `id` is defined, with `title`, on the current page.
    DefineRef { id: Seq<char>, title: Seq<char> },
    /// The page's theme configuration gets `value` under `key`.
    SetTheme { key: Seq<char>, value: Seq<char> },
    /// The page gets the title `title` unless it has one.
    SuggestTitle { title: Seq<char> },
    /// The current page lists the page `child` in the table of contents.
    TocAdd { child: Seq<char>, label: Option<Seq<char>> },
}

/// The state that evaluation writes and never reads.
#[verifier::ext_equal]
pub ghost struct Side {
    pub refdefs: Map<Seq<char>, RefDefModel>,
    pub theme: Map<Seq<char>, Seq<char>>,
    pub toc: Seq<TocEntryModel>,
    /// The slug of the page that is being evaluated.
    pub slug: Seq<char>,
}

/// The state after one effect.
pub open spec fn apply_effect(side: Side, effect: Effect) -> Side {
    match effect {
        Effect::DefineRef { id, title } => Side {
            refdefs: side.refdefs.insert(id, RefDefModel { title, slug: side.slug }),
            ..side
        },
        Effect::SetTheme { key, value } => Side { theme: side.theme.insert(key, value), ..side },
        Effect::SuggestTitle { title } => if side.theme.contains_key("title"@) {
            side
        } else {
            Side { theme: side.theme.insert("title"@, title), ..side }
        },
        Effect::TocAdd { child, label } => Side {
            toc: side.toc.push(
                TocEntryModel { parent: side.slug, child: normalize(child), title: label },
            ),
            ..side
        },
    }
}

/// The state after a sequence of effects, applied in order.
pub open spec fn apply_effects(side: Side, effects: Seq<Effect>) -> Side
    decreases effects.len(),
{
    if effects.len() == 0 {
        side
    } else {
        apply_effect(apply_effects(side, effects.drop_last()), effects.last())
    }
}

/// What an evaluation gives.
#[verifier::ext_equal]
pub ghost struct Outcome {
    pub env: Env,
    pub effects: Seq<Effect>,
    pub result: Result<Seq<char>, EvalError>,
}

/// What the evaluation of a list of items gives: the text of each item.
#[verifier::ext_equal]
pub ghost struct Outcomes {
    pub env: Env,
    pub effects: Seq<Effect>,
    pub result: Result<Seq<Seq<char>>, EvalError>,
}

/// An evaluation that gives `text` and changes nothing.
pub open spec fn done(env: Env, text: Seq<char>) -> Outcome {
    Outcome { env, effects: Seq::empty(), result: Ok(text) }
}

/// An evaluation that fails with `error` and changes nothing.
pub open spec fn fail(env: Env, error: EvalError) -> Outcome {
    Outcome { env, effects: Seq::empty(), result: Err(error) }
}

impl Outcome {
    /// This evaluation followed by `next`.
    pub open spec fn followed_by(self, next: Outcome) -> Outcome {
        Outcome { env: next.env, effects: self.effects + next.effects, result: next.result }
    }

    /// This evaluation with `text` in the place of its text.
    pub open spec fn giving(self, text: Seq<char>) -> Outcome {
        Outcome { result: Ok(text), ..self }
    }

    /// This evaluation with `error` in the place of its result.
    pub open spec fn failing(self, error: EvalError) -> Outcome {
        Outcome { result: Err(error), ..self }
    }

    /// This evaluation with `effect` after its effects.
    pub open spec fn with(self, effect: Effect) -> Outcome {
        Outcome { effects: self.effects.push(effect), ..self }
    }

    /// This evaluation with the variable `key` bound to `value` afterwards.
    pub open spec fn binding(self, key: Seq<char>, value: Tree) -> Outcome {
        Outcome { env: Env { ctx: self.env.ctx.insert(key, value), ..self.env }, ..self }
    }

    /// This evaluation with the directive `name` registered afterwards.
    pub open spec fn registering(self, name: Seq<char>, behavior: Behavior) -> Outcome {
        Outcome {
            env: Env { registry: self.env.registry.insert(name, behavior), ..self.env },
            ..self
        }
    }
}

impl Outcomes {
    /// The evaluation of the list, with `text` where it succeeded.
    pub open spec fn giving(self, text: Seq<char>) -> Outcome {
        Outcome {
            env: self.env,
            effects: self.effects,
            result: match self.result {
                Ok(_) => Ok(text),
                Err(e) => Err(e),
            },
        }
    }

    /// The evaluation of the list, failing with `error` where it succeeded.
    pub open spec fn failing(self, error: EvalError) -> Outcome {
        Outcome {
            env: self.env,
            effects: self.effects,
            result: match self.result {
                Ok(_) => Err(error),
                Err(e) => Err(e),
            },
        }
    }

    /// The texts of the items, where the evaluation succeeded.
    pub open spec fn texts(self) -> Seq<Seq<char>> {
        match self.result {
            Ok(texts) => texts,
            Err(_) => Seq::empty(),
        }
    }
}

/// The binding of `key` in `m`, if it has one.
pub open spec fn bound<V>(m: Map<Seq<char>, V>, key: Seq<char>) -> Option<V> {
    if m.contains_key(key) {
        Some(m[key])
    } else {
        None
    }
}

/// The path of the source file that a node came from; empty where it came
/// from none that the world knows.
pub open spec fn origin(world: World, file: Option<usize>) -> Seq<char> {
    match file {
        Some(id) => if id < world.files.len() {
            world.files[id as int]
        } else {
            Seq::empty()
        },
        None => Seq::empty(),
    }
}

/// The directory part of a path: the path up to its last `/`, that `/`
/// included. Empty where the path holds no `/`.
pub open spec fn dir_of(path: Seq<char>) -> Seq<char>
    decreases path.len(),
{
    if path.len() == 0 {
        Seq::empty()
    } else if path.last() == '/' {
        path
    } else {
        dir_of(path.drop_last())
    }
}

/// The path that `path` names when it is written in the file `base`: itself
/// where it begins with `/`, else the path below the directory of `base`.
pub open spec fn resolve(base: Seq<char>, path: Seq<char>) -> Seq<char> {
    if path.len() > 0 && path[0] == '/' {
        path
    } else {
        dir_of(base) + path
    }
}

/// The effects of rendering `text` as Markdown: the title found in it is
/// suggested for the page.
pub open spec fn rendering_effects(text: Seq<char>) -> Seq<Effect> {
    let title = title_of(markdown_html(text));
    if title.len() > 0 {
        seq![Effect::SuggestTitle { title }]
    } else {
        Seq::empty()
    }
}

/// What the `md` directive makes of a text: the text rendered and trimmed.
pub open spec fn rendered(text: Seq<char>) -> Seq<char> {
    trim(markdown_html(text))
}

/// `level` number signs.
pub open spec fn hashes(level: nat) -> Seq<char> {
    Seq::new(level, |i: int| '#')
}

/// A Markdown heading.
pub open spec fn heading(level: nat, title: Seq<char>) -> Seq<char> {
    seq!['\n'] + hashes(level) + seq![' '] + title + seq!['\n']
}

/// The box that an admonition renders to.
pub open spec fn admonition(class: Seq<char>, title: Seq<char>, body: Seq<char>) -> Seq<char> {
    "<div class=\"admonition admonition-"@ + class
        + "\"><span class=\"admonition-title admonition-title-"@ + class + "\">"@ + title
        + "</span>"@ + body + "</div>\n"@
}

/// One entry of a definition list.
pub open spec fn definition(term: Seq<char>, body: Seq<char>) -> Seq<char> {
    "<dt>"@ + term + "</dt><dd>"@ + body + "</dd>"@
}

/// One step of a list of steps; `number` counts from one.
pub open spec fn step_box(number: nat, title: Seq<char>, body: Seq<char>) -> Seq<char> {
    "<div class=\"steps__step\"><div class=\"steps__bullet\"><div class=\"steps__stepnumber\">"@
        + decimal(number) + "</div></div>"@ + "<h4>"@ + title + "</h4><div>"@ + body
        + "</div></div>"@
}

/// A link to a reference.
pub open spec fn link(title: Seq<char>, path: Seq<char>) -> Seq<char> {
    seq!['['] + title + seq![']', '('] + path + seq![')']
}

/// Whether `c` is a decimal digit.
pub open spec fn is_digit(c: char) -> bool {
    '0' <= c <= '9'
}

/// Whether a marker `${N}` stands at the start of `s`.
pub open spec fn slot_at(s: Seq<char>) -> bool {
    s.len() >= 4 && s[0] == '$' && s[1] == '{' && is_digit(s[2]) && s[3] == '}'
}

/// The argument at `index`; empty where there is none.
pub open spec fn argument(values: Seq<Seq<char>>, index: int) -> Seq<char> {
    if 0 <= index < values.len() {
        values[index]
    } else {
        Seq::empty()
    }
}

/// `template` with every marker `${N}` replaced by the argument `N`.
pub open spec fn fill(template: Seq<char>, values: Seq<Seq<char>>) -> Seq<char>
    decreases template.len(),
{
    if template.len() == 0 {
        Seq::empty()
    } else if slot_at(template) {
        argument(values, template[2] as u32 - '0' as u32) + fill(template.skip(4), values)
    } else {
        seq![template[0]] + fill(template.skip(1), values)
    }
}

/// The full version, or its first `n` components.
pub open spec fn version_text(components: Seq<Seq<char>>, n: int) -> Seq<char> {
    if n >= components.len() {
        join(components, '.')
    } else {
        join(components.take(n), '.')
    }
}

/// How the items of a list are evaluated.
#[verifier::ext_equal]
pub ghost enum Pass {
    /// Each argument is evaluated.
    Value,
    /// Each argument of a template call is evaluated and held against its
    /// checker; an argument that is missing is empty.
    Checked { checkers: Seq<Seq<char>> },
    /// Each argument is evaluated and must be a valid pattern.
    Pattern,
    /// Each argument is an entry of a definition list.
    Definition,
    /// Each two arguments are a key and a value of the theme configuration.
    ThemePair,
    /// Each argument is an entry of the table of contents.
    TocEntry,
    /// Each argument is a step.
    Step,
}

/// The text that `tree` evaluates to, and what its evaluation changes.
///
/// Literal text evaluates to itself. A group is a call: its first child
/// names a directive or, where no directive has that name, a variable.
/// `depth` is the number of nested calls that are still allowed.
pub open spec fn eval(world: World, env: Env, tree: Tree, depth: nat) -> Outcome
    decreases depth, 0nat, 1nat,
{
    eval_def(world, env, tree, depth)
}

/// The definition of [`eval`]. It is kept apart so that a proof unfolds it
/// only where it asks to.
#[verifier::opaque]
pub open spec fn eval_def(world: World, env: Env, tree: Tree, depth: nat) -> Outcome
    decreases depth, 0nat, 0nat,
{
    match tree {
        Tree::Leaf { text, .. } => done(env, text),
        Tree::Group { children, .. } => {
            if children.len() == 0 {
                fail(env, EvalError::UnknownDirective)
            } else {
                match children[0] {
                    Tree::Group { .. } => fail(env, EvalError::UnknownDirective),
                    Tree::Leaf { text: name, .. } => {
                        if depth == 0 {
                            fail(env, EvalError::DepthExceeded)
                        } else if env.registry.contains_key(name) {
                            apply(
                                env.registry[name],
                                world,
                                env,
                                children.drop_first(),
                                (depth - 1) as nat,
                            )
                        } else if env.ctx.contains_key(name) {
                            lookup(world, env, name, (depth - 1) as nat)
                        } else {
                            fail(env, EvalError::UnknownDirective)
                        }
                    },
                }
            }
        },
    }
}

/// The text of the variable `key`: what the tree bound to it evaluates to
/// now.
pub open spec fn lookup(world: World, env: Env, key: Seq<char>, depth: nat) -> Outcome
    decreases depth, 1nat, 0nat,
{
    if env.ctx.contains_key(key) {
        eval(world, env, env.ctx[key], depth)
    } else {
        fail(env, EvalError::UndefinedVariable)
    }
}

/// The evaluation of the two children of a pair: the texts of both.
pub open spec fn eval_two(world: World, env: Env, a: Tree, b: Tree, depth: nat) -> Outcomes
    decreases depth, 1nat, 1nat,
{
    let first = eval(world, env, a, depth);
    match first.result {
        Err(e) => Outcomes { env: first.env, effects: first.effects, result: Err(e) },
        Ok(x) => {
            let second = eval(world, first.env, b, depth);
            Outcomes {
                env: second.env,
                effects: first.effects + second.effects,
                result: match second.result {
                    Ok(y) => Ok(seq![x, y]),
                    Err(e) => Err(e),
                },
            }
        },
    }
}

/// A key and a value of the theme configuration: both are evaluated, and
/// the key gets the value.
pub open spec fn theme_pair(world: World, env: Env, key: Tree, value: Tree, depth: nat) -> Outcome
    decreases depth, 1nat, 2nat,
{
    let both = eval_two(world, env, key, value, depth);
    match both.result {
        Err(e) => both.failing(e),
        Ok(texts) => both.giving(Seq::empty()).with(
            Effect::SetTheme { key: texts[0], value: texts[1] },
        ),
    }
}

/// The title and the body of a step, rendered, from the children of its
/// group.
pub open spec fn step_parts(
    world: World,
    env: Env,
    children: Seq<Tree>,
    index: nat,
    depth: nat,
) -> Outcome
    decreases depth, 1nat, 2nat,
{
    if children.len() != 3 {
        fail(env, EvalError::ArityError)
    } else {
        let both = eval_two(world, env, children[1], children[2], depth);
        match both.result {
            Err(e) => both.failing(e),
            Ok(texts) => Outcome {
                env: both.env,
                effects: both.effects + rendering_effects(texts[0]) + rendering_effects(
                    texts[1],
                ),
                result: Ok(step_box(index + 1, rendered(texts[0]), rendered(texts[1]))),
            },
        }
    }
}

/// The evaluation of the item `index` of `args` in the pass `pass`.
pub open spec fn item(
    pass: Pass,
    world: World,
    env: Env,
    args: Seq<Tree>,
    index: nat,
    depth: nat,
) -> Outcome
    decreases depth, 1nat, 3nat,
{
    match pass {
        Pass::Value => eval(world, env, args[index as int], depth),
        Pass::Checked { checkers } => {
            let value = if index < args.len() {
                eval(world, env, args[index as int], depth)
            } else {
                done(env, Seq::empty())
            };
            match value.result {
                Err(_) => value,
                Ok(text) => if index < checkers.len() && !passes(checkers[index as int], text) {
                    value.failing(EvalError::ValidationError)
                } else {
                    value
                },
            }
        },
        Pass::Pattern => {
            let value = eval(world, env, args[index as int], depth);
            match value.result {
                Err(_) => value,
                Ok(text) => if pattern_valid(text) {
                    value
                } else {
                    value.failing(EvalError::ValidationError)
                },
            }
        },
        Pass::Definition => match args[index as int] {
            Tree::Leaf { .. } => fail(env, EvalError::ArityError),
            Tree::Group { children, .. } => if children.len() != 2 {
                fail(env, EvalError::ArityError)
            } else {
                let both = eval_two(world, env, children[0], children[1], depth);
                both.giving(definition(both.texts()[0], markdown_html(both.texts()[1])))
            },
        },
        Pass::ThemePair => theme_pair(
            world,
            env,
            args[2 * index as int],
            args[2 * index as int + 1],
            depth,
        ),
        Pass::TocEntry => match args[index as int] {
            Tree::Leaf { text, .. } => done(env, Seq::empty()).with(
                Effect::TocAdd { child: text, label: None },
            ),
            Tree::Group { children, .. } => if children.len() != 2 {
                fail(env, EvalError::ArityError)
            } else {
                let both = eval_two(world, env, children[0], children[1], depth);
                match both.result {
                    Err(e) => both.failing(e),
                    Ok(texts) => both.giving(Seq::empty()).with(
                        Effect::TocAdd { child: texts[1], label: Some(texts[0]) },
                    ),
                }
            },
        },
        Pass::Step => match args[index as int] {
            Tree::Leaf { text, .. } => if !env.ctx.contains_key(text) {
                fail(env, EvalError::UndefinedVariable)
            } else {
                match env.ctx[text] {
                    Tree::Leaf { .. } => fail(env, EvalError::ArityError),
                    Tree::Group { children, .. } => step_parts(world, env, children, index, depth),
                }
            },
            Tree::Group { children, .. } => step_parts(world, env, children, index, depth),
        },
    }
}

/// The evaluation of the first `count` items of `args`, one after the
/// other, each in the environment that the one before it left. Stops at
/// the first item that fails.
pub open spec fn each(
    pass: Pass,
    world: World,
    env: Env,
    args: Seq<Tree>,
    count: nat,
    depth: nat,
) -> Outcomes
    decreases depth, 2nat, count,
{
    if count == 0 {
        Outcomes { env, effects: Seq::empty(), result: Ok(Seq::empty()) }
    } else {
        let before = each(pass, world, env, args, (count - 1) as nat, depth);
        match before.result {
            Err(_) => before,
            Ok(texts) => {
                let last = item(pass, world, before.env, args, (count - 1) as nat, depth);
                Outcomes {
                    env: last.env,
                    effects: before.effects + last.effects,
                    result: match last.result {
                        Ok(text) => Ok(texts.push(text)),
                        Err(e) => Err(e),
                    },
                }
            },
        }
    }
}

/// A variable that `let` has bound, with what was bound to it before.
pub ghost struct Saved {
    pub key: Seq<char>,
    pub previous: Option<Tree>,
}

/// What the binding of the pairs of a `let` gives.
#[verifier::ext_equal]
pub ghost struct Bound {
    pub env: Env,
    pub effects: Seq<Effect>,
    /// The variables that were bound, in order.
    pub saved: Seq<Saved>,
    pub failure: Option<EvalError>,
}

/// The binding of the first `count` pairs of `pairs`: the key and the value
/// of each are evaluated, and the key is bound to the value's text. Stops at
/// the first evaluation that fails.
pub open spec fn bind(world: World, env: Env, pairs: Seq<Tree>, count: nat, depth: nat) -> Bound
    decreases depth, 2nat, count,
{
    if count == 0 {
        Bound { env, effects: Seq::empty(), saved: Seq::empty(), failure: None }
    } else {
        let before = bind(world, env, pairs, (count - 1) as nat, depth);
        if before.failure is Some {
            before
        } else {
            let both = eval_two(
                world,
                before.env,
                pairs[2 * (count - 1)],
                pairs[2 * (count - 1) + 1],
                depth,
            );
            match both.result {
                Err(e) => Bound {
                    env: both.env,
                    effects: before.effects + both.effects,
                    saved: before.saved,
                    failure: Some(e),
                },
                Ok(texts) => Bound {
                    env: Env {
                        ctx: both.env.ctx.insert(texts[0], Tree::literal(texts[1])),
                        ..both.env
                    },
                    effects: before.effects + both.effects,
                    saved: before.saved.push(
                        Saved { key: texts[0], previous: bound(both.env.ctx, texts[0]) },
                    ),
                    failure: None,
                },
            }
        }
    }
}

/// The context with one variable put back to what it was.
pub open spec fn put_back(ctx: Map<Seq<char>, Tree>, saved: Saved) -> Map<Seq<char>, Tree> {
    match saved.previous {
        Some(tree) => ctx.insert(saved.key, tree),
        None => ctx.remove(saved.key),
    }
}

/// The context with the saved variables put back, the last one first.
pub open spec fn restore(ctx: Map<Seq<char>, Tree>, saved: Seq<Saved>) -> Map<Seq<char>, Tree>
    decreases saved.len(),
{
    if saved.len() == 0 {
        ctx
    } else {
        restore(put_back(ctx, saved.last()), saved.drop_last())
    }
}

/// What the directive `behavior` does when called with `args`.
pub open spec fn apply(
    behavior: Behavior,
    world: World,
    env: Env,
    args: Seq<Tree>,
    depth: nat,
) -> Outcome
    decreases depth, 4nat, 1nat,
{
    apply_def(behavior, world, env, args, depth)
}

/// The definition of [`apply`]. It is kept apart so that a proof unfolds it
/// only where it asks to.
#[verifier::opaque]
pub open spec fn apply_def(
    behavior: Behavior,
    world: World,
    env: Env,
    args: Seq<Tree>,
    depth: nat,
) -> Outcome
    decreases depth, 4nat, 0nat,
{
    match behavior {
        Behavior::Dummy => done(env, Seq::empty()),
        Behavior::Version { components } => run_version(components, world, env, args, depth),
        Behavior::Admonition { title, class } => run_admonition(
            title,
            class,
            world,
            env,
            args,
            depth,
        ),
        Behavior::Concat => run_concat(world, env, args, depth),
        Behavior::Markdown => run_markdown(world, env, args, depth),
        Behavior::Template { template, checkers } => run_template(
            template,
            checkers,
            world,
            env,
            args,
            depth,
        ),
        Behavior::DefineTemplate => run_define_template(world, env, args, depth),
        Behavior::DefinitionList => run_definition_list(world, env, args, depth),
        Behavior::Include => run_include(world, env, args, depth),
        Behavior::Import => run_import(world, env, args, depth),
        Behavior::Let => run_let(world, env, args, depth),
        Behavior::Define => run_define(world, env, args, depth),
        Behavior::ThemeConfig => run_theme_config(world, env, args, depth),
        Behavior::TocTree => run_toctree(world, env, args, depth),
        Behavior::Heading { level } => run_heading(level, world, env, args, depth),
        Behavior::RefDef => run_refdef(world, env, args, depth),
        Behavior::Ref => run_ref(world, env, args, depth),
        Behavior::Steps => run_steps(world, env, args, depth),
    }
}

/// `version`: without argument the full version; with one, as many
/// components of the version as the argument has, and nothing where the
/// argument is empty.
pub open spec fn run_version(
    components: Seq<Seq<char>>,
    world: World,
    env: Env,
    args: Seq<Tree>,
    depth: nat,
) -> Outcome
    decreases depth, 3nat, 0nat,
{
    if args.len() == 0 {
        done(env, join(components, '.'))
    } else if args.len() == 1 {
        let arg = eval(world, env, args[0], depth);
        match arg.result {
            Err(_) => arg,
            Ok(text) => if text.len() == 0 {
                arg
            } else {
                arg.giving(version_text(components, count(text, '.') as int + 1))
            },
        }
    } else {
        fail(env, EvalError::ArityError)
    }
}

/// An admonition: a body, or a title and a body.
pub open spec fn run_admonition(
    title: Seq<char>,
    class: Seq<char>,
    world: World,
    env: Env,
    args: Seq<Tree>,
    depth: nat,
) -> Outcome
    decreases depth, 3nat, 0nat,
{
    if args.len() == 1 || args.len() == 2 {
        let all = each(Pass::Value, world, env, args, args.len(), depth);
        let texts = all.texts();
        all.giving(
            admonition(
                class,
                if args.len() == 2 {
                    texts[0]
                } else {
                    title
                },
                markdown_html(texts.last()),
            ),
        )
    } else {
        fail(env, EvalError::ArityError)
    }
}

/// `concat`: the texts of all arguments, one after the other.
pub open spec fn run_concat(world: World, env: Env, args: Seq<Tree>, depth: nat) -> Outcome
    decreases depth, 3nat, 0nat,
{
    let all = each(Pass::Value, world, env, args, args.len(), depth);
    all.giving(concat(all.texts()))
}

/// `md`: the texts of all arguments, rendered as one Markdown text.
pub open spec fn run_markdown(world: World, env: Env, args: Seq<Tree>, depth: nat) -> Outcome
    decreases depth, 3nat, 0nat,
{
    let all = each(Pass::Value, world, env, args, args.len(), depth);
    match all.result {
        Err(e) => all.failing(e),
        Ok(texts) => Outcome {
            env: all.env,
            effects: all.effects + rendering_effects(concat(texts)),
            result: Ok(rendered(concat(texts))),
        },
    }
}

/// How many arguments a template call reads: those it was given, and one
/// for each checker beyond them.
pub open spec fn template_arity(checkers: Seq<Seq<char>>, args: Seq<Tree>) -> nat {
    if args.len() >= checkers.len() {
        args.len()
    } else {
        checkers.len()
    }
}

/// A call of a template.
pub open spec fn run_template(
    template: Seq<char>,
    checkers: Seq<Seq<char>>,
    world: World,
    env: Env,
    args: Seq<Tree>,
    depth: nat,
) -> Outcome
    decreases depth, 3nat, 0nat,
{
    let all = each(
        Pass::Checked { checkers },
        world,
        env,
        args,
        template_arity(checkers, args),
        depth,
    );
    all.giving(fill(template, all.texts()))
}

/// `define-template`: a name, a template text and the checkers.
pub open spec fn run_define_template(
    world: World,
    env: Env,
    args: Seq<Tree>,
    depth: nat,
) -> Outcome
    decreases depth, 3nat, 0nat,
{
    if args.len() < 2 {
        fail(env, EvalError::ArityError)
    } else {
        let head = each(Pass::Value, world, env, args, 2, depth);
        match head.result {
            Err(e) => head.failing(e),
            Ok(named) => {
                let patterns = each(
                    Pass::Pattern,
                    world,
                    head.env,
                    args.skip(2),
                    (args.len() - 2) as nat,
                    depth,
                );
                let both = Outcomes { effects: head.effects + patterns.effects, ..patterns };
                match patterns.result {
                    Err(e) => both.failing(e),
                    Ok(checkers) => both.giving(Seq::empty()).registering(
                        named[0],
                        Behavior::Template { template: named[1], checkers },
                    ),
                }
            },
        }
    }
}

/// `definition-list`: each argument is a pair of a term and a body.
pub open spec fn run_definition_list(
    world: World,
    env: Env,
    args: Seq<Tree>,
    depth: nat,
) -> Outcome
    decreases depth, 3nat, 0nat,
{
    let all = each(Pass::Definition, world, env, args, args.len(), depth);
    all.giving(concat(all.texts()))
}

/// `include`: the text that the tree of another source file evaluates to.
pub open spec fn run_include(world: World, env: Env, args: Seq<Tree>, depth: nat) -> Outcome
    decreases depth, 3nat, 0nat,
{
    if args.len() != 1 {
        fail(env, EvalError::ArityError)
    } else {
        let named = eval(world, env, args[0], depth);
        match named.result {
            Err(_) => named,
            Ok(path) => {
                let full = resolve(origin(world, args[0].file()), path);
                if world.sources.contains_key(full) {
                    named.followed_by(eval(world, named.env, world.sources[full], depth))
                } else {
                    named.failing(EvalError::ParseError)
                }
            },
        }
    }
}

/// `import`: what `include` changes, without its text.
pub open spec fn run_import(world: World, env: Env, args: Seq<Tree>, depth: nat) -> Outcome
    decreases depth, 3nat, 1nat,
{
    let included = run_include(world, env, args, depth);
    if included.result is Ok {
        included.giving(Seq::empty())
    } else {
        included
    }
}

/// `let`: binds the pairs of its first argument, gives the texts of the
/// other arguments, and puts every variable it bound back to what it was.
pub open spec fn run_let(world: World, env: Env, args: Seq<Tree>, depth: nat) -> Outcome
    decreases depth, 3nat, 1nat,
{
    if args.len() == 0 {
        fail(env, EvalError::ArityError)
    } else {
        match args[0] {
            Tree::Leaf { .. } => fail(env, EvalError::ArityError),
            Tree::Group { children, .. } => if children.len() % 2 != 0 {
                fail(env, EvalError::ArityError)
            } else {
                let bindings = bind(world, env, children, children.len() / 2, depth);
                match bindings.failure {
                    Some(e) => Outcome {
                        env: Env {
                            ctx: restore(bindings.env.ctx, bindings.saved),
                            ..bindings.env
                        },
                        effects: bindings.effects,
                        result: Err(e),
                    },
                    None => {
                        let body = run_concat(world, bindings.env, args.drop_first(), depth);
                        Outcome {
                            env: Env { ctx: restore(body.env.ctx, bindings.saved), ..body.env },
                            effects: bindings.effects + body.effects,
                            result: body.result,
                        }
                    },
                }
            },
        }
    }
}

/// `define`: binds a variable to a tree, or, with `evaluate` before the
/// key, to the text that the tree evaluates to now.
pub open spec fn run_define(world: World, env: Env, args: Seq<Tree>, depth: nat) -> Outcome
    decreases depth, 3nat, 0nat,
{
    if args.len() == 2 {
        let key = eval(world, env, args[0], depth);
        match key.result {
            Err(_) => key,
            Ok(name) => key.giving(Seq::empty()).binding(name, args[1]),
        }
    } else if args.len() == 3 {
        let word = eval(world, env, args[0], depth);
        match word.result {
            Err(_) => word,
            Ok(text) => if text != "evaluate"@ {
                word.failing(EvalError::ArityError)
            } else {
                let both = eval_two(world, word.env, args[1], args[2], depth);
                let all = Outcomes { effects: word.effects + both.effects, ..both };
                match both.result {
                    Err(e) => all.failing(e),
                    Ok(texts) => all.giving(Seq::empty()).binding(
                        texts[0],
                        Tree::Leaf { text: texts[1], file: args[2].file() },
                    ),
                }
            },
        }
    } else {
        fail(env, EvalError::ArityError)
    }
}

/// `theme-config`: pairs of a key and a value.
pub open spec fn run_theme_config(world: World, env: Env, args: Seq<Tree>, depth: nat) -> Outcome
    decreases depth, 3nat, 0nat,
{
    if args.len() % 2 != 0 {
        fail(env, EvalError::ArityError)
    } else {
        each(Pass::ThemePair, world, env, args, args.len() / 2, depth).giving(Seq::empty())
    }
}

/// `toctree`: the pages that the current page lists.
pub open spec fn run_toctree(world: World, env: Env, args: Seq<Tree>, depth: nat) -> Outcome
    decreases depth, 3nat, 0nat,
{
    each(Pass::TocEntry, world, env, args, args.len(), depth).giving(Seq::empty())
}

/// A heading: a title, or the id of a reference and a title.
pub open spec fn run_heading(
    level: nat,
    world: World,
    env: Env,
    args: Seq<Tree>,
    depth: nat,
) -> Outcome
    decreases depth, 3nat, 0nat,
{
    if args.len() == 1 {
        let title = eval(world, env, args[0], depth);
        match title.result {
            Err(_) => title,
            Ok(text) => title.giving(heading(level, text)),
        }
    } else if args.len() == 2 {
        let both = eval_two(world, env, args[0], args[1], depth);
        match both.result {
            Err(e) => both.failing(e),
            Ok(texts) => both.giving(heading(level, texts[1])).with(
                Effect::DefineRef { id: texts[0], title: texts[1] },
            ),
        }
    } else {
        fail(env, EvalError::ArityError)
    }
}

/// `define-ref`: the id of a reference and its title.
pub open spec fn run_refdef(world: World, env: Env, args: Seq<Tree>, depth: nat) -> Outcome
    decreases depth, 3nat, 0nat,
{
    if args.len() != 2 {
        fail(env, EvalError::ArityError)
    } else {
        let both = eval_two(world, env, args[0], args[1], depth);
        match both.result {
            Err(e) => both.failing(e),
            Ok(texts) => both.giving(Seq::empty()).with(
                Effect::DefineRef { id: texts[0], title: texts[1] },
            ),
        }
    }
}

/// `ref`: a link to a reference, with a title of its own or with a
/// placeholder for the reference's. Arguments after the second are not
/// read.
pub open spec fn run_ref(world: World, env: Env, args: Seq<Tree>, depth: nat) -> Outcome
    decreases depth, 3nat, 0nat,
{
    if args.len() == 0 {
        fail(env, EvalError::ArityError)
    } else if args.len() == 1 {
        let id = eval(world, env, args[0], depth);
        match id.result {
            Err(_) => id,
            Ok(text) => id.giving(
                link(
                    token(world.marker, PlaceholderAction::Title, text),
                    token(world.marker, PlaceholderAction::Path, text),
                ),
            ),
        }
    } else {
        let both = eval_two(world, env, args[0], args[1], depth);
        match both.result {
            Err(e) => both.failing(e),
            Ok(texts) => both.giving(
                link(texts[1], token(world.marker, PlaceholderAction::Path, texts[0])),
            ),
        }
    }
}

/// `steps`: a numbered list of steps.
pub open spec fn run_steps(world: World, env: Env, args: Seq<Tree>, depth: nat) -> Outcome
    decreases depth, 3nat, 0nat,
{
    let all = each(Pass::Step, world, env, args, args.len(), depth);
    all.giving("<div class=\"steps\">"@ + concat(all.texts()) + "</div>"@)
}

/// An error stays: once the evaluation of some items has failed, that of
/// more items is the same.
pub proof fn lemma_each_failed(
    pass: Pass,
    world: World,
    env: Env,
    args: Seq<Tree>,
    failed: nat,
    count: nat,
    depth: nat,
)
    requires
        failed <= count,
        each(pass, world, env, args, failed, depth).result is Err,
    ensures
        each(pass, world, env, args, count, depth) == each(pass, world, env, args, failed, depth),
    decreases count,
{
    if failed < count {
        lemma_each_failed(pass, world, env, args, failed, (count - 1) as nat, depth);
    }
}

/// A pass that succeeds gives one text for each item.
pub proof fn lemma_each_len(
    pass: Pass,
    world: World,
    env: Env,
    args: Seq<Tree>,
    count: nat,
    depth: nat,
)
    ensures
        each(pass, world, env, args, count, depth).result is Ok ==> each(
            pass,
            world,
            env,
            args,
            count,
            depth,
        ).texts().len() == count,
    decreases count,
{
    if count > 0 {
        lemma_each_len(pass, world, env, args, (count - 1) as nat, depth);
    }
}

/// A failure stays: once the binding of some pairs has failed, that of more
/// pairs is the same.
pub proof fn lemma_bind_failed(
    world: World,
    env: Env,
    pairs: Seq<Tree>,
    failed: nat,
    count: nat,
    depth: nat,
)
    requires
        failed <= count,
        bind(world, env, pairs, failed, depth).failure is Some,
    ensures
        bind(world, env, pairs, count, depth) == bind(world, env, pairs, failed, depth),
    decreases count,
{
    if failed < count {
        lemma_bind_failed(world, env, pairs, failed, (count - 1) as nat, depth);
    }
}

} // verus!

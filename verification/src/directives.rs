//! The directives of the language.
//!
//! Each directive is a type with a `handle` method, which takes the
//! evaluator and the arguments of a call, unevaluated: the directive
//! decides which of them it evaluates, and when.

use crate::error::EvalError;
use crate::evaluator::{after, evaluated, lemma_after_after, lemma_effects_push, share, Evaluator};
use crate::markdown::{markdown_html, render, title_of};
use crate::model::{
    admonition, apply, apply_def, apply_effects, argument, bind, bound, definition, dir_of, done,
    each, eval, eval_two, fill, hashes, heading, item, lemma_bind_failed, lemma_each_failed,
    lemma_each_len, link, rendered, rendering_effects, resolve, restore, run_admonition,
    run_concat, run_define, run_define_template, run_definition_list, run_heading, run_import,
    run_include, run_let, run_markdown, run_ref, run_refdef, run_steps, run_template,
    run_theme_config, run_toctree, run_version, step_box, step_parts, theme_pair, Behavior,
    Effect, Pass, Saved,
};
use crate::node::{lemma_views, lemma_views_subrange, views, Node, NodeValue};
use crate::page::{RefDef, Slug};
use crate::pattern::{accepts, is_valid};
use crate::placeholder::PlaceholderAction;
use crate::text::{
    chars_of, concat, concat_all, count_char, decimal_text, join_first, lines, same_text, split,
    split_on, string_of, trimmed,
};
use std::rc::Rc;
use vstd::prelude::*;
use vstd::slice::slice_subrange;

verus! {

/// What every directive can do.
pub trait DirectiveHandler {
    /// What the directive does, as a mathematical value.
    spec fn behavior(&self) -> Behavior;

    /// The directive as a value that the registry can hold.
    fn directive(&self) -> (d: Directive)
        ensures
            d@ == self.behavior(),
    ;

    /// Calls the directive with the arguments `args`: gives the text of the
    /// call, and changes in `evaluator` what the call changes.
    fn handle(&self, evaluator: &mut Evaluator, args: &[Node]) -> (r: Result<String, EvalError>)
        ensures
            evaluated(
                old(evaluator)@,
                final(evaluator)@,
                apply(
                    self.behavior(),
                    old(evaluator)@.world,
                    old(evaluator)@.env,
                    views(args@),
                    old(evaluator)@.depth,
                ),
                r,
            ),
    ;
}

/// A directive in the registry.
pub enum Directive {
    Dummy(Dummy),
    Version(Version),
    Admonition(Admonition),
    Concat(Concat),
    Markdown(Markdown),
    Template(Template),
    DefineTemplate(DefineTemplate),
    DefinitionList(DefinitionList),
    Include(Include),
    Import(Import),
    Let(Let),
    Define(Define),
    ThemeConfig(ThemeConfig),
    TocTree(TocTree),
    Heading(Heading),
    RefDef(RefDefDirective),
    Ref(RefDirective),
    Steps(Steps),
}

impl View for Directive {
    type V = Behavior;

    open spec fn view(&self) -> Behavior {
        match self {
            Directive::Dummy(h) => h@,
            Directive::Version(h) => h@,
            Directive::Admonition(h) => h@,
            Directive::Concat(h) => h@,
            Directive::Markdown(h) => h@,
            Directive::Template(h) => h@,
            Directive::DefineTemplate(h) => h@,
            Directive::DefinitionList(h) => h@,
            Directive::Include(h) => h@,
            Directive::Import(h) => h@,
            Directive::Let(h) => h@,
            Directive::Define(h) => h@,
            Directive::ThemeConfig(h) => h@,
            Directive::TocTree(h) => h@,
            Directive::Heading(h) => h@,
            Directive::RefDef(h) => h@,
            Directive::Ref(h) => h@,
            Directive::Steps(h) => h@,
        }
    }
}

impl Directive {
    /// Calls the directive.
    pub fn call(&self, evaluator: &mut Evaluator, args: &[Node]) -> (r: Result<String, EvalError>)
        ensures
            evaluated(
                old(evaluator)@,
                final(evaluator)@,
                apply(
                    self@,
                    old(evaluator)@.world,
                    old(evaluator)@.env,
                    views(args@),
                    old(evaluator)@.depth,
                ),
                r,
            ),
        decreases old(evaluator).depth, 9nat,
    {
        match self {
            Directive::Dummy(h) => h.handle(evaluator, args),
            Directive::Version(h) => h.handle(evaluator, args),
            Directive::Admonition(h) => h.handle(evaluator, args),
            Directive::Concat(h) => h.handle(evaluator, args),
            Directive::Markdown(h) => h.handle(evaluator, args),
            Directive::Template(h) => h.handle(evaluator, args),
            Directive::DefineTemplate(h) => h.handle(evaluator, args),
            Directive::DefinitionList(h) => h.handle(evaluator, args),
            Directive::Include(h) => h.handle(evaluator, args),
            Directive::Import(h) => h.handle(evaluator, args),
            Directive::Let(h) => h.handle(evaluator, args),
            Directive::Define(h) => h.handle(evaluator, args),
            Directive::ThemeConfig(h) => h.handle(evaluator, args),
            Directive::TocTree(h) => h.handle(evaluator, args),
            Directive::Heading(h) => h.handle(evaluator, args),
            Directive::RefDef(h) => h.handle(evaluator, args),
            Directive::Ref(h) => h.handle(evaluator, args),
            Directive::Steps(h) => h.handle(evaluator, args),
        }
    }
}

/// How the items of a list of arguments are evaluated.
pub enum Stage<'a> {
    /// Each argument is evaluated.
    Value,
    /// Each argument of a call of the template is evaluated and checked.
    Checked(&'a Template),
    /// Each argument is evaluated and must be a valid pattern.
    Pattern,
    /// Each argument is an entry of a definition list.
    Definition,
    /// Each two arguments are a key and a value of the theme configuration.
    ThemePair,
    /// Each argument is an entry of the table of contents.
    TocEntry,
    /// Each argument is a step.
    Step,
}

impl<'a> View for Stage<'a> {
    type V = Pass;

    open spec fn view(&self) -> Pass {
        match self {
            Stage::Value => Pass::Value,
            Stage::Checked(template) => Pass::Checked { checkers: lines(template.checkers@) },
            Stage::Pattern => Pass::Pattern,
            Stage::Definition => Pass::Definition,
            Stage::ThemePair => Pass::ThemePair,
            Stage::TocEntry => Pass::TocEntry,
            Stage::Step => Pass::Step,
        }
    }
}

/// Whether the first `count` items of `len` arguments are there to be read
/// in the pass `pass`.
pub open spec fn in_reach(pass: Pass, len: nat, count: nat) -> bool {
    match pass {
        Pass::Checked { .. } => true,
        Pass::ThemePair => 2 * count <= len,
        _ => count <= len,
    }
}

/// The result of a pass with the characters of its texts.
pub open spec fn texts_result(r: Result<Vec<String>, EvalError>) -> Result<
    Seq<Seq<char>>,
    EvalError,
> {
    match r {
        Ok(texts) => Ok(lines(texts@)),
        Err(e) => Err(e),
    }
}

/// Evaluates the item `index` of `args` as the pass `stage` asks.
pub fn evaluate_item(
    evaluator: &mut Evaluator,
    stage: &Stage<'_>,
    args: &[Node],
    index: usize,
) -> (r: Result<String, EvalError>)
    requires
        in_reach(stage@, args@.len(), (index + 1) as nat),
    ensures
        evaluated(
            old(evaluator)@,
            final(evaluator)@,
            item(
                stage@,
                old(evaluator)@.world,
                old(evaluator)@.env,
                views(args@),
                index as nat,
                old(evaluator)@.depth,
            ),
            r,
        ),
    decreases old(evaluator).depth, 3nat,
{
    proof {
        lemma_views(args@);
    }
    match stage {
        Stage::Value => evaluator.evaluate(&args[index]),
        Stage::Checked(template) => template.argument(evaluator, args, index),
        Stage::Pattern => DefineTemplate::pattern(evaluator, args, index),
        Stage::Definition => DefinitionList::entry(evaluator, args, index),
        Stage::ThemePair => ThemeConfig::pair(evaluator, args, index),
        Stage::TocEntry => TocTree::entry(evaluator, args, index),
        Stage::Step => Steps::step(evaluator, args, index),
    }
}

/// Evaluates the first `count` items of `args`, one after the other, as
/// the pass `stage` asks. Stops at the first item that fails.
pub fn evaluate_each(
    evaluator: &mut Evaluator,
    stage: &Stage<'_>,
    args: &[Node],
    count: usize,
) -> (r: Result<Vec<String>, EvalError>)
    requires
        in_reach(stage@, args@.len(), count as nat),
    ensures
        ({
            let all = each(
                stage@,
                old(evaluator)@.world,
                old(evaluator)@.env,
                views(args@),
                count as nat,
                old(evaluator)@.depth,
            );
            after(old(evaluator)@, final(evaluator)@, all.env, all.effects) && texts_result(r)
                == all.result
        }),
    decreases old(evaluator).depth, 4nat,
{
    let ghost start = evaluator@;
    let ghost trees = views(args@);
    let mut texts: Vec<String> = Vec::new();
    let mut i: usize = 0;
    proof {
        assert(lines(texts@) =~= Seq::<Seq<char>>::empty());
        assert(apply_effects(start.side, Seq::empty()) == start.side);
    }
    while i < count
        invariant
            i <= count,
            start == old(evaluator)@,
            trees == views(args@),
            in_reach(stage@, args@.len(), count as nat),
            ({
                let sofar = each(stage@, start.world, start.env, trees, i as nat, start.depth);
                after(start, evaluator@, sofar.env, sofar.effects) && sofar.result == Ok::<
                    Seq<Seq<char>>,
                    EvalError,
                >(lines(texts@))
            }),
        decreases count - i,
    {
        let ghost before = evaluator@;
        let ghost sofar = each(stage@, start.world, start.env, trees, i as nat, start.depth);
        let ghost one = item(stage@, start.world, sofar.env, trees, i as nat, start.depth);
        let r = evaluate_item(evaluator, stage, args, i);
        proof {
            lemma_after_after(
                start,
                before,
                evaluator@,
                sofar.env,
                sofar.effects,
                one.env,
                one.effects,
            );
        }
        match r {
            Ok(text) => {
                let ghost done = lines(texts@);
                texts.push(text);
                assert(lines(texts@) =~= done.push(text@));
            },
            Err(e) => {
                proof {
                    lemma_each_failed(
                        stage@,
                        start.world,
                        start.env,
                        trees,
                        (i + 1) as nat,
                        count as nat,
                        start.depth,
                    );
                }
                return Err(e);
            },
        }
        i = i + 1;
    }
    Ok(texts)
}

/// The result of the evaluation of a pair with the characters of its texts.
pub open spec fn pair_result(r: Result<(String, String), EvalError>) -> Result<
    Seq<Seq<char>>,
    EvalError,
> {
    match r {
        Ok(pair) => Ok(seq![pair.0@, pair.1@]),
        Err(e) => Err(e),
    }
}

/// Evaluates `a`, then `b`. Stops where `a` fails.
pub fn evaluate_two(evaluator: &mut Evaluator, a: &Node, b: &Node) -> (r: Result<
    (String, String),
    EvalError,
>)
    ensures
        ({
            let both = eval_two(
                old(evaluator)@.world,
                old(evaluator)@.env,
                a@,
                b@,
                old(evaluator)@.depth,
            );
            after(old(evaluator)@, final(evaluator)@, both.env, both.effects) && pair_result(r)
                == both.result
        }),
    decreases old(evaluator).depth, 1nat,
{
    let ghost start = evaluator@;
    let ghost first = eval(start.world, start.env, a@, start.depth);
    let x = match evaluator.evaluate(a) {
        Ok(x) => x,
        Err(e) => {
            return Err(e);
        },
    };
    let ghost middle = evaluator@;
    let ghost second = eval(start.world, first.env, b@, start.depth);
    let r = evaluator.evaluate(b);
    proof {
        lemma_after_after(
            start,
            middle,
            evaluator@,
            first.env,
            first.effects,
            second.env,
            second.effects,
        );
    }
    match r {
        Ok(y) => Ok((x, y)),
        Err(e) => Err(e),
    }
}

/// The text of the argument `index`, where the call has one.
pub fn consume_string(args: &[Node], index: usize, evaluator: &mut Evaluator) -> (r: Result<
    Option<String>,
    EvalError,
>)
    ensures
        index >= args@.len() ==> r == Ok::<Option<String>, EvalError>(None) && final(evaluator)@
            == old(evaluator)@,
        index < args@.len() ==> r != Ok::<Option<String>, EvalError>(None) && evaluated(
            old(evaluator)@,
            final(evaluator)@,
            eval(
                old(evaluator)@.world,
                old(evaluator)@.env,
                args@[index as int]@,
                old(evaluator)@.depth,
            ),
            match r {
                Ok(Some(text)) => Ok(text),
                Ok(None) => Err(EvalError::ArityError),
                Err(e) => Err(e),
            },
        ),
    decreases old(evaluator).depth, 1nat,
{
    if index < args.len() {
        match evaluator.evaluate(&args[index]) {
            Ok(text) => Ok(Some(text)),
            Err(e) => Err(e),
        }
    } else {
        Ok(None)
    }
}

/// Renders `text` as Markdown and trims the result. Where the rendering
/// finds a title and the page has none yet, the title becomes the page's.
pub fn render_into(evaluator: &mut Evaluator, text: &str) -> (out: String)
    ensures
        after(old(evaluator)@, final(evaluator)@, old(evaluator)@.env, rendering_effects(text@)),
        out@ == rendered(text@),
{
    let (html, title) = render(text);
    let ghost side = evaluator@.side;
    if !title.as_str().is_empty() {
        if !evaluator.theme_config.contains_key("title") {
            evaluator.theme_config.insert("title".to_owned(), title);
        }
        proof {
            lemma_effects_push(
                side,
                Seq::empty(),
                Effect::SuggestTitle { title: title_of(markdown_html(text@)) },
            );
            assert(Seq::<Effect>::empty().push(
                Effect::SuggestTitle { title: title_of(markdown_html(text@)) },
            ) =~= rendering_effects(text@));
        }
    }
    trimmed(html.as_str())
}

/// The directive that does nothing.
pub struct Dummy;

impl View for Dummy {
    type V = Behavior;

    open spec fn view(&self) -> Behavior {
        Behavior::Dummy
    }
}

impl DirectiveHandler for Dummy {
    open spec fn behavior(&self) -> Behavior {
        self@
    }

    fn directive(&self) -> (d: Directive)
        ensures
            d@ == self@,
    {
        Directive::Dummy(Dummy)
    }

    fn handle(&self, evaluator: &mut Evaluator, args: &[Node]) -> (r: Result<String, EvalError>)
        ensures
            evaluated(
                old(evaluator)@,
                final(evaluator)@,
                done(old(evaluator)@.env, Seq::empty()),
                r,
            ),
    {
        proof {
            reveal(apply_def);
        }
        Ok(String::new())
    }
}

/// `version`: the version of the product that the pages document.
pub struct Version {
    /// The components of the version: its parts between the dots.
    version: Vec<String>,
}

impl View for Version {
    type V = Behavior;

    closed spec fn view(&self) -> Behavior {
        Behavior::Version { components: lines(self.version@) }
    }
}

impl Version {
    /// The directive for the version `version`.
    pub fn new(version: &str) -> (v: Version)
        ensures
            v@ == (Behavior::Version { components: split(version@, '.') }),
    {
        Version { version: split_on(version, '.') }
    }

    /// A copy of the directive.
    pub fn duplicate(&self) -> (copy: Version)
        ensures
            copy@ == self@,
    {
        let mut version: Vec<String> = Vec::new();
        let mut i: usize = 0;
        while i < self.version.len()
            invariant
                i <= self.version.len(),
                version.len() == i,
                forall|j: int| 0 <= j < i ==> version@[j]@ == self.version@[j]@,
            decreases self.version.len() - i,
        {
            version.push(self.version[i].clone());
            i = i + 1;
        }
        assert(lines(version@) =~= lines(self.version@));
        Version { version }
    }
}

impl DirectiveHandler for Version {
    open spec fn behavior(&self) -> Behavior {
        self@
    }

    fn directive(&self) -> (d: Directive)
        ensures
            d@ == self@,
    {
        Directive::Version(self.duplicate())
    }

    fn handle(&self, evaluator: &mut Evaluator, args: &[Node]) -> (r: Result<String, EvalError>)
        ensures
            evaluated(
                old(evaluator)@,
                final(evaluator)@,
                run_version(
                    self@->components,
                    old(evaluator)@.world,
                    old(evaluator)@.env,
                    views(args@),
                    old(evaluator)@.depth,
                ),
                r,
            ),
        decreases old(evaluator).depth, 5nat,
    {
        proof {
            reveal(apply_def);
            lemma_views(args@);
            assert(lines(self.version@).take(self.version.len() as int) =~= lines(self.version@));
            assert(apply_effects(evaluator@.side, Seq::empty()) == evaluator@.side);
        }
        if args.len() == 0 {
            Ok(join_first(&self.version, self.version.len(), '.'))
        } else if args.len() == 1 {
            let arg = match evaluator.evaluate(&args[0]) {
                Ok(arg) => arg,
                Err(e) => {
                    return Err(e);
                },
            };
            if arg.as_str().is_empty() {
                return Ok(arg);
            }
            let dots = count_char(arg.as_str(), '.');
            if dots >= self.version.len() {
                Ok(join_first(&self.version, self.version.len(), '.'))
            } else {
                Ok(join_first(&self.version, dots + 1, '.'))
            }
        } else {
            Err(EvalError::ArityError)
        }
    }
}

/// An admonition: a box with a title and a body, such as a note or a
/// warning.
pub struct Admonition {
    title: String,
    class: String,
}

impl View for Admonition {
    type V = Behavior;

    closed spec fn view(&self) -> Behavior {
        Behavior::Admonition { title: self.title@, class: self.class@ }
    }
}

impl Admonition {
    /// The admonition with the title `title`, where a call gives none, and
    /// the class `class`.
    pub fn new(title: &str, class: &str) -> (a: Admonition)
        ensures
            a@ == (Behavior::Admonition { title: title@, class: class@ }),
    {
        Admonition { title: title.to_owned(), class: class.to_owned() }
    }
}

impl DirectiveHandler for Admonition {
    open spec fn behavior(&self) -> Behavior {
        self@
    }

    fn directive(&self) -> (d: Directive)
        ensures
            d@ == self@,
    {
        Directive::Admonition(Admonition { title: self.title.clone(), class: self.class.clone() })
    }

    fn handle(&self, evaluator: &mut Evaluator, args: &[Node]) -> (r: Result<String, EvalError>)
        ensures
            evaluated(
                old(evaluator)@,
                final(evaluator)@,
                run_admonition(
                    self@->title,
                    self@->class,
                    old(evaluator)@.world,
                    old(evaluator)@.env,
                    views(args@),
                    old(evaluator)@.depth,
                ),
                r,
            ),
        decreases old(evaluator).depth, 5nat,
    {
        proof {
            reveal(apply_def);
            lemma_views(args@);
            assert(apply_effects(evaluator@.side, Seq::empty()) == evaluator@.side);
        }
        if args.len() != 1 && args.len() != 2 {
            return Err(EvalError::ArityError);
        }
        let texts = match evaluate_each(evaluator, &Stage::Value, args, args.len()) {
            Ok(texts) => texts,
            Err(e) => {
                return Err(e);
            },
        };
        proof {
            lemma_each_len(
                Pass::Value,
                old(evaluator)@.world,
                old(evaluator)@.env,
                views(args@),
                args@.len(),
                old(evaluator)@.depth,
            );
        }
        let title = if args.len() == 2 {
            texts[0].as_str()
        } else {
            self.title.as_str()
        };
        let (body, _) = render(texts[texts.len() - 1].as_str());
        let mut out = String::new();
        out.append("<div class=\"admonition admonition-");
        out.append(self.class.as_str());
        out.append("\"><span class=\"admonition-title admonition-title-");
        out.append(self.class.as_str());
        out.append("\">");
        out.append(title);
        out.append("</span>");
        out.append(body.as_str());
        out.append("</div>\n");
        assert(out@ =~= admonition(self.class@, title@, body@));
        Ok(out)
    }
}

/// `concat`: the texts of all arguments, one after the other.
pub struct Concat;

impl View for Concat {
    type V = Behavior;

    open spec fn view(&self) -> Behavior {
        Behavior::Concat
    }
}

impl DirectiveHandler for Concat {
    open spec fn behavior(&self) -> Behavior {
        self@
    }

    fn directive(&self) -> (d: Directive)
        ensures
            d@ == self@,
    {
        Directive::Concat(Concat)
    }

    fn handle(&self, evaluator: &mut Evaluator, args: &[Node]) -> (r: Result<String, EvalError>)
        ensures
            evaluated(
                old(evaluator)@,
                final(evaluator)@,
                run_concat(old(evaluator)@.world, old(evaluator)@.env, views(args@), old(evaluator)@.depth),
                r,
            ),
        decreases old(evaluator).depth, 5nat,
    {
        proof {
            reveal(apply_def);
            lemma_views(args@);
        }
        match evaluate_each(evaluator, &Stage::Value, args, args.len()) {
            Ok(texts) => Ok(concat_all(&texts)),
            Err(e) => Err(e),
        }
    }
}

/// `md`: renders its arguments as Markdown.
pub struct Markdown;

impl View for Markdown {
    type V = Behavior;

    open spec fn view(&self) -> Behavior {
        Behavior::Markdown
    }
}

impl DirectiveHandler for Markdown {
    open spec fn behavior(&self) -> Behavior {
        self@
    }

    fn directive(&self) -> (d: Directive)
        ensures
            d@ == self@,
    {
        Directive::Markdown(Markdown)
    }

    fn handle(&self, evaluator: &mut Evaluator, args: &[Node]) -> (r: Result<String, EvalError>)
        ensures
            evaluated(
                old(evaluator)@,
                final(evaluator)@,
                run_markdown(old(evaluator)@.world, old(evaluator)@.env, views(args@), old(evaluator)@.depth),
                r,
            ),
        decreases old(evaluator).depth, 5nat,
    {
        proof {
            reveal(apply_def);
            lemma_views(args@);
        }
        let ghost start = evaluator@;
        let ghost all = each(
            Pass::Value,
            start.world,
            start.env,
            views(args@),
            args@.len(),
            start.depth,
        );
        let texts = match evaluate_each(evaluator, &Stage::Value, args, args.len()) {
            Ok(texts) => texts,
            Err(e) => {
                return Err(e);
            },
        };
        let body = concat_all(&texts);
        let ghost middle = evaluator@;
        let out = render_into(evaluator, body.as_str());
        proof {
            lemma_after_after(
                start,
                middle,
                evaluator@,
                all.env,
                all.effects,
                all.env,
                rendering_effects(body@),
            );
        }
        Ok(out)
    }
}

/// `template` with every marker `${N}` replaced by the value `N`.
pub fn fill_template(template: &str, values: &Vec<String>) -> (out: String)
    ensures
        out@ == fill(template@, lines(values@)),
{
    let text = chars_of(template);
    let ghost all = lines(values@);
    let mut out = String::new();
    let mut i: usize = 0;
    assert(text@.skip(0) =~= text@);
    assert forall|t: Seq<char>| Seq::<char>::empty() + t =~= t by {}
    while i < text.len()
        invariant
            i <= text.len(),
            text@ == template@,
            all == lines(values@),
            out@ + fill(text@.skip(i as int), all) == fill(text@, all),
        decreases text.len() - i,
    {
        let ghost rest = text@.skip(i as int);
        let ghost before = out@;
        proof {
            assert(rest[0] == text@[i as int]);
            if text.len() - i >= 4 {
                assert(rest[1] == text@[i + 1]);
                assert(rest[2] == text@[i + 2]);
                assert(rest[3] == text@[i + 3]);
            }
        }
        if text.len() - i >= 4 && text[i] == '$' && text[i + 1] == '{' && '0' <= text[i + 2]
            && text[i + 2] <= '9' && text[i + 3] == '}' {
            let n = (text[i + 2] as u32 - '0' as u32) as usize;
            let ghost value = argument(all, n as int);
            if n < values.len() {
                out.append(values[n].as_str());
            }
            proof {
                assert(out@ =~= before + value);
                assert(rest.skip(4) =~= text@.skip(i + 4));
                assert forall|t: Seq<char>| (before + value) + t =~= before + (value + t) by {}
            }
            i = i + 4;
        } else {
            out.push(text[i]);
            proof {
                assert(rest.skip(1) =~= text@.skip(i + 1));
                assert forall|t: Seq<char>| before.push(text@[i as int]) + t =~= before + (
                seq![text@[i as int]] + t) by {}
            }
            i = i + 1;
        }
    }
    assert(out@ + Seq::<char>::empty() =~= out@);
    out
}

/// A directive that a page has defined with `define-template`: a text with
/// markers for the arguments of a call, and a checker for each of the first
/// arguments.
pub struct Template {
    pub template: String,
    /// The patterns that the arguments must match, in order.
    pub checkers: Vec<String>,
}

impl View for Template {
    type V = Behavior;

    open spec fn view(&self) -> Behavior {
        Behavior::Template { template: self.template@, checkers: lines(self.checkers@) }
    }
}

impl Template {
    /// The template with the text `template` and the patterns `checkers`.
    pub fn new(template: String, checkers: Vec<String>) -> (t: Template)
        ensures
            t@ == (Behavior::Template { template: template@, checkers: lines(checkers@) }),
    {
        Template { template, checkers }
    }

    /// A copy of the template.
    pub fn duplicate(&self) -> (copy: Template)
        ensures
            copy@ == self@,
    {
        let mut checkers: Vec<String> = Vec::new();
        let mut i: usize = 0;
        while i < self.checkers.len()
            invariant
                i <= self.checkers.len(),
                checkers.len() == i,
                forall|j: int| 0 <= j < i ==> checkers@[j]@ == self.checkers@[j]@,
            decreases self.checkers.len() - i,
        {
            checkers.push(self.checkers[i].clone());
            i = i + 1;
        }
        assert(lines(checkers@) =~= lines(self.checkers@));
        Template { template: self.template.clone(), checkers }
    }

    /// The argument `index` of a call: the text of the argument where the
    /// call gives one, else nothing; it must pass the checker `index` where
    /// there is one.
    pub fn argument(&self, evaluator: &mut Evaluator, args: &[Node], index: usize) -> (r: Result<
        String,
        EvalError,
    >)
        ensures
            evaluated(
                old(evaluator)@,
                final(evaluator)@,
                item(
                    Pass::Checked { checkers: lines(self.checkers@) },
                    old(evaluator)@.world,
                    old(evaluator)@.env,
                    views(args@),
                    index as nat,
                    old(evaluator)@.depth,
                ),
                r,
            ),
        decreases old(evaluator).depth, 2nat,
    {
        proof {
            lemma_views(args@);
            assert(apply_effects(evaluator@.side, Seq::empty()) == evaluator@.side);
        }
        let value = if index < args.len() {
            match evaluator.evaluate(&args[index]) {
                Ok(text) => text,
                Err(e) => {
                    return Err(e);
                },
            }
        } else {
            String::new()
        };
        if index < self.checkers.len() && !accepts(self.checkers[index].as_str(), value.as_str()) {
            Err(EvalError::ValidationError)
        } else {
            Ok(value)
        }
    }
}

impl DirectiveHandler for Template {
    open spec fn behavior(&self) -> Behavior {
        self@
    }

    fn directive(&self) -> (d: Directive)
        ensures
            d@ == self@,
    {
        Directive::Template(self.duplicate())
    }

    fn handle(&self, evaluator: &mut Evaluator, args: &[Node]) -> (r: Result<String, EvalError>)
        ensures
            evaluated(
                old(evaluator)@,
                final(evaluator)@,
                run_template(
                    self.template@,
                    lines(self.checkers@),
                    old(evaluator)@.world,
                    old(evaluator)@.env,
                    views(args@),
                    old(evaluator)@.depth,
                ),
                r,
            ),
        decreases old(evaluator).depth, 5nat,
    {
        proof {
            reveal(apply_def);
            lemma_views(args@);
        }
        let count = if args.len() >= self.checkers.len() {
            args.len()
        } else {
            self.checkers.len()
        };
        match evaluate_each(evaluator, &Stage::Checked(self), args, count) {
            Ok(values) => Ok(fill_template(self.template.as_str(), &values)),
            Err(e) => Err(e),
        }
    }
}

/// `define-template`: defines a directive from a text with markers.
///
/// The first argument is the name of the directive, the second the text,
/// and each other argument the pattern that the argument of a call at its
/// position must match.
pub struct DefineTemplate;

impl View for DefineTemplate {
    type V = Behavior;

    open spec fn view(&self) -> Behavior {
        Behavior::DefineTemplate
    }
}

impl DefineTemplate {
    /// The pattern `index`: the text of the argument, which must be a valid
    /// pattern.
    pub fn pattern(evaluator: &mut Evaluator, args: &[Node], index: usize) -> (r: Result<
        String,
        EvalError,
    >)
        requires
            index < args@.len(),
        ensures
            evaluated(
                old(evaluator)@,
                final(evaluator)@,
                item(
                    Pass::Pattern,
                    old(evaluator)@.world,
                    old(evaluator)@.env,
                    views(args@),
                    index as nat,
                    old(evaluator)@.depth,
                ),
                r,
            ),
        decreases old(evaluator).depth, 2nat,
    {
        proof {
            lemma_views(args@);
        }
        match evaluator.evaluate(&args[index]) {
            Ok(text) => if is_valid(text.as_str()) {
                Ok(text)
            } else {
                Err(EvalError::ValidationError)
            },
            Err(e) => Err(e),
        }
    }
}

impl DirectiveHandler for DefineTemplate {
    open spec fn behavior(&self) -> Behavior {
        self@
    }

    fn directive(&self) -> (d: Directive)
        ensures
            d@ == self@,
    {
        Directive::DefineTemplate(DefineTemplate)
    }

    fn handle(&self, evaluator: &mut Evaluator, args: &[Node]) -> (r: Result<String, EvalError>)
        ensures
            evaluated(
                old(evaluator)@,
                final(evaluator)@,
                run_define_template(
                    old(evaluator)@.world,
                    old(evaluator)@.env,
                    views(args@),
                    old(evaluator)@.depth,
                ),
                r,
            ),
        decreases old(evaluator).depth, 5nat,
    {
        proof {
            reveal(apply_def);
            lemma_views(args@);
            assert(apply_effects(evaluator@.side, Seq::empty()) == evaluator@.side);
        }
        if args.len() < 2 {
            return Err(EvalError::ArityError);
        }
        let ghost start = evaluator@;
        let ghost head = each(Pass::Value, start.world, start.env, views(args@), 2, start.depth);
        let mut named = match evaluate_each(evaluator, &Stage::Value, args, 2) {
            Ok(named) => named,
            Err(e) => {
                return Err(e);
            },
        };
        let ghost middle = evaluator@;
        let rest = slice_subrange(args, 2, args.len());
        proof {
            lemma_views_subrange(args@, 2, args@.len() as int);
            assert(views(args@).subrange(2, args@.len() as int) =~= views(args@).skip(2));
        }
        let ghost patterns = each(
            Pass::Pattern,
            start.world,
            head.env,
            views(args@).skip(2),
            (args@.len() - 2) as nat,
            start.depth,
        );
        let r = evaluate_each(evaluator, &Stage::Pattern, rest, args.len() - 2);
        proof {
            lemma_after_after(
                start,
                middle,
                evaluator@,
                head.env,
                head.effects,
                patterns.env,
                patterns.effects,
            );
        }
        let checkers = match r {
            Ok(checkers) => checkers,
            Err(e) => {
                return Err(e);
            },
        };
        let ghost texts = lines(named@);
        proof {
            lemma_each_len(Pass::Value, start.world, start.env, views(args@), 2, start.depth);
        }
        let template = named.pop().unwrap();
        let name = named.pop().unwrap();
        assert(name@ == texts[0] && template@ == texts[1]);
        evaluator.registry.insert(
            name,
            Rc::new(Directive::Template(Template::new(template, checkers))),
        );
        Ok(String::new())
    }
}

/// `definition-list`: a list of terms with their definitions.
///
/// Each argument is a group of a term and a body.
pub struct DefinitionList;

impl View for DefinitionList {
    type V = Behavior;

    open spec fn view(&self) -> Behavior {
        Behavior::DefinitionList
    }
}

impl DefinitionList {
    /// The entry `index` of the list.
    pub fn entry(evaluator: &mut Evaluator, args: &[Node], index: usize) -> (r: Result<
        String,
        EvalError,
    >)
        requires
            index < args@.len(),
        ensures
            evaluated(
                old(evaluator)@,
                final(evaluator)@,
                item(
                    Pass::Definition,
                    old(evaluator)@.world,
                    old(evaluator)@.env,
                    views(args@),
                    index as nat,
                    old(evaluator)@.depth,
                ),
                r,
            ),
        decreases old(evaluator).depth, 2nat,
    {
        proof {
            lemma_views(args@);
            assert(apply_effects(evaluator@.side, Seq::empty()) == evaluator@.side);
        }
        match &args[index].value {
            NodeValue::Owned(_) => Err(EvalError::ArityError),
            NodeValue::Children(children) => {
                proof {
                    lemma_views(children@);
                }
                if children.len() != 2 {
                    return Err(EvalError::ArityError);
                }
                let (term, body) = match evaluate_two(evaluator, &children[0], &children[1]) {
                    Ok(pair) => pair,
                    Err(e) => {
                        return Err(e);
                    },
                };
                let (html, _) = render(body.as_str());
                let mut out = String::new();
                out.append("<dt>");
                out.append(term.as_str());
                out.append("</dt><dd>");
                out.append(html.as_str());
                out.append("</dd>");
                assert(out@ =~= definition(term@, html@));
                Ok(out)
            },
        }
    }
}

impl DirectiveHandler for DefinitionList {
    open spec fn behavior(&self) -> Behavior {
        self@
    }

    fn directive(&self) -> (d: Directive)
        ensures
            d@ == self@,
    {
        Directive::DefinitionList(DefinitionList)
    }

    fn handle(&self, evaluator: &mut Evaluator, args: &[Node]) -> (r: Result<String, EvalError>)
        ensures
            evaluated(
                old(evaluator)@,
                final(evaluator)@,
                run_definition_list(
                    old(evaluator)@.world,
                    old(evaluator)@.env,
                    views(args@),
                    old(evaluator)@.depth,
                ),
                r,
            ),
        decreases old(evaluator).depth, 5nat,
    {
        proof {
            reveal(apply_def);
            lemma_views(args@);
        }
        match evaluate_each(evaluator, &Stage::Definition, args, args.len()) {
            Ok(texts) => Ok(concat_all(&texts)),
            Err(e) => Err(e),
        }
    }
}

/// The directory part of `path`.
pub fn directory(path: &str) -> (dir: String)
    ensures
        dir@ == dir_of(path@),
{
    let v = chars_of(path);
    let mut to: usize = v.len();
    assert(v@.take(v.len() as int) =~= v@);
    while to > 0 && v[to - 1] != '/'
        invariant
            to <= v.len(),
            dir_of(v@) == dir_of(v@.take(to as int)),
        decreases to,
    {
        assert(v@.take(to as int).drop_last() =~= v@.take(to - 1));
        to = to - 1;
    }
    assert(v@.take(to as int) =~= v@.subrange(0, to as int));
    string_of(v.as_slice(), 0, to)
}

/// The path that `path` names when it is written in the file `base`.
pub fn resolve_path(base: &str, path: &str) -> (full: String)
    ensures
        full@ == resolve(base@, path@),
{
    let v = chars_of(path);
    if v.len() > 0 && v[0] == '/' {
        path.to_owned()
    } else {
        let mut full = directory(base);
        full.append(path);
        full
    }
}

/// `include`: the text of another source file.
///
/// The argument names the file, from the directory of the file that holds
/// the call unless it begins with `/`. The file must have been parsed and
/// handed to the evaluator.
pub struct Include;

impl View for Include {
    type V = Behavior;

    open spec fn view(&self) -> Behavior {
        Behavior::Include
    }
}

impl DirectiveHandler for Include {
    open spec fn behavior(&self) -> Behavior {
        self@
    }

    fn directive(&self) -> (d: Directive)
        ensures
            d@ == self@,
    {
        Directive::Include(Include)
    }

    fn handle(&self, evaluator: &mut Evaluator, args: &[Node]) -> (r: Result<String, EvalError>)
        ensures
            evaluated(
                old(evaluator)@,
                final(evaluator)@,
                run_include(old(evaluator)@.world, old(evaluator)@.env, views(args@), old(evaluator)@.depth),
                r,
            ),
        decreases old(evaluator).depth, 5nat,
    {
        proof {
            reveal(apply_def);
            lemma_views(args@);
            assert(apply_effects(evaluator@.side, Seq::empty()) == evaluator@.side);
        }
        if args.len() != 1 {
            return Err(EvalError::ArityError);
        }
        let ghost start = evaluator@;
        let ghost named = eval(start.world, start.env, args@[0]@, start.depth);
        let path = match evaluator.evaluate(&args[0]) {
            Ok(path) => path,
            Err(e) => {
                return Err(e);
            },
        };
        let full = match args[0].file_id {
            Some(id) => if id < evaluator.files.len() {
                resolve_path(evaluator.files[id].as_str(), path.as_str())
            } else {
                resolve_path("", path.as_str())
            },
            None => resolve_path("", path.as_str()),
        };
        proof {
            reveal_strlit("");
            assert(""@ =~= Seq::<char>::empty());
        }
        let tree = match evaluator.sources.get(full.as_str()) {
            Some(tree) => share(tree),
            None => {
                return Err(EvalError::ParseError);
            },
        };
        let ghost middle = evaluator@;
        let ghost included = eval(start.world, named.env, tree@, start.depth);
        let r = evaluator.evaluate(&tree);
        proof {
            lemma_after_after(
                start,
                middle,
                evaluator@,
                named.env,
                named.effects,
                included.env,
                included.effects,
            );
        }
        r
    }
}

/// `import`: what `include` does, without its text.
pub struct Import;

impl View for Import {
    type V = Behavior;

    open spec fn view(&self) -> Behavior {
        Behavior::Import
    }
}

impl DirectiveHandler for Import {
    open spec fn behavior(&self) -> Behavior {
        self@
    }

    fn directive(&self) -> (d: Directive)
        ensures
            d@ == self@,
    {
        Directive::Import(Import)
    }

    fn handle(&self, evaluator: &mut Evaluator, args: &[Node]) -> (r: Result<String, EvalError>)
        ensures
            evaluated(
                old(evaluator)@,
                final(evaluator)@,
                run_import(old(evaluator)@.world, old(evaluator)@.env, views(args@), old(evaluator)@.depth),
                r,
            ),
        decreases old(evaluator).depth, 6nat,
    {
        proof {
            reveal(apply_def);
        }
        let inner = Include;
        match inner.handle(evaluator, args) {
            Ok(_) => Ok(String::new()),
            Err(e) => Err(e),
        }
    }
}

/// A variable that `let` has bound, with what was bound to it before.
pub struct SavedBinding {
    pub key: String,
    pub previous: Option<Rc<Node>>,
}

impl View for SavedBinding {
    type V = Saved;

    open spec fn view(&self) -> Saved {
        Saved {
            key: self.key@,
            previous: match self.previous {
                Some(node) => Some(node@),
                None => None,
            },
        }
    }
}

/// The mathematical values of a list of saved bindings.
pub open spec fn saved_views(saved: Seq<SavedBinding>) -> Seq<Saved> {
    Seq::new(saved.len(), |i: int| saved[i]@)
}

/// `let`: binds variables for the length of a call.
///
/// The first argument is a group of keys and values in turn. Each key and
/// each value is evaluated and the key is bound to the value's text. The
/// texts of the other arguments are the result. Then every variable that
/// was bound is put back to what it was, the last one first, whether or not
/// the call has failed.
pub struct Let;

impl View for Let {
    type V = Behavior;

    open spec fn view(&self) -> Behavior {
        Behavior::Let
    }
}

impl DirectiveHandler for Let {
    open spec fn behavior(&self) -> Behavior {
        self@
    }

    fn directive(&self) -> (d: Directive)
        ensures
            d@ == self@,
    {
        Directive::Let(Let)
    }

    fn handle(&self, evaluator: &mut Evaluator, args: &[Node]) -> (r: Result<String, EvalError>)
        ensures
            evaluated(
                old(evaluator)@,
                final(evaluator)@,
                run_let(old(evaluator)@.world, old(evaluator)@.env, views(args@), old(evaluator)@.depth),
                r,
            ),
        decreases old(evaluator).depth, 6nat,
    {
        proof {
            reveal(apply_def);
            lemma_views(args@);
        }
        if args.len() < 1 {
            return Err(EvalError::ArityError);
        }
        let children = match &args[0].value {
            NodeValue::Owned(_) => {
                return Err(EvalError::ArityError);
            },
            NodeValue::Children(children) => children,
        };
        proof {
            lemma_views(children@);
        }
        if children.len() % 2 != 0 {
            return Err(EvalError::ArityError);
        }
        let pairs = children.len() / 2;
        let ghost start = evaluator@;
        let ghost trees = views(children@);
        let mut saved: Vec<SavedBinding> = Vec::new();
        let mut failure: Option<EvalError> = None;
        let mut i: usize = 0;
        proof {
            assert(saved_views(saved@) =~= Seq::<Saved>::empty());
            assert(apply_effects(start.side, Seq::empty()) == start.side);
        }
        while i < pairs && failure.is_none()
            invariant
                i <= pairs,
                2 * pairs == children.len(),
                start == old(evaluator)@,
                trees == views(children@),
                trees.len() == children.len(),
                forall|k: int| 0 <= k < children.len() ==> trees[k] == children@[k]@,
                ({
                    let sofar = bind(start.world, start.env, trees, i as nat, start.depth);
                    &&& after(start, evaluator@, sofar.env, sofar.effects)
                    &&& sofar.saved == saved_views(saved@)
                    &&& sofar.failure == failure
                }),
            decreases pairs - i,
        {
            let ghost before = evaluator@;
            let ghost sofar = bind(start.world, start.env, trees, i as nat, start.depth);
            let ghost both = eval_two(
                start.world,
                sofar.env,
                trees[2 * i],
                trees[2 * i + 1],
                start.depth,
            );
            let r = evaluate_two(evaluator, &children[2 * i], &children[2 * i + 1]);
            proof {
                lemma_after_after(
                    start,
                    before,
                    evaluator@,
                    sofar.env,
                    sofar.effects,
                    both.env,
                    both.effects,
                );
            }
            match r {
                Err(e) => {
                    failure = Some(e);
                },
                Ok(pair) => {
                    let ghost done = saved_views(saved@);
                    let value = Node::new_string(pair.1.as_str());
                    let key = pair.0;
                    let previous = evaluator.ctx.insert(key.clone(), Rc::new(value));
                    saved.push(SavedBinding { key, previous });
                    assert(saved_views(saved@) =~= done.push(
                        Saved { key: pair.0@, previous: bound(both.env.ctx, pair.0@) },
                    ));
                },
            }
            i = i + 1;
        }
        let ghost bindings = bind(start.world, start.env, trees, pairs as nat, start.depth);
        proof {
            if failure.is_some() {
                lemma_bind_failed(
                    start.world,
                    start.env,
                    trees,
                    i as nat,
                    pairs as nat,
                    start.depth,
                );
            }
        }
        let ghost bound_state = evaluator@;
        let rest = slice_subrange(args, 1, args.len());
        proof {
            lemma_views_subrange(args@, 1, args@.len() as int);
        }
        let ghost body = run_concat(
            start.world,
            bindings.env,
            views(args@).drop_first(),
            start.depth,
        );
        let result = match failure {
            Some(e) => Err(e),
            None => {
                let concat = Concat;
                let r = concat.handle(evaluator, rest);
                proof {
                    lemma_after_after(
                        start,
                        bound_state,
                        evaluator@,
                        bindings.env,
                        bindings.effects,
                        body.env,
                        body.effects,
                    );
                }
                r
            },
        };
        let ghost reached = evaluator@;
        let ghost all = saved_views(saved@);
        while saved.len() > 0
            invariant
                evaluator@.world == reached.world,
                evaluator@.side == reached.side,
                evaluator@.depth == reached.depth,
                evaluator@.env.registry == reached.env.registry,
                restore(evaluator@.env.ctx, saved_views(saved@)) == restore(reached.env.ctx, all),
            decreases saved.len(),
        {
            let ghost left = saved_views(saved@);
            let binding = saved.pop().unwrap();
            assert(saved_views(saved@) =~= left.drop_last());
            assert(left.last() == binding@);
            match binding.previous {
                Some(node) => {
                    evaluator.ctx.insert(binding.key, node);
                },
                None => {
                    evaluator.ctx.remove(binding.key.as_str());
                },
            }
        }
        assert(saved_views(saved@) =~= Seq::<Saved>::empty());
        result
    }
}

/// `define`: binds a variable for the rest of the page.
///
/// With a key and a value, the value is kept as it is written and
/// evaluated each time the variable is read. With the word `evaluate`, a
/// key and a value, the value is evaluated now and its text is kept.
pub struct Define;

impl View for Define {
    type V = Behavior;

    open spec fn view(&self) -> Behavior {
        Behavior::Define
    }
}

impl DirectiveHandler for Define {
    open spec fn behavior(&self) -> Behavior {
        self@
    }

    fn directive(&self) -> (d: Directive)
        ensures
            d@ == self@,
    {
        Directive::Define(Define)
    }

    fn handle(&self, evaluator: &mut Evaluator, args: &[Node]) -> (r: Result<String, EvalError>)
        ensures
            evaluated(
                old(evaluator)@,
                final(evaluator)@,
                run_define(old(evaluator)@.world, old(evaluator)@.env, views(args@), old(evaluator)@.depth),
                r,
            ),
        decreases old(evaluator).depth, 5nat,
    {
        proof {
            reveal(apply_def);
            lemma_views(args@);
            assert(apply_effects(evaluator@.side, Seq::empty()) == evaluator@.side);
        }
        if args.len() == 2 {
            let key = match evaluator.evaluate(&args[0]) {
                Ok(key) => key,
                Err(e) => {
                    return Err(e);
                },
            };
            evaluator.ctx.insert(key, Rc::new(args[1].duplicate()));
            Ok(String::new())
        } else if args.len() == 3 {
            let ghost start = evaluator@;
            let ghost word = eval(start.world, start.env, args@[0]@, start.depth);
            let first = match evaluator.evaluate(&args[0]) {
                Ok(first) => first,
                Err(e) => {
                    return Err(e);
                },
            };
            if !same_text(first.as_str(), "evaluate") {
                return Err(EvalError::ArityError);
            }
            let ghost middle = evaluator@;
            let ghost both = eval_two(start.world, word.env, args@[1]@, args@[2]@, start.depth);
            let r = evaluate_two(evaluator, &args[1], &args[2]);
            proof {
                lemma_after_after(
                    start,
                    middle,
                    evaluator@,
                    word.env,
                    word.effects,
                    both.env,
                    both.effects,
                );
            }
            let (key, value) = match r {
                Ok(pair) => pair,
                Err(e) => {
                    return Err(e);
                },
            };
            evaluator.ctx.insert(
                key,
                Rc::new(Node::new(NodeValue::Owned(value), args[2].file_id)),
            );
            Ok(String::new())
        } else {
            Err(EvalError::ArityError)
        }
    }
}

/// `theme-config`: sets values of the page's theme configuration.
///
/// The arguments are keys and values in turn.
pub struct ThemeConfig;

impl View for ThemeConfig {
    type V = Behavior;

    open spec fn view(&self) -> Behavior {
        Behavior::ThemeConfig
    }
}

impl ThemeConfig {
    /// Evaluates `key` and `value` and gives the key the value.
    fn set(evaluator: &mut Evaluator, key: &Node, value: &Node) -> (r: Result<String, EvalError>)
        ensures
            evaluated(
                old(evaluator)@,
                final(evaluator)@,
                theme_pair(
                    old(evaluator)@.world,
                    old(evaluator)@.env,
                    key@,
                    value@,
                    old(evaluator)@.depth,
                ),
                r,
            ),
        decreases old(evaluator).depth, 2nat, 0nat,
    {
        let ghost start = evaluator@;
        let ghost both = eval_two(start.world, start.env, key@, value@, start.depth);
        let (name, text) = match evaluate_two(evaluator, key, value) {
            Ok(pair) => pair,
            Err(e) => {
                return Err(e);
            },
        };
        proof {
            lemma_effects_push(
                start.side,
                both.effects,
                Effect::SetTheme { key: name@, value: text@ },
            );
        }
        evaluator.theme_config.insert(name, text);
        Ok(String::new())
    }

    /// The pair `index`: the key and the value are evaluated, and the key
    /// gets the value.
    pub fn pair(evaluator: &mut Evaluator, args: &[Node], index: usize) -> (r: Result<
        String,
        EvalError,
    >)
        requires
            2 * (index + 1) <= args@.len(),
        ensures
            evaluated(
                old(evaluator)@,
                final(evaluator)@,
                item(
                    Pass::ThemePair,
                    old(evaluator)@.world,
                    old(evaluator)@.env,
                    views(args@),
                    index as nat,
                    old(evaluator)@.depth,
                ),
                r,
            ),
        decreases old(evaluator).depth, 2nat, 1nat,
    {
        proof {
            lemma_views(args@);
        }
        let len: usize = args.len();
        assert(2 * index + 1 < len);
        let key: usize = 2 * index;
        ThemeConfig::set(evaluator, &args[key], &args[key + 1])
    }
}

impl DirectiveHandler for ThemeConfig {
    open spec fn behavior(&self) -> Behavior {
        self@
    }

    fn directive(&self) -> (d: Directive)
        ensures
            d@ == self@,
    {
        Directive::ThemeConfig(ThemeConfig)
    }

    fn handle(&self, evaluator: &mut Evaluator, args: &[Node]) -> (r: Result<String, EvalError>)
        ensures
            evaluated(
                old(evaluator)@,
                final(evaluator)@,
                run_theme_config(
                    old(evaluator)@.world,
                    old(evaluator)@.env,
                    views(args@),
                    old(evaluator)@.depth,
                ),
                r,
            ),
        decreases old(evaluator).depth, 5nat,
    {
        proof {
            reveal(apply_def);
            lemma_views(args@);
            assert(apply_effects(evaluator@.side, Seq::empty()) == evaluator@.side);
        }
        if args.len() % 2 != 0 {
            return Err(EvalError::ArityError);
        }
        match evaluate_each(evaluator, &Stage::ThemePair, args, args.len() / 2) {
            Ok(_) => Ok(String::new()),
            Err(e) => Err(e),
        }
    }
}

/// `toctree`: the pages that the current page lists in the table of
/// contents.
///
/// Each argument is the slug of a page, or a group of a title and a slug.
/// The entries are added in order; where an argument fails, those before it
/// stay.
pub struct TocTree;

impl View for TocTree {
    type V = Behavior;

    open spec fn view(&self) -> Behavior {
        Behavior::TocTree
    }
}

impl TocTree {
    /// The entry `index`.
    pub fn entry(evaluator: &mut Evaluator, args: &[Node], index: usize) -> (r: Result<
        String,
        EvalError,
    >)
        requires
            index < args@.len(),
        ensures
            evaluated(
                old(evaluator)@,
                final(evaluator)@,
                item(
                    Pass::TocEntry,
                    old(evaluator)@.world,
                    old(evaluator)@.env,
                    views(args@),
                    index as nat,
                    old(evaluator)@.depth,
                ),
                r,
            ),
        decreases old(evaluator).depth, 2nat,
    {
        proof {
            lemma_views(args@);
            assert(apply_effects(evaluator@.side, Seq::empty()) == evaluator@.side);
        }
        let ghost start = evaluator@;
        match &args[index].value {
            NodeValue::Owned(slug) => {
                proof {
                    lemma_effects_push(
                        start.side,
                        Seq::empty(),
                        Effect::TocAdd { child: slug@, label: None },
                    );
                }
                let parent = evaluator.slug.clone();
                evaluator.toctree.add(&parent, Slug::new(slug.clone()), None);
                Ok(String::new())
            },
            NodeValue::Children(children) => {
                proof {
                    lemma_views(children@);
                }
                if children.len() != 2 {
                    return Err(EvalError::ArityError);
                }
                let ghost both = eval_two(
                    start.world,
                    start.env,
                    children@[0]@,
                    children@[1]@,
                    start.depth,
                );
                let (title, slug) = match evaluate_two(evaluator, &children[0], &children[1]) {
                    Ok(pair) => pair,
                    Err(e) => {
                        return Err(e);
                    },
                };
                proof {
                    lemma_effects_push(
                        start.side,
                        both.effects,
                        Effect::TocAdd { child: slug@, label: Some(title@) },
                    );
                }
                let parent = evaluator.slug.clone();
                evaluator.toctree.add(&parent, Slug::new(slug), Some(title));
                Ok(String::new())
            },
        }
    }
}

impl DirectiveHandler for TocTree {
    open spec fn behavior(&self) -> Behavior {
        self@
    }

    fn directive(&self) -> (d: Directive)
        ensures
            d@ == self@,
    {
        Directive::TocTree(TocTree)
    }

    fn handle(&self, evaluator: &mut Evaluator, args: &[Node]) -> (r: Result<String, EvalError>)
        ensures
            evaluated(
                old(evaluator)@,
                final(evaluator)@,
                run_toctree(old(evaluator)@.world, old(evaluator)@.env, views(args@), old(evaluator)@.depth),
                r,
            ),
        decreases old(evaluator).depth, 5nat,
    {
        proof {
            reveal(apply_def);
            lemma_views(args@);
        }
        match evaluate_each(evaluator, &Stage::TocEntry, args, args.len()) {
            Ok(_) => Ok(String::new()),
            Err(e) => Err(e),
        }
    }
}

/// A heading of one of the six levels.
///
/// With one argument, the argument is the title. With two, the first is the
/// id of a reference, which the heading defines, and the second the title.
pub struct Heading {
    level: u8,
}

impl View for Heading {
    type V = Behavior;

    closed spec fn view(&self) -> Behavior {
        Behavior::Heading { level: self.level as nat }
    }
}

impl Heading {
    /// The heading of the level `level`.
    pub fn new(level: u8) -> (h: Heading)
        requires
            1 <= level <= 6,
        ensures
            h@ == (Behavior::Heading { level: level as nat }),
    {
        Heading { level }
    }

    /// The heading with the title `title`, in Markdown.
    fn render(&self, title: &str) -> (out: String)
        ensures
            out@ == heading(self.level as nat, title@),
    {
        let mut out = String::new();
        out.push('\n');
        let mut i: u8 = 0;
        while i < self.level
            invariant
                i <= self.level,
                out@ == seq!['\n'] + hashes(i as nat),
            decreases self.level - i,
        {
            out.push('#');
            assert(out@ =~= seq!['\n'] + hashes((i + 1) as nat));
            i = i + 1;
        }
        out.push(' ');
        out.append(title);
        out.push('\n');
        assert(out@ =~= heading(self.level as nat, title@));
        out
    }
}

impl DirectiveHandler for Heading {
    open spec fn behavior(&self) -> Behavior {
        self@
    }

    fn directive(&self) -> (d: Directive)
        ensures
            d@ == self@,
    {
        Directive::Heading(Heading { level: self.level })
    }

    fn handle(&self, evaluator: &mut Evaluator, args: &[Node]) -> (r: Result<String, EvalError>)
        ensures
            evaluated(
                old(evaluator)@,
                final(evaluator)@,
                run_heading(
                    self@->level,
                    old(evaluator)@.world,
                    old(evaluator)@.env,
                    views(args@),
                    old(evaluator)@.depth,
                ),
                r,
            ),
        decreases old(evaluator).depth, 5nat,
    {
        proof {
            reveal(apply_def);
            lemma_views(args@);
            assert(apply_effects(evaluator@.side, Seq::empty()) == evaluator@.side);
        }
        if args.len() != 1 && args.len() != 2 {
            return Err(EvalError::ArityError);
        }
        let ghost start = evaluator@;
        let ghost first = eval(start.world, start.env, args@[0]@, start.depth);
        let arg1 = match consume_string(args, 0, evaluator) {
            Ok(Some(text)) => text,
            Ok(None) => {
                return Err(EvalError::ArityError);
            },
            Err(e) => {
                return Err(e);
            },
        };
        let ghost middle = evaluator@;
        let r = consume_string(args, 1, evaluator);
        proof {
            if args.len() == 2 {
                let second = eval(start.world, first.env, args@[1]@, start.depth);
                lemma_after_after(
                    start,
                    middle,
                    evaluator@,
                    first.env,
                    first.effects,
                    second.env,
                    second.effects,
                );
            }
        }
        match r {
            Err(e) => Err(e),
            Ok(None) => Ok(self.render(arg1.as_str())),
            Ok(Some(title)) => {
                proof {
                    let both = eval_two(start.world, start.env, args@[0]@, args@[1]@, start.depth);
                    lemma_effects_push(
                        start.side,
                        both.effects,
                        Effect::DefineRef { id: arg1@, title: title@ },
                    );
                }
                let refdef = RefDef::new(title.as_str(), evaluator.get_slug());
                evaluator.refdefs.insert(arg1, refdef);
                Ok(self.render(title.as_str()))
            },
        }
    }
}

/// `define-ref`: defines a reference to the current page.
///
/// The arguments are the id of the reference and its title.
pub struct RefDefDirective;

impl View for RefDefDirective {
    type V = Behavior;

    open spec fn view(&self) -> Behavior {
        Behavior::RefDef
    }
}

impl DirectiveHandler for RefDefDirective {
    open spec fn behavior(&self) -> Behavior {
        self@
    }

    fn directive(&self) -> (d: Directive)
        ensures
            d@ == self@,
    {
        Directive::RefDef(RefDefDirective)
    }

    fn handle(&self, evaluator: &mut Evaluator, args: &[Node]) -> (r: Result<String, EvalError>)
        ensures
            evaluated(
                old(evaluator)@,
                final(evaluator)@,
                run_refdef(old(evaluator)@.world, old(evaluator)@.env, views(args@), old(evaluator)@.depth),
                r,
            ),
        decreases old(evaluator).depth, 5nat,
    {
        proof {
            reveal(apply_def);
            lemma_views(args@);
            assert(apply_effects(evaluator@.side, Seq::empty()) == evaluator@.side);
        }
        if args.len() != 2 {
            return Err(EvalError::ArityError);
        }
        let ghost start = evaluator@;
        let ghost both = eval_two(start.world, start.env, args@[0]@, args@[1]@, start.depth);
        let (id, title) = match evaluate_two(evaluator, &args[0], &args[1]) {
            Ok(pair) => pair,
            Err(e) => {
                return Err(e);
            },
        };
        proof {
            lemma_effects_push(
                start.side,
                both.effects,
                Effect::DefineRef { id: id@, title: title@ },
            );
        }
        let refdef = RefDef::new(title.as_str(), evaluator.get_slug());
        evaluator.refdefs.insert(id, refdef);
        Ok(String::new())
    }
}

/// `ref`: a link to a reference.
///
/// The first argument is the id of the reference, the second, where there
/// is one, the text of the link. What is not known before every page has
/// been evaluated is written as a placeholder.
pub struct RefDirective;

impl View for RefDirective {
    type V = Behavior;

    open spec fn view(&self) -> Behavior {
        Behavior::Ref
    }
}

impl DirectiveHandler for RefDirective {
    open spec fn behavior(&self) -> Behavior {
        self@
    }

    fn directive(&self) -> (d: Directive)
        ensures
            d@ == self@,
    {
        Directive::Ref(RefDirective)
    }

    fn handle(&self, evaluator: &mut Evaluator, args: &[Node]) -> (r: Result<String, EvalError>)
        ensures
            evaluated(
                old(evaluator)@,
                final(evaluator)@,
                run_ref(old(evaluator)@.world, old(evaluator)@.env, views(args@), old(evaluator)@.depth),
                r,
            ),
        decreases old(evaluator).depth, 5nat,
    {
        proof {
            reveal(apply_def);
            lemma_views(args@);
            assert(apply_effects(evaluator@.side, Seq::empty()) == evaluator@.side);
        }
        let ghost start = evaluator@;
        let refid = match consume_string(args, 0, evaluator) {
            Ok(Some(text)) => text,
            Ok(None) => {
                return Err(EvalError::ArityError);
            },
            Err(e) => {
                return Err(e);
            },
        };
        let ghost first = eval(start.world, start.env, args@[0]@, start.depth);
        let ghost middle = evaluator@;
        let r = consume_string(args, 1, evaluator);
        proof {
            if args.len() >= 2 {
                let second = eval(start.world, first.env, args@[1]@, start.depth);
                lemma_after_after(
                    start,
                    middle,
                    evaluator@,
                    first.env,
                    first.effects,
                    second.env,
                    second.effects,
                );
            }
        }
        let title = match r {
            Ok(Some(title)) => title,
            Ok(None) => evaluator.get_placeholder(refid.as_str(), PlaceholderAction::Title),
            Err(e) => {
                return Err(e);
            },
        };
        let path = evaluator.get_placeholder(refid.as_str(), PlaceholderAction::Path);
        let mut out = String::new();
        out.push('[');
        out.append(title.as_str());
        out.push(']');
        out.push('(');
        out.append(path.as_str());
        out.push(')');
        assert(out@ =~= link(title@, path@));
        Ok(out)
    }
}



/// `steps`: a numbered list of steps.
///
/// Each argument is a group of three nodes, of which the second is the
/// title of the step and the third its body, or literal text that names a
/// variable bound to such a group.
pub struct Steps;

impl View for Steps {
    type V = Behavior;

    open spec fn view(&self) -> Behavior {
        Behavior::Steps
    }
}

impl Steps {
    /// The step `index`, from the children of its group.
    fn parts(evaluator: &mut Evaluator, children: &[Node], index: usize) -> (r: Result<
        String,
        EvalError,
    >)
        requires
            index < usize::MAX,
        ensures
            evaluated(
                old(evaluator)@,
                final(evaluator)@,
                step_parts(
                    old(evaluator)@.world,
                    old(evaluator)@.env,
                    views(children@),
                    index as nat,
                    old(evaluator)@.depth,
                ),
                r,
            ),
        decreases old(evaluator).depth, 2nat, 0nat,
    {
        proof {
            lemma_views(children@);
            assert(apply_effects(evaluator@.side, Seq::empty()) == evaluator@.side);
        }
        if children.len() != 3 {
            return Err(EvalError::ArityError);
        }
        let ghost start = evaluator@;
        let ghost both = eval_two(
            start.world,
            start.env,
            views(children@)[1],
            views(children@)[2],
            start.depth,
        );
        let (raw_title, raw_body) = match evaluate_two(evaluator, &children[1], &children[2]) {
            Ok(pair) => pair,
            Err(e) => {
                return Err(e);
            },
        };
        let ghost evaluated_both = evaluator@;
        let title = render_into(evaluator, raw_title.as_str());
        let ghost titled = evaluator@;
        let body = render_into(evaluator, raw_body.as_str());
        proof {
            lemma_after_after(
                start,
                evaluated_both,
                titled,
                both.env,
                both.effects,
                both.env,
                rendering_effects(raw_title@),
            );
            lemma_after_after(
                start,
                titled,
                evaluator@,
                both.env,
                both.effects + rendering_effects(raw_title@),
                both.env,
                rendering_effects(raw_body@),
            );
        }
        let mut out = String::new();
        out.append(
            "<div class=\"steps__step\"><div class=\"steps__bullet\"><div class=\"steps__stepnumber\">",
        );
        out.append(decimal_text((index + 1) as u64).as_str());
        out.append("</div></div>");
        out.append("<h4>");
        out.append(title.as_str());
        out.append("</h4><div>");
        out.append(body.as_str());
        out.append("</div></div>");
        assert(out@ =~= step_box((index + 1) as nat, title@, body@));
        Ok(out)
    }

    /// The step `index` of `args`.
    pub fn step(evaluator: &mut Evaluator, args: &[Node], index: usize) -> (r: Result<
        String,
        EvalError,
    >)
        requires
            index < args@.len(),
        ensures
            evaluated(
                old(evaluator)@,
                final(evaluator)@,
                item(
                    Pass::Step,
                    old(evaluator)@.world,
                    old(evaluator)@.env,
                    views(args@),
                    index as nat,
                    old(evaluator)@.depth,
                ),
                r,
            ),
        decreases old(evaluator).depth, 2nat, 1nat,
    {
        proof {
            lemma_views(args@);
            assert(apply_effects(evaluator@.side, Seq::empty()) == evaluator@.side);
        }
        match &args[index].value {
            NodeValue::Owned(name) => {
                let stored = match evaluator.ctx.get(name.as_str()) {
                    Some(node) => share(node),
                    None => {
                        return Err(EvalError::UndefinedVariable);
                    },
                };
                match &stored.value {
                    NodeValue::Owned(_) => Err(EvalError::ArityError),
                    NodeValue::Children(children) => Steps::parts(
                        evaluator,
                        children.as_slice(),
                        index,
                    ),
                }
            },
            NodeValue::Children(children) => Steps::parts(evaluator, children.as_slice(), index),
        }
    }
}

impl DirectiveHandler for Steps {
    open spec fn behavior(&self) -> Behavior {
        self@
    }

    fn directive(&self) -> (d: Directive)
        ensures
            d@ == self@,
    {
        Directive::Steps(Steps)
    }

    fn handle(&self, evaluator: &mut Evaluator, args: &[Node]) -> (r: Result<String, EvalError>)
        ensures
            evaluated(
                old(evaluator)@,
                final(evaluator)@,
                run_steps(old(evaluator)@.world, old(evaluator)@.env, views(args@), old(evaluator)@.depth),
                r,
            ),
        decreases old(evaluator).depth, 5nat,
    {
        proof {
            reveal(apply_def);
            lemma_views(args@);
        }
        match evaluate_each(evaluator, &Stage::Step, args, args.len()) {
            Ok(texts) => {
                let mut out = String::new();
                out.append("<div class=\"steps\">");
                out.append(concat_all(&texts).as_str());
                out.append("</div>");
                assert(out@ =~= "<div class=\"steps\">"@ + concat(lines(texts@)) + "</div>"@);
                Ok(out)
            },
            Err(e) => Err(e),
        }
    }
}

} // verus!

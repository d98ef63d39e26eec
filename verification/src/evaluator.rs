//! The evaluator: the state of a project's build and the two passes over
//! its pages.
//!
//! The first pass evaluates the tree of each page into a body, which may
//! hold placeholders for references, and records what the page defines.
//! The second pass, once every page has been evaluated, replaces the
//! placeholders in a page's body.

use crate::directives::{Directive, DirectiveHandler};
use crate::error::{text_result, EvalError};
use crate::model::{
    apply_effect, apply_effects, eval, eval_def, lookup, Effect, Env, Outcome, Side, World,
};
use crate::node::{lemma_views, lemma_views_subrange, Node, NodeValue};
use crate::page::{lemma_normalize_empty, Page, RefDef, Slug};
use crate::placeholder::{make_token, substitute_text, substituted, token, PlaceholderAction};
use crate::strmap::StrMap;
use crate::text::{decimal, decimal_text, lines};
use crate::toctree::TocTree;
use std::rc::Rc;
use vstd::prelude::*;
use vstd::slice::slice_subrange;

verus! {

/// How deep calls may be nested unless the limit is set otherwise.
pub const DEFAULT_DEPTH: usize = 128;

/// The state of a build.
pub struct Evaluator {
    /// The variables that `define` and `let` have bound on this page.
    pub ctx: StrMap<Rc<Node>>,
    /// The references that the pages evaluated so far define.
    pub refdefs: StrMap<RefDef>,
    /// The theme configuration of the page that is being evaluated.
    pub theme_config: StrMap<String>,
    /// The table of contents of the project.
    pub toctree: TocTree,
    /// The directives, by name.
    pub registry: StrMap<Rc<Directive>>,
    /// The trees of the source files that have been parsed, by path.
    pub sources: StrMap<Rc<Node>>,
    /// The paths of the source files, by file number.
    pub files: Vec<String>,
    /// The slug of the page that is being evaluated.
    pub slug: Slug,
    /// The marker with which this evaluator's placeholder tokens begin.
    pub marker: String,
    /// How many nested calls are still allowed.
    pub depth: usize,
}

/// The mathematical value of an [`Evaluator`].
#[verifier::ext_equal]
pub ghost struct State {
    pub world: World,
    pub env: Env,
    pub side: Side,
    pub depth: nat,
}

impl View for Evaluator {
    type V = State;

    open spec fn view(&self) -> State {
        State {
            world: World {
                sources: self.sources@,
                files: lines(self.files@),
                marker: self.marker@,
            },
            env: Env { registry: self.registry@, ctx: self.ctx@ },
            side: Side {
                refdefs: self.refdefs@,
                theme: self.theme_config@,
                toc: self.toctree@,
                slug: self.slug@,
            },
            depth: self.depth as nat,
        }
    }
}

impl State {
    /// The state after an evaluation with the outcome `outcome`.
    pub open spec fn advanced(self, outcome: Outcome) -> State {
        State {
            env: outcome.env,
            side: apply_effects(self.side, outcome.effects),
            ..self
        }
    }

    /// The state after a reset: without variables and without theme
    /// configuration.
    pub open spec fn cleared(self) -> State {
        State {
            env: Env { ctx: Map::empty(), ..self.env },
            side: Side { theme: Map::empty(), ..self.side },
            ..self
        }
    }
}

/// `post` is `pre` after an evaluation that left the environment `env` and
/// had the effects `effects`.
pub open spec fn after(pre: State, post: State, env: Env, effects: Seq<Effect>) -> bool {
    &&& post.world =~= pre.world
    &&& post.env =~= env
    &&& post.side =~= apply_effects(pre.side, effects)
    &&& post.depth == pre.depth
}

/// `post` and `r` are what the evaluation `outcome` makes of `pre`.
pub open spec fn evaluated(
    pre: State,
    post: State,
    outcome: Outcome,
    r: Result<String, EvalError>,
) -> bool {
    after(pre, post, outcome.env, outcome.effects) && text_result(r) == outcome.result
}

/// Effects in a row are applied one after the other.
pub proof fn lemma_effects_add(side: Side, a: Seq<Effect>, b: Seq<Effect>)
    ensures
        apply_effects(side, a + b) == apply_effects(apply_effects(side, a), b),
    decreases b.len(),
{
    if b.len() == 0 {
        assert(a + b =~= a);
    } else {
        lemma_effects_add(side, a, b.drop_last());
        assert((a + b).drop_last() =~= a + b.drop_last());
    }
}

/// One more effect is applied to the state after the others.
pub proof fn lemma_effects_push(side: Side, effects: Seq<Effect>, effect: Effect)
    ensures
        apply_effects(side, effects.push(effect)) == apply_effect(
            apply_effects(side, effects),
            effect,
        ),
{
    assert(effects.push(effect).drop_last() =~= effects);
}

/// Two evaluations in a row are one evaluation with the effects of both.
pub proof fn lemma_after_after(
    a: State,
    b: State,
    c: State,
    env1: Env,
    effects1: Seq<Effect>,
    env2: Env,
    effects2: Seq<Effect>,
)
    requires
        after(a, b, env1, effects1),
        after(b, c, env2, effects2),
    ensures
        after(a, c, env2, effects1 + effects2),
{
    lemma_effects_add(a.side, effects1, effects2);
}

/// The marker of the evaluator that was made with the number `prefix`.
pub open spec fn marker_of(prefix: u64) -> Seq<char> {
    "rk"@ + decimal(prefix as nat)
}

/// Asks `rand::random` for a number. It differs from run to run, so nothing
/// is said of it.
#[verifier::external_body]
fn random_prefix() -> u64 {
    rand::random::<u64>()
}

/// A second handle on a shared value, from `Rc::clone`: it points to the
/// same value.
#[verifier::external_body]
pub(crate) fn share<T>(value: &Rc<T>) -> (copy: Rc<T>)
    ensures
        copy == *value,
{
    Rc::clone(value)
}

impl Evaluator {
    /// An evaluator without directives, variables, references or sources,
    /// whose placeholder tokens begin with a marker made from a random
    /// number.
    pub fn new() -> (evaluator: Evaluator)
        ensures
            exists|prefix: u64| evaluator@ == Evaluator::fresh(prefix),
    {
        let prefix = random_prefix();
        Evaluator::with_prefix(prefix)
    }

    /// The value of the evaluator that `with_prefix` gives.
    pub open spec fn fresh(prefix: u64) -> State {
        State {
            world: World {
                sources: Map::empty(),
                files: Seq::empty(),
                marker: marker_of(prefix),
            },
            env: Env { registry: Map::empty(), ctx: Map::empty() },
            side: Side {
                refdefs: Map::empty(),
                theme: Map::empty(),
                toc: Seq::empty(),
                slug: Seq::empty(),
            },
            depth: DEFAULT_DEPTH as nat,
        }
    }

    /// An evaluator without directives, variables, references or sources,
    /// whose placeholder tokens begin with the marker made from `prefix`.
    pub fn with_prefix(prefix: u64) -> (evaluator: Evaluator)
        ensures
            evaluator@ == Evaluator::fresh(prefix),
    {
        let mut marker = "rk".to_owned();
        marker.append(decimal_text(prefix).as_str());
        let slug = Slug::new(String::new());
        proof {
            lemma_normalize_empty();
        }
        let evaluator = Evaluator {
            ctx: StrMap::new(),
            refdefs: StrMap::new(),
            theme_config: StrMap::new(),
            toctree: TocTree::new_empty(),
            registry: StrMap::new(),
            sources: StrMap::new(),
            files: Vec::new(),
            slug,
            marker,
            depth: DEFAULT_DEPTH,
        };
        assert(evaluator@ =~= Evaluator::fresh(prefix));
        evaluator
    }

    /// Sets how deep calls may be nested from here on.
    pub fn set_depth(&mut self, depth: usize)
        ensures
            final(self)@ == (State { depth: depth as nat, ..old(self)@ }),
    {
        self.depth = depth;
    }

    /// Installs the directive `handler` under `name`, in the place of the
    /// one that had the name.
    pub fn register<H: DirectiveHandler>(&mut self, name: &str, handler: Box<H>)
        ensures
            final(self)@ == (State {
                env: Env {
                    registry: old(self)@.env.registry.insert(name@, handler.behavior()),
                    ..old(self)@.env
                },
                ..old(self)@
            }),
    {
        let directive = handler.directive();
        self.registry.insert(name.to_owned(), Rc::new(directive));
        assert(self@ =~= (State {
            env: Env {
                registry: old(self)@.env.registry.insert(name@, handler.behavior()),
                ..old(self)@.env
            },
            ..old(self)@
        }));
    }

    /// The slug of the page that is being evaluated.
    pub fn get_slug(&self) -> (slug: &Slug)
        ensures
            slug@ == self@.side.slug,
    {
        &self.slug
    }

    /// Names the page that is evaluated from here on.
    pub fn set_slug(&mut self, slug: Slug)
        ensures
            final(self)@ == (State { side: Side { slug: slug@, ..old(self)@.side }, ..old(self)@ }),
    {
        self.slug = slug;
        assert(self@ =~= (State { side: Side { slug: slug@, ..old(self)@.side }, ..old(self)@ }));
    }

    /// Forgets what belongs to the page that was evaluated: the variables
    /// and the theme configuration. The directives, the references, the
    /// table of contents and the sources stay.
    pub fn reset(&mut self)
        ensures
            final(self)@ == old(self)@.cleared(),
    {
        self.ctx.clear();
        self.theme_config.clear();
        assert(self@ =~= old(self)@.cleared());
    }

    /// Gives the source file `path` a number, with which the nodes read
    /// from it are marked.
    pub fn add_file(&mut self, path: &str) -> (id: usize)
        ensures
            id == old(self)@.world.files.len(),
            final(self)@ == (State {
                world: World { files: old(self)@.world.files.push(path@), ..old(self)@.world },
                ..old(self)@
            }),
    {
        let id = self.files.len();
        self.files.push(path.to_owned());
        assert(lines(self.files@) =~= lines(old(self).files@).push(path@));
        assert(self@ =~= (State {
            world: World { files: old(self)@.world.files.push(path@), ..old(self)@.world },
            ..old(self)@
        }));
        id
    }

    /// Records the tree that the source file `path` was parsed into, for
    /// `include` and `import` to find.
    pub fn add_source(&mut self, path: &str, tree: Node)
        ensures
            final(self)@ == (State {
                world: World {
                    sources: old(self)@.world.sources.insert(path@, tree@),
                    ..old(self)@.world
                },
                ..old(self)@
            }),
    {
        self.sources.insert(path.to_owned(), Rc::new(tree));
        assert(self@ =~= (State {
            world: World {
                sources: old(self)@.world.sources.insert(path@, tree@),
                ..old(self)@.world
            },
            ..old(self)@
        }));
    }

    /// The token that stands for the field `action` of the reference `id`
    /// until the pages are linked. The reference need not be defined yet.
    pub fn get_placeholder(&self, id: &str, action: PlaceholderAction) -> (text: String)
        ensures
            text@ == token(self@.world.marker, action, id@),
    {
        make_token(self.marker.as_str(), action, id)
    }

    /// The body of `page` with every placeholder replaced by the field of
    /// the reference it stands for. Fails with `UndefinedReference` where a
    /// placeholder names a reference that no page has defined.
    pub fn substitute(&self, page: &Page) -> (r: Result<String, EvalError>)
        ensures
            text_result(r) == substituted(self@.world.marker, self@.side.refdefs, page.body@),
    {
        substitute_text(self.marker.as_str(), &self.refdefs, page.body.as_str())
    }

    /// The text of the variable `key`: what the tree bound to it evaluates
    /// to now. Fails with `UndefinedVariable` where `key` is not bound.
    /// `node` is the node that asks and `args` are its arguments; the
    /// result depends on neither.
    pub fn lookup(&mut self, node: &Node, key: &str, args: &[Node]) -> (r: Result<
        String,
        EvalError,
    >)
        ensures
            evaluated(
                old(self)@,
                final(self)@,
                lookup(old(self)@.world, old(self)@.env, key@, old(self)@.depth),
                r,
            ),
        decreases old(self).depth, 1nat,
    {
        let stored = match self.ctx.get(key) {
            Some(value) => share(value),
            None => {
                return Err(EvalError::UndefinedVariable);
            },
        };
        self.evaluate(&stored)
    }

    /// The text that `node` evaluates to. What the evaluation changes is
    /// changed in `self`.
    pub fn evaluate(&mut self, node: &Node) -> (r: Result<String, EvalError>)
        ensures
            evaluated(
                old(self)@,
                final(self)@,
                eval(old(self)@.world, old(self)@.env, node@, old(self)@.depth),
                r,
            ),
        decreases old(self).depth, 0nat,
    {
        proof {
            reveal(eval_def);
        }
        match &node.value {
            NodeValue::Owned(text) => Ok(text.clone()),
            NodeValue::Children(children) => {
                proof {
                    lemma_views(children@);
                }
                if children.len() == 0 {
                    return Err(EvalError::UnknownDirective);
                }
                let name = match &children[0].value {
                    NodeValue::Owned(name) => name.as_str(),
                    NodeValue::Children(_) => {
                        return Err(EvalError::UnknownDirective);
                    },
                };
                if self.depth == 0 {
                    return Err(EvalError::DepthExceeded);
                }
                let args = slice_subrange(children.as_slice(), 1, children.len());
                proof {
                    lemma_views_subrange(children@, 1, children@.len() as int);
                }
                let found = match self.registry.get(name) {
                    Some(directive) => Some(share(directive)),
                    None => None,
                };
                self.depth = self.depth - 1;
                let r = match found {
                    Some(directive) => directive.call(self, args),
                    None => {
                        if self.ctx.contains_key(name) {
                            self.lookup(node, name, args)
                        } else {
                            Err(EvalError::UnknownDirective)
                        }
                    },
                };
                self.depth = self.depth + 1;
                r
            },
        }
    }
}

} // verus!

//! The build of a project, in its two passes.
//!
//! A [`Build`] evaluates the pages, one after the other. When the last page
//! has been evaluated it is finished into a [`Site`], and only a site links
//! pages: no placeholder is replaced before every page has had its chance to
//! define the reference it names.

use crate::directives::{
    Admonition, Concat, Define, DefineTemplate, DefinitionList, Dummy, Heading, Import, Include,
    Let, Markdown, RefDefDirective, RefDirective, Steps, ThemeConfig, TocTree, Version,
};
use crate::error::{text_result, EvalError};
use crate::evaluator::{Evaluator, State};
use crate::model::{eval, Behavior, Env, Side, World};
use crate::node::Node;
use crate::page::{Page, Slug};
use crate::placeholder::substituted;
use crate::strmap::StrMap;
use crate::text::split;
use crate::toctree::titled;
use vstd::prelude::*;

verus! {

/// The mathematical value of a [`Page`].
#[verifier::ext_equal]
pub ghost struct PageModel {
    pub source_path: Seq<char>,
    pub slug: Seq<char>,
    pub body: Seq<char>,
    pub theme: Map<Seq<char>, Seq<char>>,
}

impl View for Page {
    type V = PageModel;

    open spec fn view(&self) -> PageModel {
        PageModel {
            source_path: self.source_path@,
            slug: self.slug@,
            body: self.body@,
            theme: self.theme_config@,
        }
    }
}

/// The mathematical values of a list of pages.
pub open spec fn page_views(pages: Seq<Page>) -> Seq<PageModel> {
    Seq::new(pages.len(), |i: int| pages[i]@)
}

/// The title of a page: what its theme configuration holds under `title`.
pub open spec fn title_of_page(page: PageModel) -> Seq<char> {
    if page.theme.contains_key("title"@) {
        page.theme["title"@]
    } else {
        Seq::empty()
    }
}

/// The titles of the pages, by slug. Of two pages with one slug, the later
/// one counts.
pub open spec fn titles_of(pages: Seq<PageModel>) -> Map<Seq<char>, Seq<char>>
    decreases pages.len(),
{
    if pages.len() == 0 {
        Map::empty()
    } else {
        titles_of(pages.drop_last()).insert(pages.last().slug, title_of_page(pages.last()))
    }
}

/// The registry with the directives of the language under their names.
pub open spec fn with_builtins(
    registry: Map<Seq<char>, Behavior>,
    version: Seq<char>,
) -> Map<Seq<char>, Behavior> {
    registry.insert("md"@, Behavior::Markdown).insert("table"@, Behavior::Dummy).insert(
        "version"@,
        Behavior::Version { components: split(version, '.') },
    ).insert("note"@, Behavior::Admonition { title: "Note"@, class: "note"@ }).insert(
        "warning"@,
        Behavior::Admonition { title: "Warning"@, class: "warning"@ },
    ).insert("define-template"@, Behavior::DefineTemplate).insert(
        "definition-list"@,
        Behavior::DefinitionList,
    ).insert("steps"@, Behavior::Steps).insert("concat"@, Behavior::Concat).insert(
        "include"@,
        Behavior::Include,
    ).insert("import"@, Behavior::Import).insert("null"@, Behavior::Dummy).insert(
        "let"@,
        Behavior::Let,
    ).insert("define"@, Behavior::Define).insert("theme-config"@, Behavior::ThemeConfig).insert(
        "toctree"@,
        Behavior::TocTree,
    ).insert("define-ref"@, Behavior::RefDef).insert("ref"@, Behavior::Ref).insert(
        "h1"@,
        Behavior::Heading { level: 1 },
    ).insert("h2"@, Behavior::Heading { level: 2 }).insert(
        "h3"@,
        Behavior::Heading { level: 3 },
    ).insert("h4"@, Behavior::Heading { level: 4 }).insert(
        "h5"@,
        Behavior::Heading { level: 5 },
    ).insert("h6"@, Behavior::Heading { level: 6 })
}

/// Registers the directives of the language under their names. `version` is
/// the version that the `version` directive gives.
pub fn register_builtins(evaluator: &mut Evaluator, version: &str)
    ensures
        final(evaluator)@ == (State {
            env: Env {
                registry: with_builtins(old(evaluator)@.env.registry, version@),
                ..old(evaluator)@.env
            },
            ..old(evaluator)@
        }),
{
    evaluator.register("md", Box::new(Markdown));
    evaluator.register("table", Box::new(Dummy));
    evaluator.register("version", Box::new(Version::new(version)));
    evaluator.register("note", Box::new(Admonition::new("Note", "note")));
    evaluator.register("warning", Box::new(Admonition::new("Warning", "warning")));
    evaluator.register("define-template", Box::new(DefineTemplate));
    evaluator.register("definition-list", Box::new(DefinitionList));
    evaluator.register("steps", Box::new(Steps));
    evaluator.register("concat", Box::new(Concat));
    evaluator.register("include", Box::new(Include));
    evaluator.register("import", Box::new(Import));
    evaluator.register("null", Box::new(Dummy));
    evaluator.register("let", Box::new(Let));
    evaluator.register("define", Box::new(Define));
    evaluator.register("theme-config", Box::new(ThemeConfig));
    evaluator.register("toctree", Box::new(TocTree));
    evaluator.register("define-ref", Box::new(RefDefDirective));
    evaluator.register("ref", Box::new(RefDirective));
    evaluator.register("h1", Box::new(Heading::new(1)));
    evaluator.register("h2", Box::new(Heading::new(2)));
    evaluator.register("h3", Box::new(Heading::new(3)));
    evaluator.register("h4", Box::new(Heading::new(4)));
    evaluator.register("h5", Box::new(Heading::new(5)));
    evaluator.register("h6", Box::new(Heading::new(6)));
}

/// The first pass over a project: the pages are evaluated one by one.
pub struct Build {
    evaluator: Evaluator,
    pages: Vec<Page>,
}

/// The mathematical value of a [`Build`] and of a [`Site`].
#[verifier::ext_equal]
pub ghost struct BuildModel {
    pub state: State,
    pub pages: Seq<PageModel>,
}

impl View for Build {
    type V = BuildModel;

    closed spec fn view(&self) -> BuildModel {
        BuildModel { state: self.evaluator@, pages: page_views(self.pages@) }
    }
}

/// The state in which the page `slug` is evaluated.
pub open spec fn on_page(state: State, slug: Seq<char>) -> State {
    State { side: Side { slug, ..state.side }, ..state }
}

impl Build {
    /// A build that evaluates with `evaluator` and has no pages yet.
    pub fn new(evaluator: Evaluator) -> (build: Build)
        ensures
            build@ == (BuildModel { state: evaluator@, pages: Seq::empty() }),
    {
        let build = Build { evaluator, pages: Vec::new() };
        assert(page_views(build.pages@) =~= Seq::<PageModel>::empty());
        build
    }

    /// Gives the source file `path` a number, with which the nodes read
    /// from it are marked.
    pub fn add_file(&mut self, path: &str) -> (id: usize)
        ensures
            id == old(self)@.state.world.files.len(),
            final(self)@ == (BuildModel {
                state: State {
                    world: World {
                        files: old(self)@.state.world.files.push(path@),
                        ..old(self)@.state.world
                    },
                    ..old(self)@.state
                },
                ..old(self)@
            }),
    {
        self.evaluator.add_file(path)
    }

    /// Records the tree that the source file `path` was parsed into, for
    /// `include` and `import` to find.
    pub fn add_source(&mut self, path: &str, tree: Node)
        ensures
            final(self)@ == (BuildModel {
                state: State {
                    world: World {
                        sources: old(self)@.state.world.sources.insert(path@, tree@),
                        ..old(self)@.state.world
                    },
                    ..old(self)@.state
                },
                ..old(self)@
            }),
    {
        self.evaluator.add_source(path, tree);
    }

    /// Evaluates the tree of the page `slug`, read from `source_path`.
    ///
    /// Where the evaluation succeeds the page is kept, with its body and
    /// its theme configuration. Where it fails the page is dropped. Either
    /// way what the evaluation has changed stays changed, but for the
    /// variables and the theme configuration, which do not outlive a page.
    pub fn build_file(&mut self, source_path: &str, slug: Slug, tree: &Node) -> (r: Result<
        (),
        EvalError,
    >)
        ensures
            ({
                let start = on_page(old(self)@.state, slug@);
                let outcome = eval(start.world, start.env, tree@, start.depth);
                let reached = start.advanced(outcome);
                &&& final(self)@.state == reached.cleared()
                &&& match r {
                    Ok(_) => outcome.result is Ok && final(self)@.pages == old(self)@.pages.push(
                        PageModel {
                            source_path: source_path@,
                            slug: slug@,
                            body: outcome.result->Ok_0,
                            theme: reached.side.theme,
                        },
                    ),
                    Err(e) => outcome.result == Err::<Seq<char>, EvalError>(e) && final(self)@.pages
                        == old(self)@.pages,
                }
            }),
    {
        let ghost before = page_views(self.pages@);
        self.evaluator.set_slug(slug.clone());
        let ghost start = self.evaluator@;
        let ghost outcome = eval(start.world, start.env, tree@, start.depth);
        let r = self.evaluator.evaluate(tree);
        let ghost reached = self.evaluator@;
        assert(reached =~= start.advanced(outcome));
        let result = match r {
            Ok(body) => {
                let mut theme_config: StrMap<String> = StrMap::new();
                core::mem::swap(&mut self.evaluator.theme_config, &mut theme_config);
                self.pages.push(
                    Page { source_path: source_path.to_owned(), slug, body, theme_config },
                );
                assert(page_views(self.pages@) =~= before.push(
                    PageModel {
                        source_path: source_path@,
                        slug: slug@,
                        body: body@,
                        theme: reached.side.theme,
                    },
                ));
                Ok(())
            },
            Err(e) => Err(e),
        };
        self.evaluator.reset();
        assert(self.evaluator@ =~= reached.cleared());
        result
    }

    /// Ends the first pass: the table of contents learns the titles of the
    /// pages, and the pages can be linked.
    pub fn finish(self) -> (site: Site)
        ensures
            site@.pages == self@.pages,
            site@.state.world == self@.state.world,
            site@.state.env == self@.state.env,
            site@.state.depth == self@.state.depth,
            site@.state.side.refdefs == self@.state.side.refdefs,
            site@.state.side.theme == self@.state.side.theme,
            site@.state.side.slug == self@.state.side.slug,
            site@.state.side.toc.len() == self@.state.side.toc.len(),
            forall|i: int|
                0 <= i < self@.state.side.toc.len() ==> #[trigger] site@.state.side.toc[i]
                    == titled(self@.state.side.toc[i], titles_of(self@.pages)),
    {
        let mut titles: StrMap<String> = StrMap::new();
        let mut i: usize = 0;
        let ghost all = page_views(self.pages@);
        assert(all.take(0) =~= Seq::<PageModel>::empty());
        while i < self.pages.len()
            invariant
                i <= self.pages.len(),
                all == page_views(self.pages@),
                titles@ == titles_of(all.take(i as int)),
            decreases self.pages.len() - i,
        {
            let page = &self.pages[i];
            proof {
                assert(all.take(i + 1).drop_last() =~= all.take(i as int));
                assert(all.take(i + 1).last() == page@);
            }
            titles.insert(page.slug.as_str().to_owned(), page.title());
            i = i + 1;
        }
        assert(all.take(self.pages.len() as int) =~= all);
        let mut evaluator = self.evaluator;
        evaluator.toctree.finish(&titles);
        Site { evaluator, pages: self.pages }
    }
}

/// The second pass over a project: the pages are linked.
pub struct Site {
    evaluator: Evaluator,
    pages: Vec<Page>,
}

impl View for Site {
    type V = BuildModel;

    closed spec fn view(&self) -> BuildModel {
        BuildModel { state: self.evaluator@, pages: page_views(self.pages@) }
    }
}

impl Site {
    /// The number of pages.
    pub fn len(&self) -> (n: usize)
        ensures
            n == self@.pages.len(),
    {
        self.pages.len()
    }

    /// The page `index`.
    pub fn page(&self, index: usize) -> (page: &Page)
        requires
            index < self@.pages.len(),
        ensures
            page@ == self@.pages[index as int],
    {
        &self.pages[index]
    }

    /// The evaluator, with the references and the table of contents of the
    /// whole project.
    pub fn evaluator(&self) -> (evaluator: &Evaluator)
        ensures
            evaluator@ == self@.state,
    {
        &self.evaluator
    }

    /// The body of the page `index` with every placeholder replaced. Fails
    /// with `UndefinedReference` where the page names a reference that no
    /// page of the project defines.
    pub fn link_file(&self, index: usize) -> (r: Result<String, EvalError>)
        requires
            index < self@.pages.len(),
        ensures
            text_result(r) == substituted(
                self@.state.world.marker,
                self@.state.side.refdefs,
                self@.pages[index as int].body,
            ),
    {
        self.evaluator.substitute(&self.pages[index])
    }
}

} // verus!

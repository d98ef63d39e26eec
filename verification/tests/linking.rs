use rocket::error::EvalError;
use rocket::evaluator::Evaluator;
use rocket::markdown::{extract_title, render};
use rocket::node::Node;
use rocket::page::{normalize_path, Page, RefDef, Slug};
use rocket::pattern::{accepts, is_valid};
use rocket::placeholder::{make_token, substitute_text, PlaceholderAction};
use rocket::project::{register_builtins, Build};
use rocket::strmap::StrMap;
use rocket::text::{
    chars_of, count_char, decimal_text, find, join_first, same_text, split_on, starts_with_at,
    string_of, trimmed,
};
use rocket::toctree::TocTree;

fn leaf(text: &str) -> Node {
    Node::new_string(text)
}

fn call(name: &str, mut args: Vec<Node>) -> Node {
    let mut children = vec![leaf(name)];
    children.append(&mut args);
    Node::new_children(children)
}

fn project() -> Build {
    let mut evaluator = Evaluator::with_prefix(7);
    register_builtins(&mut evaluator, "3.4.0");
    Build::new(evaluator)
}

#[test]
fn a_reference_to_another_page_resolves_after_linking() {
    let mut build = project();
    let referring = call("md", vec![leaf("See "), call("ref", vec![leaf("some-id")]), leaf(".")]);
    let defining = call("md", vec![call("h2", vec![leaf("some-id"), leaf("Some Title")])]);
    assert_eq!(
        build.build_file("content/first.rocket", Slug::new("first".to_owned()), &referring),
        Ok(())
    );
    assert_eq!(
        build.build_file(
            "content/guide/second.rocket",
            Slug::new("guide/second".to_owned()),
            &defining
        ),
        Ok(())
    );
    let site = build.finish();
    assert_eq!(site.len(), 2);
    assert_eq!(
        site.link_file(0),
        Ok("<p>See <a href=\"guide/second\">Some Title</a>.</p>".to_owned())
    );
    assert_eq!(site.link_file(1), Ok("<h2>Some Title</h2>".to_owned()));
    assert_eq!(site.page(0).slug.as_str(), "first");
    assert_eq!(site.page(1).source_path, "content/guide/second.rocket");
}

#[test]
fn a_reference_that_no_page_defines_fails_linking() {
    let mut build = project();
    let good = call("md", vec![leaf("fine")]);
    let bad = call("ref", vec![leaf("nowhere")]);
    build
        .build_file("a.rocket", Slug::new("a".to_owned()), &good)
        .unwrap();
    build
        .build_file("b.rocket", Slug::new("b".to_owned()), &bad)
        .unwrap();
    let site = build.finish();
    assert_eq!(site.link_file(0), Ok("<p>fine</p>".to_owned()));
    assert_eq!(site.link_file(1), Err(EvalError::UndefinedReference));
}

#[test]
fn a_page_that_fails_is_dropped_and_the_others_are_built() {
    let mut build = project();
    let failing = call(
        "concat",
        vec![
            call("define", vec![leaf("leak"), leaf("x")]),
            call("theme-config", vec![leaf("k"), leaf("v")]),
            call("no-such-directive", vec![]),
        ],
    );
    let next = call("concat", vec![call("leak", vec![])]);
    assert_eq!(
        build.build_file("bad.rocket", Slug::new("bad".to_owned()), &failing),
        Err(EvalError::UnknownDirective)
    );
    assert_eq!(
        build.build_file("next.rocket", Slug::new("next".to_owned()), &next),
        Err(EvalError::UnknownDirective)
    );
    assert_eq!(
        build.build_file("ok.rocket", Slug::new("ok".to_owned()), &leaf("text")),
        Ok(())
    );
    let site = build.finish();
    assert_eq!(site.len(), 1);
    assert_eq!(site.page(0).slug.as_str(), "ok");
    assert!(!site.page(0).theme_config.contains_key("k"));
}

#[test]
fn pages_keep_their_own_theme_configuration() {
    let mut build = project();
    let first = call(
        "concat",
        vec![
            call("theme-config", vec![leaf("layout"), leaf("wide")]),
            call("md", vec![leaf("# One")]),
        ],
    );
    let second = call("md", vec![leaf("plain")]);
    build
        .build_file("one.rocket", Slug::new("one".to_owned()), &first)
        .unwrap();
    build
        .build_file("two.rocket", Slug::new("two".to_owned()), &second)
        .unwrap();
    let site = build.finish();
    assert_eq!(site.page(0).theme_config.get("layout"), Some(&"wide".to_owned()));
    assert_eq!(site.page(0).title(), "One");
    assert_eq!(site.page(1).theme_config.get("layout"), None);
    assert_eq!(site.page(1).title(), "");
}

#[test]
fn finish_gives_the_table_of_contents_the_titles_of_the_pages() {
    let mut build = project();
    let index = call(
        "concat",
        vec![
            call("md", vec![leaf("# Home")]),
            call(
                "toctree",
                vec![
                    leaf("guide"),
                    Node::new_children(vec![leaf("Named"), leaf("guide")]),
                    leaf("unknown"),
                ],
            ),
        ],
    );
    let guide = call("md", vec![leaf("# The Guide")]);
    build
        .build_file("index.rocket", Slug::new("index".to_owned()), &index)
        .unwrap();
    build
        .build_file("guide.rocket", Slug::new("guide".to_owned()), &guide)
        .unwrap();
    let site = build.finish();
    let toc = &site.evaluator().toctree;
    assert_eq!(toc.len(), 3);
    assert_eq!(toc.entry(0).parent.as_str(), "index");
    assert_eq!(toc.entry(0).title, Some("The Guide".to_owned()));
    assert_eq!(toc.entry(1).title, Some("Named".to_owned()));
    assert_eq!(toc.entry(2).title, None);
}

#[test]
fn the_builtins_are_registered_under_their_names() {
    let mut evaluator = Evaluator::new();
    register_builtins(&mut evaluator, "1.2");
    for name in [
        "md", "table", "version", "note", "warning", "define-template", "definition-list",
        "steps", "concat", "include", "import", "null", "let", "define", "theme-config",
        "toctree", "define-ref", "ref", "h1", "h2", "h3", "h4", "h5", "h6",
    ] {
        assert!(evaluator.registry.contains_key(name), "{}", name);
    }
    assert_eq!(evaluator.evaluate(&call("version", vec![])), Ok("1.2".to_owned()));
    assert_eq!(evaluator.evaluate(&call("h3", vec![leaf("T")])), Ok("\n### T\n".to_owned()));
    assert_eq!(evaluator.evaluate(&call("null", vec![leaf("T")])), Ok("".to_owned()));
    assert_eq!(
        evaluator.evaluate(&call("warning", vec![leaf("w")])),
        Ok("<div class=\"admonition admonition-warning\"><span class=\"admonition-title admonition-title-warning\">Warning</span><p>w</p>\n</div>\n".to_owned())
    );
}

#[test]
fn tokens_are_written_and_read_again() {
    let mut refs: StrMap<RefDef> = StrMap::new();
    let slug = Slug::new("dir/page".to_owned());
    refs.insert("héllo wörld/σ".to_owned(), RefDef::new("A Title", &slug));
    refs.insert("".to_owned(), RefDef::new("Empty", &slug));

    let title = make_token("rk1", PlaceholderAction::Title, "héllo wörld/σ");
    let path = make_token("rk1", PlaceholderAction::Path, "héllo wörld/σ");
    assert_ne!(title, "héllo wörld/σ");
    assert!(title.chars().all(|c| c.is_ascii_alphanumeric()));
    let body = format!("a{}b{}{}c", title, path, title);
    assert_eq!(
        substitute_text("rk1", &refs, &body),
        Ok("aA Titlebdir/pageA Titlec".to_owned())
    );
    assert_eq!(make_token("rk1", PlaceholderAction::Path, ""), "rk1pz");
    assert_eq!(
        substitute_text("rk1", &refs, "xrk1tzrk1pzx"),
        Ok("xEmptydir/pagex".to_owned())
    );
}

#[test]
fn text_that_only_looks_like_a_token_stays() {
    let refs: StrMap<RefDef> = StrMap::new();
    for body in [
        "",
        "plain",
        "rk1",
        "rk1t",
        "rk1t00006",
        "rk1t00006gz",
        "rk1x000061z",
        "rk1t00d800z",
        "rk1tffffffz",
        "rk2t000061z",
        "rk1t000061",
        "rk1T000061z",
    ] {
        assert_eq!(substitute_text("rk1", &refs, body), Ok(body.to_owned()), "{}", body);
    }
    assert_eq!(
        substitute_text("rk1", &refs, "rk1t000061z"),
        Err(EvalError::UndefinedReference)
    );
}

#[test]
fn substitute_replaces_the_placeholders_of_a_page() {
    let mut evaluator = Evaluator::with_prefix(5);
    evaluator.set_slug(Slug::new("target".to_owned()));
    evaluator
        .refdefs
        .insert("id".to_owned(), RefDef::new("Title", &Slug::new("target".to_owned())));
    let token = evaluator.get_placeholder("id", PlaceholderAction::Title);
    let page = Page {
        source_path: "p.rocket".to_owned(),
        slug: Slug::new("p".to_owned()),
        body: format!("<{}>", token),
        theme_config: StrMap::new(),
    };
    assert_eq!(evaluator.substitute(&page), Ok("<Title>".to_owned()));
    let other = Evaluator::with_prefix(6);
    assert_eq!(other.substitute(&page), Ok(format!("<{}>", token)));
}

#[test]
fn slugs_are_normalized() {
    assert_eq!(Slug::new("a/b".to_owned()).as_str(), "a/b");
    assert_eq!(Slug::new("/a//b/".to_owned()).as_str(), "a/b");
    assert_eq!(Slug::new("./a/./b".to_owned()).as_str(), "a/b");
    assert_eq!(Slug::new("".to_owned()).as_str(), "");
    assert_eq!(Slug::new("///".to_owned()).as_str(), "");
    assert_eq!(Slug::new("a/../b".to_owned()).as_str(), "a/../b");
    assert_eq!(normalize_path("x/.y/z."), "x/.y/z.");
    assert_eq!(Slug::new("a/b/".to_owned()), Slug::new("/a/b".to_owned()));
    assert_ne!(Slug::new("a/b".to_owned()), Slug::new("a/c".to_owned()));
}

#[test]
fn output_paths_follow_the_slug() {
    let slug = Slug::new("guide/intro".to_owned());
    assert_eq!(slug.create_output_path("build", true), "build/guide/intro/index.html");
    assert_eq!(slug.create_output_path("build", false), "build/guide/intro.html");
}

#[test]
fn titles_are_read_off_the_first_top_level_heading() {
    assert_eq!(extract_title("<h1>Plain</h1>\n<p>x</p>"), "Plain");
    assert_eq!(extract_title("<p>x</p><h1>A <em>b</em> c</h1><h1>Second</h1>"), "A b c");
    assert_eq!(extract_title("<h2>Lower</h2>"), "");
    assert_eq!(extract_title("<h1>never closed"), "");
    assert_eq!(extract_title("<h1></h1>"), "");
    assert_eq!(extract_title(""), "");
    assert_eq!(extract_title("<h1>a<b</h1>"), "a");
    let (html, title) = render("Intro\n\n# The *Title*\n\n## Sub\n");
    assert_eq!(html, "<p>Intro</p>\n<h1>The <em>Title</em></h1>\n<h2>Sub</h2>\n");
    assert_eq!(title, "The Title");
}

#[test]
fn checkers_are_regular_expressions() {
    assert!(accepts("^/.*$", "/path"));
    assert!(!accepts("^/.*$", "path"));
    assert!(accepts("b", "abc"));
    assert!(accepts("", ""));
    assert!(!accepts("(", "("));
    assert!(is_valid("^[a-z]+$"));
    assert!(!is_valid("["));
}

#[test]
fn text_helpers_compute_what_they_say() {
    assert_eq!(trimmed("  \t a b \n\u{a0}\u{3000}"), "a b");
    assert_eq!(trimmed(" \n "), "");
    assert_eq!(trimmed(""), "");
    assert_eq!(trimmed("x"), "x");
    assert_eq!(trimmed("\u{200b}x"), "\u{200b}x");
    assert_eq!(count_char("a.b..c", '.'), 3);
    assert_eq!(count_char("", '.'), 0);
    assert_eq!(split_on("a.b..c", '.'), vec!["a", "b", "", "c"]);
    assert_eq!(split_on("", '.'), vec![""]);
    assert_eq!(split_on(".", '.'), vec!["", ""]);
    let parts = vec!["a".to_owned(), "b".to_owned(), "c".to_owned()];
    assert_eq!(join_first(&parts, 0, '.'), "");
    assert_eq!(join_first(&parts, 1, '.'), "a");
    assert_eq!(join_first(&parts, 3, '.'), "a.b.c");
    assert_eq!(decimal_text(0), "0");
    assert_eq!(decimal_text(9), "9");
    assert_eq!(decimal_text(10), "10");
    assert_eq!(decimal_text(18446744073709551615), "18446744073709551615");
    assert!(same_text("é", "é"));
    assert!(!same_text("a", "ab"));
    let hay = chars_of("abcabc");
    assert_eq!(find(&hay, &chars_of("bc"), 0), Some(1));
    assert_eq!(find(&hay, &chars_of("bc"), 2), Some(4));
    assert_eq!(find(&hay, &chars_of("bd"), 0), None);
    assert_eq!(find(&hay, &chars_of("abcabcd"), 0), None);
    assert!(starts_with_at(&hay, &chars_of("cab"), 2));
    assert!(!starts_with_at(&hay, &chars_of("cab"), 5));
    assert_eq!(string_of(&hay, 1, 4), "bca");
}

#[test]
fn maps_keep_the_last_binding_of_a_key() {
    let mut map: StrMap<String> = StrMap::new();
    assert_eq!(map.insert("a".to_owned(), "1".to_owned()), None);
    assert_eq!(map.insert("b".to_owned(), "2".to_owned()), None);
    assert_eq!(map.insert("a".to_owned(), "3".to_owned()), Some("1".to_owned()));
    assert_eq!(map.get("a"), Some(&"3".to_owned()));
    assert_eq!(map.get("b"), Some(&"2".to_owned()));
    assert_eq!(map.get("c"), None);
    assert!(map.contains_key("b"));
    let mut keys = map.keys();
    keys.sort();
    assert_eq!(keys, vec!["a", "b"]);
    assert_eq!(map.remove("a"), Some("3".to_owned()));
    assert_eq!(map.remove("a"), None);
    assert!(!map.contains_key("a"));
    assert_eq!(map.get("b"), Some(&"2".to_owned()));
    map.clear();
    assert!(!map.contains_key("b"));
    assert!(map.keys().is_empty());
}

#[test]
fn the_table_of_contents_fills_in_missing_titles() {
    let mut toc = TocTree::new_empty();
    let parent = Slug::new("index".to_owned());
    toc.add(&parent, Slug::new("a".to_owned()), None);
    toc.add(&parent, Slug::new("b".to_owned()), Some("Given".to_owned()));
    toc.add(&parent, Slug::new("c".to_owned()), None);
    let mut titles: StrMap<String> = StrMap::new();
    titles.insert("a".to_owned(), "Title of A".to_owned());
    titles.insert("b".to_owned(), "Title of B".to_owned());
    toc.finish(&titles);
    assert_eq!(toc.len(), 3);
    assert_eq!(toc.entry(0).title, Some("Title of A".to_owned()));
    assert_eq!(toc.entry(1).title, Some("Given".to_owned()));
    assert_eq!(toc.entry(2).title, None);
    assert_eq!(toc.entry(2).child.as_str(), "c");
}

#[test]
fn nodes_are_copied_with_all_that_is_below_them() {
    let node = Node::new_children(vec![
        leaf("a"),
        Node::new_children(vec![leaf("b"), Node::new_children(vec![])]),
    ]);
    let copy = node.duplicate();
    let mut evaluator = Evaluator::new();
    evaluator.register("a", Box::new(rocket::directives::Concat));
    evaluator.register("b", Box::new(rocket::directives::Version::new("7")));
    assert_eq!(evaluator.evaluate(&node), Err(EvalError::UnknownDirective));
    assert_eq!(evaluator.evaluate(&copy), Err(EvalError::UnknownDirective));
    let simple = Node::new_children(vec![leaf("a"), leaf("x"), call("b", vec![])]);
    assert_eq!(evaluator.evaluate(&simple.duplicate()), Ok("x7".to_owned()));
}

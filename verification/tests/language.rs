use rocket::directives::{
    Admonition, Concat, Define, DefineTemplate, DefinitionList, DirectiveHandler, Dummy, Heading,
    Import, Include, Let, Markdown, RefDirective, Steps, Template, ThemeConfig, TocTree, Version,
};
use rocket::error::EvalError;
use rocket::evaluator::Evaluator;
use rocket::node::{Node, NodeValue};
use rocket::page::Slug;
use rocket::placeholder::PlaceholderAction;

fn leaf(text: &str) -> Node {
    Node::new_string(text)
}

fn call(name: &str, mut args: Vec<Node>) -> Node {
    let mut children = vec![leaf(name)];
    children.append(&mut args);
    Node::new_children(children)
}

#[test]
fn version_without_argument_is_the_version() {
    let mut evaluator = Evaluator::new();
    for version in ["3.4.0", "1", "", "1..2", ".5", "10.20.30.40"] {
        let handler = Version::new(version);
        assert_eq!(handler.handle(&mut evaluator, &[]), Ok(version.to_owned()));
    }
}

#[test]
fn version_truncates_to_the_components_of_the_argument() {
    let mut evaluator = Evaluator::new();
    let handler = Version::new("3.4.0");
    assert_eq!(
        handler.handle(&mut evaluator, &[leaf("a.b.c")]),
        Ok("3.4.0".to_owned())
    );
    assert_eq!(handler.handle(&mut evaluator, &[leaf(".")]), Ok("3.4".to_owned()));
    assert_eq!(handler.handle(&mut evaluator, &[leaf("")]), Ok("".to_owned()));
}

#[test]
fn version_with_more_components_asked_than_there_are_gives_all() {
    let mut evaluator = Evaluator::new();
    let handler = Version::new("3.4.0");
    assert_eq!(
        handler.handle(&mut evaluator, &[leaf("a.b.c.d.e")]),
        Ok("3.4.0".to_owned())
    );
}

#[test]
fn version_with_two_arguments_is_an_arity_error() {
    let mut evaluator = Evaluator::new();
    let handler = Version::new("3.4.0");
    assert_eq!(
        handler.handle(&mut evaluator, &[leaf("a"), leaf("b")]),
        Err(EvalError::ArityError)
    );
}

#[test]
fn concat_is_associative() {
    let mut evaluator = Evaluator::new();
    let handler = Concat;
    let whole = handler
        .handle(&mut evaluator, &[leaf("a"), leaf("bc"), leaf("def")])
        .unwrap();
    let a = handler.handle(&mut evaluator, &[leaf("a")]).unwrap();
    let b = handler.handle(&mut evaluator, &[leaf("bc")]).unwrap();
    let c = handler.handle(&mut evaluator, &[leaf("def")]).unwrap();
    assert_eq!(whole, format!("{}{}{}", a, b, c));
    assert_eq!(whole, "abcdef");
}

#[test]
fn concat_stops_at_the_first_failure() {
    let mut evaluator = Evaluator::new();
    let handler = Concat;
    assert_eq!(
        handler.handle(&mut evaluator, &[leaf("a"), call("nothing", vec![]), leaf("b")]),
        Err(EvalError::UnknownDirective)
    );
}

#[test]
fn evaluate_gives_literal_text_back() {
    let mut evaluator = Evaluator::new();
    assert_eq!(evaluator.evaluate(&leaf("plain text")), Ok("plain text".to_owned()));
}

#[test]
fn evaluate_fails_on_unknown_names_and_on_groups_without_a_name() {
    let mut evaluator = Evaluator::new();
    assert_eq!(
        evaluator.evaluate(&call("missing", vec![leaf("x")])),
        Err(EvalError::UnknownDirective)
    );
    assert_eq!(
        evaluator.evaluate(&Node::new_children(vec![])),
        Err(EvalError::UnknownDirective)
    );
    assert_eq!(
        evaluator.evaluate(&Node::new_children(vec![Node::new_children(vec![])])),
        Err(EvalError::UnknownDirective)
    );
}

#[test]
fn evaluate_prefers_a_directive_to_a_variable_of_the_same_name() {
    let mut evaluator = Evaluator::new();
    evaluator.register("name", Box::new(Version::new("9")));
    Define
        .handle(&mut evaluator, &[leaf("name"), leaf("variable")])
        .unwrap();
    assert_eq!(evaluator.evaluate(&call("name", vec![])), Ok("9".to_owned()));
}

#[test]
fn lookup_of_an_unbound_variable_fails() {
    let mut evaluator = Evaluator::new();
    assert_eq!(
        evaluator.lookup(&leaf(""), "nowhere", &[]),
        Err(EvalError::UndefinedVariable)
    );
}

#[test]
fn nesting_deeper_than_the_limit_fails() {
    let mut evaluator = Evaluator::new();
    Define
        .handle(&mut evaluator, &[leaf("x"), call("x", vec![])])
        .unwrap();
    assert_eq!(
        evaluator.evaluate(&call("x", vec![])),
        Err(EvalError::DepthExceeded)
    );
    evaluator.set_depth(0);
    evaluator.register("concat", Box::new(Concat));
    assert_eq!(
        evaluator.evaluate(&call("concat", vec![])),
        Err(EvalError::DepthExceeded)
    );
    assert_eq!(evaluator.evaluate(&leaf("still text")), Ok("still text".to_owned()));
    evaluator.set_depth(1);
    assert_eq!(evaluator.evaluate(&call("concat", vec![leaf("a")])), Ok("a".to_owned()));
    assert_eq!(
        evaluator.evaluate(&call("concat", vec![call("concat", vec![])])),
        Err(EvalError::DepthExceeded)
    );
}

#[test]
fn let_restores_bindings() {
    let mut evaluator = Evaluator::new();
    evaluator.register("concat", Box::new(Concat));
    evaluator.register("let", Box::new(Let));
    evaluator.register("define", Box::new(Define));
    Define
        .handle(&mut evaluator, &[leaf("foo"), leaf("outer")])
        .unwrap();

    let result = Let.handle(
        &mut evaluator,
        &[
            Node::new_children(vec![leaf("foo"), leaf("inner"), leaf("fresh"), leaf("new")]),
            call("foo", vec![]),
            leaf("-"),
            call("fresh", vec![]),
        ],
    );
    assert_eq!(result, Ok("inner-new".to_owned()));
    assert_eq!(evaluator.lookup(&leaf(""), "foo", &[]), Ok("outer".to_owned()));
    assert_eq!(
        evaluator.lookup(&leaf(""), "fresh", &[]),
        Err(EvalError::UndefinedVariable)
    );
}

#[test]
fn let_restores_bindings_when_nested_and_when_a_key_repeats() {
    let mut evaluator = Evaluator::new();
    evaluator.register("concat", Box::new(Concat));
    evaluator.register("let", Box::new(Let));
    Define
        .handle(&mut evaluator, &[leaf("k"), leaf("0")])
        .unwrap();

    let inner = call(
        "let",
        vec![
            Node::new_children(vec![leaf("k"), leaf("2"), leaf("k"), leaf("3")]),
            call("k", vec![]),
        ],
    );
    let result = Let.handle(
        &mut evaluator,
        &[
            Node::new_children(vec![leaf("k"), leaf("1")]),
            call("k", vec![]),
            inner,
            call("k", vec![]),
        ],
    );
    assert_eq!(result, Ok("131".to_owned()));
    assert_eq!(evaluator.lookup(&leaf(""), "k", &[]), Ok("0".to_owned()));
}

#[test]
fn let_restores_bindings_when_the_body_fails() {
    let mut evaluator = Evaluator::new();
    Define
        .handle(&mut evaluator, &[leaf("k"), leaf("before")])
        .unwrap();
    let result = Let.handle(
        &mut evaluator,
        &[
            Node::new_children(vec![leaf("k"), leaf("during"), leaf("other"), leaf("x")]),
            call("unknown", vec![]),
        ],
    );
    assert_eq!(result, Err(EvalError::UnknownDirective));
    assert_eq!(evaluator.lookup(&leaf(""), "k", &[]), Ok("before".to_owned()));
    assert!(!evaluator.ctx.contains_key("other"));
}

#[test]
fn let_restores_bindings_when_a_value_fails() {
    let mut evaluator = Evaluator::new();
    let result = Let.handle(
        &mut evaluator,
        &[
            Node::new_children(vec![
                leaf("a"),
                leaf("1"),
                leaf("b"),
                call("unknown", vec![]),
            ]),
            leaf("body"),
        ],
    );
    assert_eq!(result, Err(EvalError::UnknownDirective));
    assert!(!evaluator.ctx.contains_key("a"));
    assert!(!evaluator.ctx.contains_key("b"));
}

#[test]
fn let_rejects_a_literal_and_an_odd_group() {
    let mut evaluator = Evaluator::new();
    assert_eq!(Let.handle(&mut evaluator, &[]), Err(EvalError::ArityError));
    assert_eq!(
        Let.handle(&mut evaluator, &[leaf("x"), leaf("body")]),
        Err(EvalError::ArityError)
    );
    assert_eq!(
        Let.handle(
            &mut evaluator,
            &[Node::new_children(vec![leaf("a"), leaf("1"), leaf("b")])]
        ),
        Err(EvalError::ArityError)
    );
}

#[test]
fn define_keeps_a_definition_made_inside_let() {
    let mut evaluator = Evaluator::new();
    evaluator.register("define", Box::new(Define));
    let result = Let.handle(
        &mut evaluator,
        &[
            Node::new_children(vec![leaf("a"), leaf("1")]),
            call("define", vec![leaf("kept"), leaf("yes")]),
        ],
    );
    assert_eq!(result, Ok("".to_owned()));
    assert_eq!(evaluator.lookup(&leaf(""), "kept", &[]), Ok("yes".to_owned()));
    assert!(!evaluator.ctx.contains_key("a"));
}

#[test]
fn define_rejects_other_shapes() {
    let mut evaluator = Evaluator::new();
    assert_eq!(Define.handle(&mut evaluator, &[leaf("a")]), Err(EvalError::ArityError));
    assert_eq!(
        Define.handle(&mut evaluator, &[leaf("now"), leaf("a"), leaf("b")]),
        Err(EvalError::ArityError)
    );
    assert_eq!(
        Define.handle(
            &mut evaluator,
            &[leaf("evaluate"), leaf("a"), leaf("b"), leaf("c")]
        ),
        Err(EvalError::ArityError)
    );
}

#[test]
fn define_eager_keeps_the_file_of_the_value() {
    let mut evaluator = Evaluator::new();
    let value = Node::new(NodeValue::Owned("v".to_owned()), Some(3));
    Define
        .handle(&mut evaluator, &[leaf("evaluate"), leaf("k"), value])
        .unwrap();
    assert_eq!(evaluator.ctx.get("k").unwrap().file_id, Some(3));
}

#[test]
fn template_fills_markers_and_checks_arguments() {
    let mut evaluator = Evaluator::new();
    let handler = Template::new(
        "[${0}](${1})".to_owned(),
        vec!["^.+$".to_owned(), "^/.*$".to_owned()],
    );
    assert_eq!(
        handler.handle(&mut evaluator, &[leaf("Title"), leaf("/path/")]),
        Ok("[Title](/path/)".to_owned())
    );
    assert_eq!(
        handler.handle(&mut evaluator, &[leaf("Title"), leaf("path")]),
        Err(EvalError::ValidationError)
    );
}

#[test]
fn template_pads_missing_arguments_and_leaves_unchecked_ones_alone() {
    let mut evaluator = Evaluator::new();
    let unchecked = Template::new("${0}|${1}|${2}|${9}".to_owned(), vec!["^a$".to_owned()]);
    assert_eq!(
        unchecked.handle(&mut evaluator, &[leaf("a"), leaf("anything at all")]),
        Ok("a|anything at all||".to_owned())
    );
    let lenient = Template::new("<${0}><${1}>".to_owned(), vec!["^x$".to_owned(), "^$".to_owned()]);
    assert_eq!(
        lenient.handle(&mut evaluator, &[leaf("x")]),
        Ok("<x><>".to_owned())
    );
    let strict = Template::new("${0}".to_owned(), vec!["^x$".to_owned(), "^.+$".to_owned()]);
    assert_eq!(
        strict.handle(&mut evaluator, &[leaf("x")]),
        Err(EvalError::ValidationError)
    );
}

#[test]
fn template_leaves_other_text_alone() {
    let mut evaluator = Evaluator::new();
    let handler = Template::new("$ ${ ${a} ${12} $${0}} ${0".to_owned(), vec![]);
    assert_eq!(
        handler.handle(&mut evaluator, &[leaf("v")]),
        Ok("$ ${ ${a} ${12} $v} ${0".to_owned())
    );
}

#[test]
fn template_with_an_invalid_checker_rejects_every_argument() {
    let mut evaluator = Evaluator::new();
    let handler = Template::new("${0}".to_owned(), vec!["(".to_owned()]);
    assert_eq!(
        handler.handle(&mut evaluator, &[leaf("x")]),
        Err(EvalError::ValidationError)
    );
}

#[test]
fn define_template_registers_a_directive() {
    let mut evaluator = Evaluator::new();
    assert_eq!(
        DefineTemplate.handle(
            &mut evaluator,
            &[leaf("link"), leaf("[${0}](${1})"), leaf("^.+$"), leaf("^/.*$")]
        ),
        Ok("".to_owned())
    );
    assert_eq!(
        evaluator.evaluate(&call("link", vec![leaf("Title"), leaf("/path/")])),
        Ok("[Title](/path/)".to_owned())
    );
    assert_eq!(
        evaluator.evaluate(&call("link", vec![leaf("Title"), leaf("path")])),
        Err(EvalError::ValidationError)
    );
    evaluator.reset();
    assert_eq!(
        evaluator.evaluate(&call("link", vec![leaf("T"), leaf("/")])),
        Ok("[T](/)".to_owned())
    );
}

#[test]
fn define_template_rejects_bad_calls() {
    let mut evaluator = Evaluator::new();
    assert_eq!(
        DefineTemplate.handle(&mut evaluator, &[leaf("name")]),
        Err(EvalError::ArityError)
    );
    assert_eq!(
        DefineTemplate.handle(&mut evaluator, &[leaf("name"), leaf("text"), leaf("(")]),
        Err(EvalError::ValidationError)
    );
    assert!(!evaluator.registry.contains_key("name"));
}

#[test]
fn definition_list_renders_pairs() {
    let mut evaluator = Evaluator::new();
    assert_eq!(DefinitionList.handle(&mut evaluator, &[]), Ok("".to_owned()));
    assert_eq!(
        DefinitionList.handle(
            &mut evaluator,
            &[
                Node::new_children(vec![leaf("term"), leaf("body")]),
                Node::new_children(vec![leaf("other"), leaf("*text*")]),
            ]
        ),
        Ok("<dt>term</dt><dd><p>body</p>\n</dd><dt>other</dt><dd><p><em>text</em></p>\n</dd>"
            .to_owned())
    );
}

#[test]
fn definition_list_rejects_a_bare_literal() {
    let mut evaluator = Evaluator::new();
    assert_eq!(
        DefinitionList.handle(&mut evaluator, &[leaf("bare")]),
        Err(EvalError::ArityError)
    );
    assert_eq!(
        DefinitionList.handle(
            &mut evaluator,
            &[Node::new_children(vec![leaf("term"), leaf("body")]), leaf("bare")]
        ),
        Err(EvalError::ArityError)
    );
    assert_eq!(
        DefinitionList.handle(
            &mut evaluator,
            &[Node::new_children(vec![leaf("term"), leaf("body"), leaf("more")])]
        ),
        Err(EvalError::ArityError)
    );
}

#[test]
fn admonition_renders_a_box() {
    let mut evaluator = Evaluator::new();
    let handler = Admonition::new("Note", "note");
    assert_eq!(
        handler.handle(&mut evaluator, &[leaf("foo")]),
        Ok("<div class=\"admonition admonition-note\"><span class=\"admonition-title admonition-title-note\">Note</span><p>foo</p>\n</div>\n".to_owned())
    );
    assert_eq!(
        handler.handle(&mut evaluator, &[leaf("Mind"), leaf("foo")]),
        Ok("<div class=\"admonition admonition-note\"><span class=\"admonition-title admonition-title-note\">Mind</span><p>foo</p>\n</div>\n".to_owned())
    );
    assert_eq!(
        handler.handle(&mut evaluator, &[leaf("a"), leaf("b"), leaf("c")]),
        Err(EvalError::ArityError)
    );
}

#[test]
fn markdown_records_the_first_title_of_a_page() {
    let mut evaluator = Evaluator::new();
    assert_eq!(
        Markdown.handle(&mut evaluator, &[leaf("# First *Title*\n\ntext")]),
        Ok("<h1>First <em>Title</em></h1>\n<p>text</p>".to_owned())
    );
    assert_eq!(
        evaluator.theme_config.get("title"),
        Some(&"First Title".to_owned())
    );
    Markdown
        .handle(&mut evaluator, &[leaf("# Second")])
        .unwrap();
    assert_eq!(
        evaluator.theme_config.get("title"),
        Some(&"First Title".to_owned())
    );
    evaluator.reset();
    assert_eq!(evaluator.theme_config.get("title"), None);
    Markdown
        .handle(&mut evaluator, &[leaf("no heading")])
        .unwrap();
    assert_eq!(evaluator.theme_config.get("title"), None);
}

#[test]
fn markdown_lets_raw_html_through() {
    let mut evaluator = Evaluator::new();
    assert_eq!(
        Markdown.handle(&mut evaluator, &[leaf("<div class=\"x\">\nin\n</div>")]),
        Ok("<div class=\"x\">\nin\n</div>".to_owned())
    );
}

#[test]
fn markdown_concatenates_its_arguments_first() {
    let mut evaluator = Evaluator::new();
    assert_eq!(
        Markdown.handle(&mut evaluator, &[leaf("*a"), leaf("b*")]),
        Ok("<p><em>ab</em></p>".to_owned())
    );
}

#[test]
fn theme_config_sets_pairs_in_order() {
    let mut evaluator = Evaluator::new();
    assert_eq!(
        ThemeConfig.handle(
            &mut evaluator,
            &[leaf("a"), leaf("1"), leaf("b"), leaf("2"), leaf("a"), leaf("3")]
        ),
        Ok("".to_owned())
    );
    assert_eq!(evaluator.theme_config.get("a"), Some(&"3".to_owned()));
    assert_eq!(evaluator.theme_config.get("b"), Some(&"2".to_owned()));
    assert_eq!(
        ThemeConfig.handle(&mut evaluator, &[leaf("a")]),
        Err(EvalError::ArityError)
    );
}

#[test]
fn toctree_adds_entries_under_the_current_page() {
    let mut evaluator = Evaluator::new();
    evaluator.set_slug(Slug::new("guide/index".to_owned()));
    assert_eq!(
        TocTree.handle(
            &mut evaluator,
            &[
                leaf("/guide/first/"),
                Node::new_children(vec![leaf("Second"), leaf("guide/second")]),
            ]
        ),
        Ok("".to_owned())
    );
    assert_eq!(evaluator.toctree.len(), 2);
    let first = evaluator.toctree.entry(0);
    assert_eq!(first.parent.as_str(), "guide/index");
    assert_eq!(first.child.as_str(), "guide/first");
    assert_eq!(first.title, None);
    let second = evaluator.toctree.entry(1);
    assert_eq!(second.child.as_str(), "guide/second");
    assert_eq!(second.title, Some("Second".to_owned()));
}

#[test]
fn toctree_keeps_the_entries_before_a_malformed_one() {
    let mut evaluator = Evaluator::new();
    assert_eq!(
        TocTree.handle(
            &mut evaluator,
            &[leaf("a"), Node::new_children(vec![leaf("only one")]), leaf("b")]
        ),
        Err(EvalError::ArityError)
    );
    assert_eq!(evaluator.toctree.len(), 1);
}

#[test]
fn heading_renders_each_level() {
    let mut evaluator = Evaluator::new();
    assert_eq!(
        Heading::new(1).handle(&mut evaluator, &[leaf("T")]),
        Ok("\n# T\n".to_owned())
    );
    assert_eq!(
        Heading::new(6).handle(&mut evaluator, &[leaf("T")]),
        Ok("\n###### T\n".to_owned())
    );
    assert!(evaluator.refdefs.get("T").is_none());
    assert_eq!(
        Heading::new(3).handle(&mut evaluator, &[leaf("a"), leaf("b"), leaf("c")]),
        Err(EvalError::ArityError)
    );
}

#[test]
fn heading_defines_a_reference_to_the_current_page() {
    let mut evaluator = Evaluator::new();
    evaluator.set_slug(Slug::new("a/page".to_owned()));
    Heading::new(2)
        .handle(&mut evaluator, &[leaf("id"), leaf("First")])
        .unwrap();
    evaluator.set_slug(Slug::new("b/page".to_owned()));
    Heading::new(2)
        .handle(&mut evaluator, &[leaf("id"), leaf("Second")])
        .unwrap();
    let def = evaluator.refdefs.get("id").unwrap();
    assert_eq!(def.title, "Second");
    assert_eq!(def.slug.as_str(), "b/page");
}

#[test]
fn ref_writes_placeholders() {
    let evaluator = Evaluator::with_prefix(42);
    let title = evaluator.get_placeholder("ab", PlaceholderAction::Title);
    let path = evaluator.get_placeholder("ab", PlaceholderAction::Path);
    assert_eq!(title, "rk42t000061000062z");
    assert_eq!(path, "rk42p000061000062z");

    let mut evaluator = evaluator;
    assert_eq!(
        RefDirective.handle(&mut evaluator, &[leaf("ab")]),
        Ok("[rk42t000061000062z](rk42p000061000062z)".to_owned())
    );
    assert_eq!(
        RefDirective.handle(&mut evaluator, &[leaf("ab"), leaf("Text")]),
        Ok("[Text](rk42p000061000062z)".to_owned())
    );
    assert_eq!(
        RefDirective.handle(&mut evaluator, &[leaf("ab"), leaf("Text"), leaf("more")]),
        Ok("[Text](rk42p000061000062z)".to_owned())
    );
    assert_eq!(RefDirective.handle(&mut evaluator, &[]), Err(EvalError::ArityError));
}

#[test]
fn steps_renders_a_numbered_list() {
    let mut evaluator = Evaluator::new();
    Define
        .handle(
            &mut evaluator,
            &[
                leaf("stored"),
                Node::new_children(vec![leaf("step"), leaf("Two"), leaf("second")]),
            ],
        )
        .unwrap();
    assert_eq!(
        Steps.handle(
            &mut evaluator,
            &[
                Node::new_children(vec![leaf("step"), leaf("One"), leaf("first")]),
                leaf("stored"),
            ]
        ),
        Ok(concat_strs(&[
            "<div class=\"steps\">",
            "<div class=\"steps__step\"><div class=\"steps__bullet\"><div class=\"steps__stepnumber\">1</div></div>",
            "<h4><p>One</p></h4><div><p>first</p></div></div>",
            "<div class=\"steps__step\"><div class=\"steps__bullet\"><div class=\"steps__stepnumber\">2</div></div>",
            "<h4><p>Two</p></h4><div><p>second</p></div></div>",
            "</div>",
        ]))
    );
    assert_eq!(Steps.handle(&mut evaluator, &[]), Ok("<div class=\"steps\"></div>".to_owned()));
}

fn concat_strs(parts: &[&str]) -> String {
    let mut out = String::new();
    for part in parts {
        out.push_str(part);
    }
    out
}

#[test]
fn steps_numbers_past_nine() {
    let mut evaluator = Evaluator::new();
    let mut args = Vec::new();
    for _ in 0..12 {
        args.push(Node::new_children(vec![leaf("s"), leaf("t"), leaf("b")]));
    }
    let out = Steps.handle(&mut evaluator, &args).unwrap();
    assert!(out.contains("<div class=\"steps__stepnumber\">10</div>"));
    assert!(out.contains("<div class=\"steps__stepnumber\">12</div>"));
    assert!(!out.contains("<div class=\"steps__stepnumber\">13</div>"));
}

#[test]
fn steps_rejects_malformed_entries() {
    let mut evaluator = Evaluator::new();
    assert_eq!(
        Steps.handle(&mut evaluator, &[leaf("unbound")]),
        Err(EvalError::UndefinedVariable)
    );
    Define
        .handle(&mut evaluator, &[leaf("text"), leaf("literal")])
        .unwrap();
    assert_eq!(
        Steps.handle(&mut evaluator, &[leaf("text")]),
        Err(EvalError::ArityError)
    );
    assert_eq!(
        Steps.handle(
            &mut evaluator,
            &[
                Node::new_children(vec![leaf("s"), leaf("t"), leaf("b")]),
                Node::new_children(vec![leaf("s"), leaf("t")]),
            ]
        ),
        Err(EvalError::ArityError)
    );
}

#[test]
fn include_evaluates_another_source() {
    let mut evaluator = Evaluator::new();
    evaluator.register("concat", Box::new(Concat));
    evaluator.register("define", Box::new(Define));
    let id = evaluator.add_file("content/guide/index.rocket");
    assert_eq!(id, 0);
    evaluator.add_source(
        "content/guide/parts/one.rocket",
        call(
            "concat",
            vec![leaf("included"), call("define", vec![leaf("seen"), leaf("yes")])],
        ),
    );
    evaluator.add_source("/abs/two.rocket", leaf("absolute"));

    let relative = Node::new(NodeValue::Owned("parts/one.rocket".to_owned()), Some(id));
    assert_eq!(
        Include.handle(&mut evaluator, &[relative]),
        Ok("included".to_owned())
    );
    assert_eq!(evaluator.lookup(&leaf(""), "seen", &[]), Ok("yes".to_owned()));

    let absolute = Node::new(NodeValue::Owned("/abs/two.rocket".to_owned()), Some(id));
    assert_eq!(
        Include.handle(&mut evaluator, &[absolute]),
        Ok("absolute".to_owned())
    );
}

#[test]
fn include_of_a_source_that_was_not_parsed_fails() {
    let mut evaluator = Evaluator::new();
    assert_eq!(
        Include.handle(&mut evaluator, &[leaf("missing.rocket")]),
        Err(EvalError::ParseError)
    );
    assert_eq!(Include.handle(&mut evaluator, &[]), Err(EvalError::ArityError));
    assert_eq!(
        Include.handle(&mut evaluator, &[leaf("a"), leaf("b")]),
        Err(EvalError::ArityError)
    );
}

#[test]
fn include_without_a_file_resolves_from_the_working_directory() {
    let mut evaluator = Evaluator::new();
    evaluator.add_source("plain.rocket", leaf("found"));
    assert_eq!(
        Include.handle(&mut evaluator, &[leaf("plain.rocket")]),
        Ok("found".to_owned())
    );
    let unknown = Node::new(NodeValue::Owned("plain.rocket".to_owned()), Some(17));
    assert_eq!(Include.handle(&mut evaluator, &[unknown]), Ok("found".to_owned()));
}

#[test]
fn import_keeps_the_bindings_and_drops_the_text() {
    let mut evaluator = Evaluator::new();
    evaluator.register("define", Box::new(Define));
    evaluator.register("concat", Box::new(Concat));
    evaluator.add_source(
        "lib.rocket",
        call(
            "concat",
            vec![leaf("noise"), call("define", vec![leaf("answer"), leaf("42")])],
        ),
    );
    assert_eq!(
        Import.handle(&mut evaluator, &[leaf("lib.rocket")]),
        Ok("".to_owned())
    );
    assert_eq!(evaluator.lookup(&leaf(""), "answer", &[]), Ok("42".to_owned()));
    assert_eq!(
        Import.handle(&mut evaluator, &[leaf("other.rocket")]),
        Err(EvalError::ParseError)
    );
}

#[test]
fn dummy_ignores_arguments_that_would_fail() {
    let mut evaluator = Evaluator::new();
    assert_eq!(
        Dummy.handle(&mut evaluator, &[call("unknown", vec![])]),
        Ok("".to_owned())
    );
}

#[test]
fn reevaluation_after_reset_is_identical() {
    let mut evaluator = Evaluator::new();
    rocket::project::register_builtins(&mut evaluator, "3.4.0");
    let page = call(
        "concat",
        vec![
            call("define", vec![leaf("name"), leaf("value")]),
            call("h2", vec![leaf("anchor"), leaf("Title")]),
            call("md", vec![leaf("Some *text* for "), call("name", vec![])]),
            call("ref", vec![leaf("anchor")]),
            call(
                "let",
                vec![Node::new_children(vec![leaf("x"), leaf("1")]), call("x", vec![])],
            ),
            call("version", vec![leaf("a.b")]),
        ],
    );
    evaluator.set_slug(Slug::new("page".to_owned()));
    let first = evaluator.evaluate(&page);
    assert!(first.is_ok());
    evaluator.reset();
    assert!(!evaluator.ctx.contains_key("name"));
    let second = evaluator.evaluate(&page);
    assert_eq!(first, second);
}

#[test]
fn reset_keeps_the_registry_and_the_references() {
    let mut evaluator = Evaluator::new();
    evaluator.register("concat", Box::new(Concat));
    evaluator.set_slug(Slug::new("p".to_owned()));
    Heading::new(1)
        .handle(&mut evaluator, &[leaf("id"), leaf("T")])
        .unwrap();
    TocTree.handle(&mut evaluator, &[leaf("child")]).unwrap();
    ThemeConfig
        .handle(&mut evaluator, &[leaf("k"), leaf("v")])
        .unwrap();
    Define
        .handle(&mut evaluator, &[leaf("var"), leaf("v")])
        .unwrap();
    evaluator.reset();
    assert!(evaluator.registry.contains_key("concat"));
    assert!(evaluator.refdefs.contains_key("id"));
    assert_eq!(evaluator.toctree.len(), 1);
    assert_eq!(evaluator.get_slug().as_str(), "p");
    assert!(!evaluator.theme_config.contains_key("k"));
    assert!(!evaluator.ctx.contains_key("var"));
}

#[test]
fn a_directive_in_the_registry_does_what_its_handler_does() {
    let mut evaluator = Evaluator::new();
    let stored = Version::new("1.2.3").directive();
    assert_eq!(
        stored.call(&mut evaluator, &[leaf("a.b")]),
        Ok("1.2".to_owned())
    );
    let stored = Concat.directive();
    assert_eq!(
        stored.call(&mut evaluator, &[leaf("a"), leaf("b")]),
        Ok("ab".to_owned())
    );
}

#[test]
fn an_eager_definition_is_frozen_and_a_lazy_one_follows() {
    let mut evaluator = Evaluator::new();
    evaluator.register("version", Box::new(Version::new("1.0")));
    Define
        .handle(&mut evaluator, &[leaf("lazy"), call("version", vec![])])
        .unwrap();
    Define
        .handle(
            &mut evaluator,
            &[leaf("evaluate"), leaf("eager"), call("version", vec![])],
        )
        .unwrap();
    evaluator.register("version", Box::new(Version::new("2.0")));
    assert_eq!(evaluator.lookup(&leaf(""), "lazy", &[]), Ok("2.0".to_owned()));
    assert_eq!(evaluator.lookup(&leaf(""), "eager", &[]), Ok("1.0".to_owned()));
}

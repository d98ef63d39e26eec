use rocket::directives::{
    Admonition, Concat, Define, DirectiveHandler, Dummy, Heading, Let, Markdown, RefDefDirective,
    Template, ThemeConfig, Version,
};
use rocket::evaluator::Evaluator;
use rocket::node::Node;
use rocket::page::Slug;

#[test]
fn test_dummy() {
    let mut evaluator = Evaluator::new();
    let handler = Dummy;

    assert_eq!(handler.handle(&mut evaluator, &[]), Ok("".to_owned()));
    assert_eq!(
        handler.handle(&mut evaluator, &[Node::new_string("")]),
        Ok("".to_owned())
    );
    assert_eq!(
        handler.handle(
            &mut evaluator,
            &[Node::new_children(vec![Node::new_string("")])]
        ),
        Ok("".to_owned())
    );
}

#[test]
fn test_version() {
    let mut evaluator = Evaluator::new();
    evaluator.register("concat", Box::new(Concat));
    let handler = Version::new("3.4.0");

    assert_eq!(handler.handle(&mut evaluator, &[]), Ok("3.4.0".to_owned()));
    assert_eq!(
        handler.handle(&mut evaluator, &[Node::new_string("")]),
        Ok("".to_owned())
    );
    assert_eq!(
        handler.handle(&mut evaluator, &[Node::new_string("x")]),
        Ok("3".to_owned())
    );
    assert_eq!(
        handler.handle(&mut evaluator, &[Node::new_string("x.y")]),
        Ok("3.4".to_owned())
    );

    assert_eq!(
        handler.handle(
            &mut evaluator,
            &[Node::new_children(vec![
                Node::new_string("concat"),
                Node::new_string("3."),
                Node::new_string("4"),
            ])]
        ),
        Ok("3.4".to_owned())
    );
}

#[test]
fn test_admonition() {
    let mut evaluator = Evaluator::new();
    let handler = Admonition::new("note", "Note");

    assert!(handler.handle(&mut evaluator, &[]).is_err());
    assert!(handler
        .handle(&mut evaluator, &[Node::new_string("foo")])
        .is_ok());
}

#[test]
fn test_concat() {
    let mut evaluator = Evaluator::new();
    evaluator.register("version", Box::new(Version::new("3.4")));
    let handler = Concat;

    assert_eq!(handler.handle(&mut evaluator, &[]), Ok("".to_owned()));
    assert_eq!(
        handler.handle(&mut evaluator, &[Node::new_string("foo")]),
        Ok("foo".to_owned())
    );
    assert_eq!(
        handler.handle(
            &mut evaluator,
            &[
                Node::new_string("foo"),
                Node::new_string("bar"),
                Node::new_string("baz")
            ]
        ),
        Ok("foobarbaz".to_owned())
    );

    assert_eq!(
        handler.handle(
            &mut evaluator,
            &[
                Node::new_children(vec![Node::new_string("version")]),
                Node::new_string("-test")
            ]
        ),
        Ok("3.4-test".to_owned())
    );
}

#[test]
fn test_markdown() {
    let mut evaluator = Evaluator::new();
    let handler = Markdown;

    assert_eq!(handler.handle(&mut evaluator, &[]), Ok("".to_owned()));
    assert_eq!(
        handler.handle(&mut evaluator, &[Node::new_string("Some *markdown* text")]),
        Ok("<p>Some <em>markdown</em> text</p>".to_owned())
    );
}

#[test]
fn test_template() {
    let mut evaluator = Evaluator::new();
    let handler = Template::new(
        r#"[${0}](https://foxquill.com${1} "${2}")"#.to_owned(),
        vec!["^.+$".to_owned(), "^/.*$".to_owned()],
    );

    assert!(handler.handle(&mut evaluator, &[]).is_err());
    assert_eq!(
        handler.handle(
            &mut evaluator,
            &[
                Node::new_string("SIMD.js Rectangle Intersection"),
                Node::new_string("/simd-rectangle-intersection/")
            ]
        ),
        Ok(
            r#"[SIMD.js Rectangle Intersection](https://foxquill.com/simd-rectangle-intersection/ "")"#
                .to_owned()
        )
    );
}

#[test]
fn test_let() {
    let mut evaluator = Evaluator::new();
    let handler = Let;

    evaluator.register("concat", Box::new(Concat));

    assert!(handler.handle(&mut evaluator, &[]).is_err());
    let result = handler.handle(
        &mut evaluator,
        &[
            Node::new_children(vec![
                Node::new_string("foo"),
                Node::new_children(vec![
                    Node::new_string("concat"),
                    Node::new_string("1"),
                    Node::new_string("2"),
                ]),
                Node::new_string("bar"),
                Node::new_string("3"),
            ]),
            Node::new_children(vec![Node::new_string("foo")]),
            Node::new_children(vec![Node::new_string("bar")]),
        ],
    );

    assert_eq!(result, Ok("123".to_owned()));
}

#[test]
fn test_define() {
    let mut evaluator = Evaluator::new();
    evaluator.register("concat", Box::new(Concat));
    let handler = Define;

    assert_eq!(
        handler.handle(
            &mut evaluator,
            &[Node::new_string("foo"), Node::new_string("foo")]
        ),
        Ok("".to_owned())
    );

    assert!(handler.handle(&mut evaluator, &[]).is_err());
    assert_eq!(
        handler.handle(
            &mut evaluator,
            &[
                Node::new_string("x"),
                Node::new_children(vec![
                    Node::new_string("concat"),
                    Node::new_children(vec![Node::new_string("foo")]),
                    Node::new_string("bar"),
                ])
            ]
        ),
        Ok("".to_owned())
    );

    assert_eq!(
        handler.handle(
            &mut evaluator,
            &[Node::new_string("foo"), Node::new_string("bar")]
        ),
        Ok("".to_owned())
    );

    assert_eq!(
        handler.handle(
            &mut evaluator,
            &[
                Node::new_string("evaluate"),
                Node::new_string("eager"),
                Node::new_children(vec![Node::new_string("x")])
            ]
        ),
        Ok("".to_owned())
    );

    assert_eq!(
        evaluator
            .lookup(&Node::new_string(""), "x", &vec![])
            .unwrap(),
        "barbar".to_owned()
    );

    assert_eq!(
        evaluator
            .lookup(&Node::new_string(""), "eager", &vec![])
            .unwrap(),
        "barbar".to_owned()
    );

    assert_eq!(
        evaluator
            .lookup(&Node::new_string(""), "foo", &vec![])
            .unwrap(),
        "bar".to_owned()
    );

    // Now change foo to make sure x changes but eager does not
    assert_eq!(
        handler.handle(
            &mut evaluator,
            &[Node::new_string("foo"), Node::new_string("baz")]
        ),
        Ok("".to_owned())
    );

    assert_eq!(
        evaluator
            .lookup(&Node::new_string(""), "x", &vec![])
            .unwrap(),
        "bazbar".to_owned()
    );

    assert_eq!(
        evaluator
            .lookup(&Node::new_string(""), "eager", &vec![])
            .unwrap(),
        "barbar".to_owned()
    );
}

#[test]
fn test_theme_config() {
    let mut evaluator = Evaluator::new();
    let handler = ThemeConfig;

    assert_eq!(handler.handle(&mut evaluator, &[]), Ok("".to_owned()));
    assert_eq!(
        handler.handle(
            &mut evaluator,
            &[Node::new_string("foo"), Node::new_string("bar")]
        ),
        Ok("".to_owned())
    );
    assert_eq!(
        evaluator.theme_config.get("foo"),
        Some(&"bar".to_owned())
    );
}

#[test]
fn test_heading() {
    let mut evaluator = Evaluator::new();
    evaluator.set_slug(Slug::new("index".to_owned()));
    let handler = Heading::new(2);

    assert!(handler.handle(&mut evaluator, &[]).is_err());
    assert_eq!(
        handler.handle(
            &mut evaluator,
            &[Node::new_string("a-title"), Node::new_string("A Title")]
        ),
        Ok("\n## A Title\n".to_owned())
    );
    assert_eq!(
        evaluator.refdefs.get("a-title").unwrap().title,
        "A Title".to_owned()
    );
}

#[test]
fn test_refdef() {
    let mut evaluator = Evaluator::new();
    evaluator.set_slug(Slug::new("index".to_owned()));
    let handler = RefDefDirective;

    assert!(handler.handle(&mut evaluator, &[]).is_err());
    assert!(handler
        .handle(&mut evaluator, &[Node::new_string("a-title")])
        .is_err());
    assert_eq!(
        handler.handle(
            &mut evaluator,
            &[Node::new_string("a-title"), Node::new_string("A Title")]
        ),
        Ok(String::new())
    );
    assert_eq!(
        evaluator.refdefs.get("a-title").unwrap().title,
        "A Title".to_owned()
    );
}

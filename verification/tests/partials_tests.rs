use ramhorns::Content;
use ramhorns::Error;
use ramhorns::Partials;
use ramhorns::Property;
use ramhorns::Template;

#[test]
fn simple_partials() {
    let mut tpls = Partials::new();
    tpls.insert("<h1>Head</h1>", "head.html").unwrap();
    tpls.insert("<head>{{>head.html}}</head>", "layout.html").unwrap();

    let tpl = tpls.get("layout.html").unwrap();
    let html = tpl.render(&Content::Str(String::new()));

    assert_eq!(html, "<head><h1>Head</h1></head>");
}

#[test]
fn partials_are_disabled_on_bare_templates() {
    let tpl1 = Template::new("<div>{{>templates/layout.html}}</div>");

    if let Err(Error::PartialsDisabled) = tpl1 {
    } else {
        panic!("Partials loaded while parsing from &str");
    }
}

#[test]
fn missing_partial_is_not_found() {
    let mut tpls = Partials::new();
    let result = tpls.insert("<div>{{>missing.html}}</div>", "page.html");
    match result {
        Err(Error::NotFound(name)) => assert_eq!(name, "missing.html"),
        other => panic!("expected a not-found error, got {:?}", other),
    }
}

#[test]
fn partials_inline_rendered_fields() {
    let mut tpls = Partials::new();
    tpls.insert("<article>{{title}}</article>", "post.html").unwrap();
    tpls.insert(
        "<body>{{#posts}}{{>post.html}}{{/posts}}</body>",
        "page.html",
    )
    .unwrap();

    let page = tpls.get("page.html").unwrap();
    let value = Content::Record(vec![Property::new(
        "posts",
        Content::List(vec![
            Content::Record(vec![Property::new("title", Content::Str("A".into()))]),
            Content::Record(vec![Property::new("title", Content::Str("B".into()))]),
        ]),
    )]);

    assert_eq!(
        page.render(&value),
        "<body><article>A</article><article>B</article></body>"
    );
}

#[test]
fn partial_capacity_adds_up() {
    let mut tpls = Partials::new();
    tpls.insert("aaaa", "a.html").unwrap();
    tpls.insert("bb{{>a.html}}bb", "b.html").unwrap();

    let b = tpls.get("b.html").unwrap();
    assert_eq!(b.capacity_hint(), 8);
}

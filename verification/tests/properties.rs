use ramhorns::encoding::write_escaped;
use ramhorns::template::Block;
use ramhorns::template::Index;
use ramhorns::template::Indexed;
use ramhorns::template::Tag;
use ramhorns::encoding::write_unescaped;
use ramhorns::Content;
use ramhorns::Property;
use ramhorns::Template;

fn rec(fields: Vec<(&str, Content)>) -> Content {
    Content::Record(fields.into_iter().map(|(n, v)| Property::new(n, v)).collect())
}

fn s(x: &str) -> Content {
    Content::Str(x.to_string())
}

#[test]
fn static_text_round_trips() {
    let source = "just some <b>text</b> } with a stray { brace";
    let tpl = Template::new(source).unwrap();
    assert_eq!(tpl.render(&Content::Null), source);
    assert_eq!(tpl.capacity_hint(), source.len());
}

#[test]
fn escaping_correctness() {
    let tpl = Template::new("{{text}}").unwrap();
    let escaped = tpl.render(&rec(vec![("text", s("This is a <strong>test</strong>!"))]));
    assert_eq!(escaped, "This is a &lt;strong&gt;test&lt;/strong&gt;!");

    let tpl = Template::new("{{{text}}}").unwrap();
    let raw = tpl.render(&rec(vec![("text", s("This is a <strong>test</strong>!"))]));
    assert_eq!(raw, "This is a <strong>test</strong>!");

    let mut buf = String::new();
    write_escaped(&mut buf, "a<b>&\"c\u{e9}");
    assert_eq!(buf, "a&lt;b&gt;&amp;&quot;c\u{e9}");

    let mut buf = String::new();
    write_unescaped(&mut buf, "a<b>&\"c");
    assert_eq!(buf, "a<b>&\"c");
}

#[test]
fn section_cardinality() {
    let tpl = Template::new("{{#items}}x{{/items}}").unwrap();

    let none = tpl.render(&rec(vec![("items", Content::List(vec![]))]));
    assert_eq!(none, "");

    let three = tpl.render(&rec(vec![(
        "items",
        Content::List(vec![Content::Null, Content::Null, Content::Null]),
    )]));
    assert_eq!(three, "xxx");

    let tpl = Template::new("{{#items}}{{name}};{{/items}}").unwrap();
    let each = tpl.render(&rec(vec![(
        "items",
        Content::List(vec![
            rec(vec![("name", s("a"))]),
            rec(vec![("name", s("b"))]),
            rec(vec![("name", s("c"))]),
        ]),
    )]));
    assert_eq!(each, "a;b;c;");
}

#[test]
fn inverse_semantics() {
    let tpl = Template::new("{{^v}}once{{/v}}").unwrap();

    assert_eq!(tpl.render(&rec(vec![("v", s(""))])), "once");
    assert_eq!(tpl.render(&rec(vec![("v", Content::Bool(false))])), "once");
    assert_eq!(tpl.render(&rec(vec![("v", Content::Null)])), "once");
    assert_eq!(tpl.render(&rec(vec![("v", Content::List(vec![]))])), "once");
    assert_eq!(tpl.render(&rec(vec![])), "once");

    assert_eq!(tpl.render(&rec(vec![("v", s("yes"))])), "");
    assert_eq!(tpl.render(&rec(vec![("v", Content::Bool(true))])), "");
    assert_eq!(
        tpl.render(&rec(vec![("v", Content::List(vec![Content::Null]))])),
        ""
    );
}

#[test]
fn ancestor_fallback() {
    let tpl = Template::new("{{#b}}{{#c}}{{x}}{{/c}}{{/b}}").unwrap();
    let value = rec(vec![
        ("x", s("from-a")),
        ("b", rec(vec![("c", rec(vec![("inner", s("unused"))]))])),
    ]);
    assert_eq!(tpl.render(&value), "from-a");
}

#[test]
fn end_to_end_example() {
    let source = "<h1>{{title}}</h1>{{#posts}}<p>{{title}}</p>{{/posts}}{{^posts}}<i>none</i>{{/posts}}";
    let tpl = Template::new(source).unwrap();

    let with_posts = rec(vec![
        ("title", s("Blog")),
        (
            "posts",
            Content::List(vec![
                rec(vec![("title", s("A"))]),
                rec(vec![("title", s("B"))]),
            ]),
        ),
    ]);
    assert_eq!(tpl.render(&with_posts), "<h1>Blog</h1><p>A</p><p>B</p>");

    let without_posts = rec(vec![("title", s("Blog")), ("posts", Content::List(vec![]))]);
    assert_eq!(tpl.render(&without_posts), "<h1>Blog</h1><i>none</i>");
}

#[test]
fn lookup_horizon_is_four_scopes() {
    // The ancestor ring keeps the nearest four scopes: a name defined five
    // levels up is no longer reachable.
    let tpl =
        Template::new("{{#b}}{{#c}}{{#d}}{{#e}}{{x}}{{/e}}{{/d}}{{/c}}{{/b}}").unwrap();
    let value = rec(vec![
        ("x", s("root")),
        (
            "b",
            rec(vec![(
                "c",
                rec(vec![("d", rec(vec![("e", rec(vec![("y", s("leaf"))]))]))]),
            )]),
        ),
    ]);
    assert_eq!(tpl.render(&value), "");
}

#[test]
fn indexed_sections_pick_elements() {
    let tpl = Template::new(
        "{{#person}}{{^-last}}{{name}}, {{/-last}}{{#-last}}{{name}}{{/-last}}{{/person}}",
    )
    .unwrap();
    let value = rec(vec![(
        "person",
        Content::List(vec![
            rec(vec![("name", s("a"))]),
            rec(vec![("name", s("b"))]),
            rec(vec![("name", s("c"))]),
        ]),
    )]);
    assert_eq!(tpl.render(&value), "a, b, c");
}

#[test]
fn numbers_and_bools_render_in_decimal() {
    let tpl = Template::new("{{u}} {{i}} {{b}}").unwrap();
    let value = rec(vec![
        ("u", Content::Unsigned(18446744073709551615)),
        ("i", Content::Signed(i64::MIN)),
        ("b", Content::Bool(false)),
    ]);
    assert_eq!(
        tpl.render(&value),
        "18446744073709551615 -9223372036854775808 false"
    );
}

#[test]
fn capacity_hint_counts_static_bytes() {
    let tpl = Template::new("<b>{{x}}</b>").unwrap();
    assert_eq!(tpl.capacity_hint(), "<b></b>".len());
}

#[test]
fn markdown_transform() {
    let mut out = String::new();
    ramhorns::cmark::encode("This is *the* __body__!", &mut out);
    assert_eq!(out, "<p>This is <em>the</em> <strong>body</strong>!</p>\n");
}

#[test]
fn only_expected_braces_are_consumed() {
    // `{{a}}}` does not consume the third brace...
    let tpl = Template::new("x{{a}}}").unwrap();
    assert_eq!(tpl.render(&rec(vec![("a", s("V"))])), "xV}");

    // ...while `{{{a}}}` consumes exactly three, leaving the fourth.
    let tpl = Template::new("x{{{a}}}}").unwrap();
    assert_eq!(tpl.render(&rec(vec![("a", s("V"))])), "xV}");
}

#[test]
fn chained_names_enter_nested_scopes() {
    // `{{a b}}` is sugar for entering scope `a` and rendering field `b`.
    let tpl = Template::new("{{a b}}").unwrap();
    let value = rec(vec![("a", rec(vec![("b", s("deep"))]))]);
    assert_eq!(tpl.render(&value), "deep");
}

#[test]
fn index_numbers_accept_a_leading_plus() {
    // `str`-style number parsing: `+1` reads as index 1.
    let tpl = Template::new("{{#-+1}}x{{/-+1}}").unwrap();
    assert_eq!(
        tpl.blocks[0],
        {
            let mut b = Block::new("", "-+1", Tag::Indexed(Indexed::Include(Index::Nth(1))));
            b.children = 1;
            b
        }
    );

    let tpl =
        Template::new("{{#items}}{{#-+1}}{{name}}{{/-+1}}{{/items}}").unwrap();
    let value = rec(vec![(
        "items",
        Content::List(vec![
            rec(vec![("name", s("a"))]),
            rec(vec![("name", s("b"))]),
            rec(vec![("name", s("c"))]),
        ]),
    )]);
    assert_eq!(tpl.render(&value), "b");
}

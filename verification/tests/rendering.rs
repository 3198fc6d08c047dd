use ramhorns::Content;
use ramhorns::Property;
use ramhorns::Template;

fn rec(fields: Vec<(&str, Content)>) -> Content {
    Content::Record(fields.into_iter().map(|(n, v)| Property::new(n, v)).collect())
}

fn s(x: &str) -> Content {
    Content::Str(x.to_string())
}

fn post(title: &str, body: &str) -> Content {
    rec(vec![("title", s(title)), ("body", s(body))])
}

#[test]
fn simple_render() {
    let source = "<title>{{title}}</title><h1>{{ title }}</h1><div>{{body}}</div>";
    let tpl = Template::new(source).unwrap();

    let rendered = tpl.render(&post(
        "Hello, Ramhorns!",
        "This is a really simple test of the rendering!",
    ));

    assert_eq!(
        &rendered,
        "<title>Hello, Ramhorns!</title><h1>Hello, Ramhorns!</h1>\
         <div>This is a really simple test of the rendering!</div>"
    );
}

#[test]
fn simple_render_hash_map() {
    let source = "<title>{{title}}</title><h1>{{ title }}</h1><div>{{body}}</div>";
    let tpl = Template::new(source).unwrap();

    let map = rec(vec![
        ("title", s("Hello, Ramhorns!")),
        (
            "body",
            s("This is a test of rendering a template with a HashMap Content!"),
        ),
    ]);

    let rendered = tpl.render(&map);

    assert_eq!(
        &rendered,
        "<title>Hello, Ramhorns!</title><h1>Hello, Ramhorns!</h1>\
         <div>This is a test of rendering a template with a HashMap Content!</div>"
    );
}

#[test]
fn simple_render_btree_map() {
    let source = "<title>{{title}}</title><h1>{{ title }}</h1><div>{{body}}</div>";
    let tpl = Template::new(source).unwrap();

    let map = rec(vec![
        ("title", s("Hello, Ramhorns!")),
        (
            "body",
            s("This is a test of rendering a template with a BTreeMap Content!"),
        ),
    ]);

    let rendered = tpl.render(&map);

    assert_eq!(
        &rendered,
        "<title>Hello, Ramhorns!</title><h1>Hello, Ramhorns!</h1>\
         <div>This is a test of rendering a template with a BTreeMap Content!</div>"
    );
}

#[test]
fn main_simple_render_with_comments() {
    let source = "<title>{{ ! ignore me }}{{title}}</title>{{!-- nothing to look at here --}}<h1>{{ title }}</h1><div>{{body}}</div>";
    let tpl = Template::new(source).unwrap();

    let rendered = tpl.render(&post(
        "Hello, Ramhorns!",
        "This is a really simple test of the rendering!",
    ));

    assert_eq!(
        &rendered,
        "<title>Hello, Ramhorns!</title><h1>Hello, Ramhorns!</h1>\
         <div>This is a really simple test of the rendering!</div>"
    );
}

#[test]
fn main_escaped_vs_unescaped() {
    let tpl = Template::new("Escaped: {{dummy}} Unescaped: {{{dummy}}}").unwrap();

    let rendered = tpl.render(&rec(vec![("dummy", s("This is a <strong>test</strong>!"))]));

    assert_eq!(
        rendered,
        "Escaped: This is a &lt;strong&gt;test&lt;/strong&gt;! \
         Unescaped: This is a <strong>test</strong>!"
    );
}

#[test]
fn escaped_vs_unescaped_ampersand() {
    let tpl = Template::new("Escaped: {{dummy}} Unescaped: {{& dummy}}").unwrap();

    let rendered = tpl.render(&rec(vec![("dummy", s("This is a <strong>test</strong>!"))]));

    assert_eq!(
        rendered,
        "Escaped: This is a &lt;strong&gt;test&lt;/strong&gt;! \
         Unescaped: This is a <strong>test</strong>!"
    );
}

#[test]
fn handles_tuple_structs() {
    let tpl = Template::new("{{1}} {{2}} {{0}}").unwrap();

    let rendered = tpl.render(&rec(vec![
        ("0", s("zero")),
        ("1", s("one")),
        ("2", s("two")),
    ]));

    assert_eq!(rendered, "one two zero");
}

#[test]
fn handles_unit_structs() {
    let tpl = Template::new("This is pretty silly, but why not?").unwrap();

    let rendered = tpl.render(&rec(vec![]));

    assert_eq!(rendered, "This is pretty silly, but why not?");
}

#[test]
fn simple_render_with_strings() {
    let source = "<title>{{title}}</title><h1>{{ title }}</h1><div>{{body}}</div>";
    let tpl = Template::new(source).unwrap();

    let rendered = tpl.render(&post(
        "Hello, Ramhorns!",
        "This is a really simple test of the rendering!",
    ));

    assert_eq!(
        &rendered,
        "<title>Hello, Ramhorns!</title><h1>Hello, Ramhorns!</h1>\
         <div>This is a really simple test of the rendering!</div>"
    );
}

#[test]
fn simple_render_different_types() {
    let source = "The meaning of life is {{meaning}}? {{truth}}!";
    let tpl = Template::new(source).unwrap();

    let correct = tpl.render(&rec(vec![
        ("meaning", Content::Signed(42)),
        ("truth", Content::Bool(true)),
    ]));

    let incorrect = tpl.render(&rec(vec![
        ("meaning", Content::Signed(-9001)),
        ("truth", Content::Bool(false)),
    ]));

    assert_eq!(&correct, "The meaning of life is 42? true!");
    assert_eq!(&incorrect, "The meaning of life is -9001? false!");
}

#[test]
fn can_render_sections_from_bool() {
    let tpl = Template::new("Hello!{{#secret}} This is a secret!{{/secret}}").unwrap();

    let show = tpl.render(&rec(vec![("secret", Content::Bool(true))]));
    let hide = tpl.render(&rec(vec![("secret", Content::Bool(false))]));

    assert_eq!(show, "Hello! This is a secret!");
    assert_eq!(hide, "Hello!");
}

#[test]
fn can_render_inverse_sections_from_bool() {
    let tpl = Template::new("Hello!{{^secret}} This is NOT a secret!{{/secret}}").unwrap();

    let show = tpl.render(&rec(vec![("secret", Content::Bool(true))]));
    let hide = tpl.render(&rec(vec![("secret", Content::Bool(false))]));

    assert_eq!(show, "Hello!");
    assert_eq!(hide, "Hello! This is NOT a secret!");
}

#[test]
fn can_render_inverse_sections_for_empty_strs() {
    let tpl = Template::new("Hello {{name}}{{^name}}Anonymous{{/name}}!").unwrap();

    let named = tpl.render(&rec(vec![("name", s("Maciej"))]));
    let unnamed = tpl.render(&rec(vec![("name", s(""))]));

    assert_eq!(named, "Hello Maciej!");
    assert_eq!(unnamed, "Hello Anonymous!");
}

#[test]
fn can_render_lists_from_slices() {
    let tpl = Template::new(
        "<h1>{{title}}</h1>\
         {{#articles}}<article>{{title}}</article>{{/articles}}\
         {{^articles}}<p>No articles :(</p>{{/articles}}",
    )
    .unwrap();

    let blog = tpl.render(&rec(vec![
        ("title", s("Awesome Blog")),
        (
            "articles",
            Content::List(vec![
                rec(vec![("title", s("How is Ramhorns this fast?"))]),
                rec(vec![("title", s("Look at that cat pic!"))]),
                rec(vec![("title", s("Hello World!"))]),
            ]),
        ),
    ]));

    let empty = tpl.render(&rec(vec![
        ("title", s("Sad page :(")),
        ("articles", Content::List(vec![])),
    ]));

    assert_eq!(
        blog,
        "<h1>Awesome Blog</h1>\
         <article>How is Ramhorns this fast?</article>\
         <article>Look at that cat pic!</article>\
         <article>Hello World!</article>"
    );

    assert_eq!(
        empty,
        "<h1>Sad page :(</h1>\
         <p>No articles :(</p>"
    );
}

#[test]
fn can_render_lists_from_vecs() {
    let tpl = Template::new(
        "<h1>{{title}}</h1>\
         {{#articles}}<article>{{title}}</article>{{/articles}}\
         {{^articles}}<p>No articles :(</p>{{/articles}}",
    )
    .unwrap();

    let blog = tpl.render(&rec(vec![
        ("title", s("Awesome Blog")),
        (
            "articles",
            Content::List(vec![
                rec(vec![("title", s("How is Ramhorns this fast?"))]),
                rec(vec![("title", s("Look at that cat pic!"))]),
                rec(vec![("title", s("Hello World!"))]),
            ]),
        ),
    ]));

    let empty = tpl.render(&rec(vec![
        ("title", s("Sad page :(")),
        ("articles", Content::List(vec![])),
    ]));

    assert_eq!(
        blog,
        "<h1>Awesome Blog</h1>\
         <article>How is Ramhorns this fast?</article>\
         <article>Look at that cat pic!</article>\
         <article>Hello World!</article>"
    );

    assert_eq!(
        empty,
        "<h1>Sad page :(</h1>\
         <p>No articles :(</p>"
    );
}

#[test]
fn can_render_nested_generic_types() {
    let tpl = Template::new(
        "\
        {{#contents}}\
        <h1>{{title}}</h1>\
        <article>{{body}}</article>\
        {{/contents}}\
        <p>{{last_updated}}</p>",
    )
    .unwrap();

    let html = tpl.render(&rec(vec![
        ("last_updated", s("yesterday")),
        (
            "contents",
            rec(vec![("title", s("Jam")), ("body", s("This is an article body"))]),
        ),
    ]));

    assert_eq!(
        html,
        "<h1>Jam</h1><article>This is an article body</article><p>yesterday</p>"
    )
}

#[test]
fn can_reference_parent_content() {
    let tpl = Template::new(
        "<h1>Grandpa</h1><p>He's got a son.{{#son}} He's got another son.{{#grandson}}
        His favourite language is {{favourite_lang}}. People call his father {{title}} and his grandfather {{name}}.
        Grandpa's hobbies are: <ul>{{#hobbies}}<li>{{hobby}}</li>{{/hobbies}}</ul>{{/grandson}}{{/son}}</p>").unwrap();

    let html = tpl.render(&rec(vec![
        ("name", s("Jan")),
        (
            "son",
            rec(vec![
                ("title", s("Sir")),
                (
                    "grandson",
                    rec(vec![("favourite_lang", s("Rust"))]),
                ),
            ]),
        ),
        (
            "hobbies",
            Content::List(vec![
                rec(vec![("hobby", s("watching ducks"))]),
                rec(vec![("hobby", s("petang"))]),
            ]),
        ),
    ]));

    assert_eq!(html, "<h1>Grandpa</h1><p>He\'s got a son. He\'s got another son.\n        His favourite language is Rust. People call his father Sir and his grandfather Jan.\n        Grandpa\'s hobbies are: <ul><li>watching ducks</li><li>petang</li></ul></p>");
}

#[test]
fn can_render_self_referencing_structures() {
    let tpl = Template::new("{{name}}: {{#subpages}}{{name}}{{/subpages}}").unwrap();

    let rendered = tpl.render(&rec(vec![
        ("name", s("Hello")),
        (
            "subpages",
            Content::List(vec![
                rec(vec![("name", s("Foo")), ("subpages", Content::List(vec![]))]),
                rec(vec![("name", s("Bar")), ("subpages", Content::List(vec![]))]),
            ]),
        ),
    ]));

    assert_eq!(rendered, "Hello: FooBar");
}

#[test]
fn can_render_fields_from_parents() {
    let tpl = Template::new("{{#son}}{{name}}'s father is {{father}}.{{/son}}").unwrap();

    let rendered = tpl.render(&rec(vec![
        ("father", s("Bob")),
        ("son", rec(vec![("name", s("Charlie"))])),
    ]));

    assert_eq!(rendered, "Charlie's father is Bob.");
}

#[test]
fn struct_with_many_types() {
    let tpl = Template::new("This requires nothing but {{name}}.").unwrap();

    let rendered = tpl.render(&rec(vec![
        ("name", s("Name")),
        ("size", Content::Unsigned(1)),
        ("position", Content::Signed(2)),
        ("tags", Content::List(vec![s("tag1"), s("tag2")])),
        ("nickname", s("nick")),
        (
            "children",
            Content::List(vec![rec(vec![
                ("name", s("Child")),
                ("size", Content::Unsigned(0)),
                ("position", Content::Signed(3)),
                ("tags", Content::List(vec![])),
                ("nickname", Content::Null),
                ("children", Content::List(vec![])),
            ])]),
        ),
    ]));

    assert_eq!(rendered, "This requires nothing but Name.");
}

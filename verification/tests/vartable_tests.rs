use ramhorns::hash;
use ramhorns::vartable::Template;
use ramhorns::hash_name;
use ramhorns::vartable::Field;
use ramhorns::vartable::VKind;
use ramhorns::vartable::VarTable;
use ramhorns::vartable::VarTableRecord;
use ramhorns::vartable::Variable;

#[test]
fn var_table_record_hashes_correctly() {
    assert_eq!(
        Variable::new(VKind::Escaped, "test", 42),
        Variable {
            kind: VKind::Escaped,
            name: String::from("test"),
            hash: 0xf9e6e6ef197c2b25,
            field: 42,
        }
    );
}

#[test]
fn template_var_table_record_hashes_correctly() {
    assert_eq!(
        VarTableRecord::new("test", 42),
        VarTableRecord {
            name: String::from("test"),
            hash: 0xf9e6e6ef197c2b25,
            field: 42,
        }
    );
}

#[test]
fn template_constructs_var_table_correctly() {
    let names = vec![
        String::from("title"),
        String::from("title"),
        String::from("body"),
    ];
    let table = VarTable::from_names(&names);

    assert_eq!(
        table.table,
        vec![
            VarTableRecord::new("title", 1), // Names are sorted alphabetically, so all
            VarTableRecord::new("title", 1), // `title` entries map to field 1, while
            VarTableRecord::new("body", 0),  // all `body` entries map to field 0.
        ]
    );
}

#[test]
fn extracts_chunks_correctly() {
    let source = "<title>{{title}}</title><h1>{{ title }}</h1><div>{{{body}}}</div>";
    let tpl = Template::new(source);

    assert_eq!(
        &tpl.chunks,
        &["<title>", "</title><h1>", "</h1><div>", "</div>"]
    );
}

#[test]
fn template_extracts_chunks_correctly() {
    let source = "<title>{{title}}</title><h1>{{ title }}</h1><div>{{body}}</div>";
    let tpl = Template::new(source);

    assert_eq!(
        &tpl.chunks,
        &["<title>", "</title><h1>", "</h1><div>", "</div>"]
    );
}

#[test]
fn constructs_var_table_correctly() {
    let source = "<title>{{title}}</title><h1>{{ title }}</h1><div>{{{body}}}</div>";
    let tpl = Template::new(source);

    assert_eq!(
        &tpl.vtable,
        &[
            Variable::new(VKind::Escaped, "title", 1), // Names are sorted alphabeticaly, so all
            Variable::new(VKind::Escaped, "title", 1), // `title` entries map to field 1, while
            Variable::new(VKind::Unescaped, "body", 0), // all `body` entries map to field 0.
        ]
    );
}

#[test]
fn template_simple_render() {
    let source = "<title>{{title}}</title><h1>{{ title }}</h1><div>{{body}}</div>";
    let tpl = Template::new(source);

    let fields = [
        Field::from_name("body", "This is a really simple test of the rendering!"),
        Field::from_name("title", "Hello, Ramhorns!"),
    ];
    let rendered = tpl.render(&fields);

    assert_eq!(
        &rendered,
        "<title>Hello, Ramhorns!</title><h1>Hello, Ramhorns!</h1>\
         <div>This is a really simple test of the rendering!</div>"
    );
}

#[test]
fn template_simple_render_with_comments() {
    let source = "<title>{{ ! ignore me }}{{title}}</title>{{!-- nothing to look at here --}}<h1>{{ title }}</h1><div>{{body}}</div>";
    let tpl = Template::new(source);

    let fields = [
        Field::from_name("body", "This is a really simple test of the rendering!"),
        Field::from_name("title", "Hello, Ramhorns!"),
    ];
    let rendered = tpl.render(&fields);

    assert_eq!(
        &rendered,
        "<title>Hello, Ramhorns!</title><h1>Hello, Ramhorns!</h1>\
         <div>This is a really simple test of the rendering!</div>"
    );
}

#[test]
fn template_escaped_vs_unescaped() {
    let tpl = Template::new("Escaped: {{dummy}} Unescaped: {{{dummy}}}");

    let fields = [Field::from_name("dummy", "This is a <strong>test</strong>!")];
    let rendered = tpl.render(&fields);

    assert_eq!(
        rendered,
        "Escaped: This is a &lt;strong&gt;test&lt;/strong&gt;! \
         Unescaped: This is a <strong>test</strong>!"
    );
}

#[test]
fn fnv_hash_values() {
    assert_eq!(hash("test"), 0xf9e6e6ef197c2b25);
    assert_eq!(hash(""), 0xcbf29ce484222325);
    assert_eq!(hash_name("test"), 2271575940368597870);
}

#[test]
fn field_carries_name_hash() {
    let by_hash = Field::new(hash("body"), "text");
    let by_name = Field::from_name("body", "text");
    assert_eq!(by_hash.hash, by_name.hash);
    assert_eq!(by_hash.value, "text");
    assert_eq!(by_name.value, "text");
}

#[test]
fn names_are_trimmed_of_unicode_whitespace() {
    let tpl = Template::new("a{{ \u{a0}x\u{a0} }}b");

    assert_eq!(&tpl.chunks, &["a", "b"]);
    assert_eq!(&tpl.vtable, &[Variable::new(VKind::Escaped, "x", 0)]);

    let fields = [Field::from_name("x", "X")];
    assert_eq!(tpl.render(&fields), "aXb");
}

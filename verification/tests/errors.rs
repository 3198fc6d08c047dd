use ramhorns::Error;
use ramhorns::Template;

#[test]
fn displays_properly() {
    assert_eq!(
        Error::UnclosedSection("foo".into()).message(),
        "Section not closed properly, was expecting {{/foo}}"
    );
    assert_eq!(
        Error::UnclosedTag.message(),
        "Couldn't find closing braces matching opening braces"
    );
}

#[test]
fn mismatched_section_error_names_the_opener() {
    let result = Template::new("{{#foo}}...{{/bar}}");
    match result {
        Err(Error::UnclosedSection(name)) => assert_eq!(name, "foo"),
        other => panic!("expected an unclosed-section error, got {:?}", other),
    }
}

#[test]
fn unopened_section_error_names_the_closer() {
    let result = Template::new("text{{/bar}}");
    match result {
        Err(Error::UnopenedSection(name)) => assert_eq!(name, "bar"),
        other => panic!("expected an unopened-section error, got {:?}", other),
    }
}

#[test]
fn dangling_section_at_end_of_input_is_an_error() {
    let result = Template::new("{{#foo}}body with no close");
    match result {
        Err(Error::UnclosedSection(name)) => assert_eq!(name, "foo"),
        other => panic!("expected an unclosed-section error, got {:?}", other),
    }
}

#[test]
fn unclosed_tag_is_an_error() {
    assert_eq!(Template::new("a{{foo"), Err(Error::UnclosedTag));
    assert_eq!(Template::new("a{{}}"), Err(Error::UnclosedTag));
    assert_eq!(Template::new("a{{{foo}}"), Err(Error::UnclosedTag));
}

#[test]
fn nesting_overflows_the_parse_stack_at_seventeen() {
    let mut deep = String::new();
    for i in 0..17 {
        deep.push_str(&format!("{{{{#s{}}}}}", i));
    }
    for i in (0..17).rev() {
        deep.push_str(&format!("{{{{/s{}}}}}", i));
    }
    assert_eq!(Template::new(&deep), Err(Error::StackOverflow));

    let mut ok = String::new();
    for i in 0..16 {
        ok.push_str(&format!("{{{{#s{}}}}}", i));
    }
    for i in (0..16).rev() {
        ok.push_str(&format!("{{{{/s{}}}}}", i));
    }
    assert!(Template::new(&ok).is_ok());
}

#[test]
fn index_parse_error() {
    let result = Template::new("{{#-wat}}x{{/-wat}}");
    match result {
        Err(Error::IndexParse(text)) => assert_eq!(text, "wat"),
        other => panic!("expected an index-parse error, got {:?}", other),
    }
    assert_eq!(
        Error::IndexParse("wat".into()).message(),
        "Failed to parse index wat"
    );
}

#[test]
fn remaining_error_messages() {
    assert_eq!(
        Error::StackOverflow.message(),
        "Ramhorns has overflown its stack when parsing nested sections"
    );
    assert_eq!(
        Error::UnopenedSection("foo".into()).message(),
        "Unexpected closing section {{/foo}}"
    );
    assert_eq!(
        Error::PartialsDisabled.message(),
        "Partials are not allowed in the current context"
    );
    assert_eq!(
        Error::IllegalPartial("../secret".into()).message(),
        "Attempted to load ../secret; partials can only be loaded from the template directory"
    );
    assert_eq!(
        Error::NotFound("head.html".into()).message(),
        "Template file head.html not found"
    );
}

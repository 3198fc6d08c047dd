use ramhorns::template::variables::Variables;
use ramhorns::template::Block;
use ramhorns::template::Braces;
use ramhorns::template::Index;
use ramhorns::template::Indexed;
use ramhorns::template::Tag;
use ramhorns::Template;

fn with_children(mut b: Block, children: usize) -> Block {
    b.children = children;
    b
}

#[test]
fn template_from_string_is_static() {
    let owned = String::from("Ramhorns");
    let tpl = Template::new(&owned).unwrap();

    assert_eq!(tpl.source(), "Ramhorns");
}

#[test]
fn block_hashes_correctly() {
    assert_eq!(
        Block::new("", "test", Tag::Escaped),
        Block {
            html: String::new(),
            name: String::from("test"),
            hash: 2271575940368597870,
            tag: Tag::Escaped,
            children: 0,
        }
    );
}

#[test]
fn constructs_blocks_correctly() {
    let source = "<title>{{title}}</title><h1>{{title}}</h1><div>{{{body}}}</div>";
    let tpl = Template::new(source).unwrap();

    assert_eq!(
        &tpl.blocks,
        &[
            Block::new("<title>", "title", Tag::Escaped),
            Block::new("</title><h1>", "title", Tag::Escaped),
            Block::new("</h1><div>", "body", Tag::Unescaped),
            Block::nameless("</div>", Tag::Tail),
        ]
    );
}

#[test]
fn blocks() {
    let source =
        "{{#person}}{{^-last}}{{{name}}}{{/-last}}{{#-last}}{{{name}}}{{/-last}}{{/person}}";
    let tpl = Template::new(source).unwrap();

    assert_eq!(
        &tpl.blocks,
        &[
            with_children(Block::new("", "person", Tag::Section), 7),
            with_children(
                Block::new("", "-last", Tag::Indexed(Indexed::Exclude(Index::Last))),
                2
            ),
            Block::new("", "name", Tag::Unescaped),
            Block::nameless("", Tag::Closing),
            with_children(
                Block::new("", "-last", Tag::Indexed(Indexed::Include(Index::Last))),
                2
            ),
            Block::new("", "name", Tag::Unescaped),
            Block::nameless("", Tag::Closing),
            Block::nameless("", Tag::Closing),
            Block::nameless("", Tag::Tail),
        ]
    );
}

#[test]
fn constructs_nested_sections_correctly() {
    let source = "<body><h1>{{title}}</h1>{{#posts}}<article>{{name}}</article>{{/posts}}{{^posts}}<p>Nothing here :(</p>{{/posts}}</body>";
    let tpl = Template::new(source).unwrap();

    assert_eq!(
        &tpl.blocks,
        &[
            Block::new("<body><h1>", "title", Tag::Escaped),
            with_children(Block::new("</h1>", "posts", Tag::Section), 2),
            Block::new("<article>", "name", Tag::Escaped),
            Block::nameless("</article>", Tag::Closing),
            with_children(Block::new("", "posts", Tag::Inverse), 1),
            Block::nameless("<p>Nothing here :(</p>", Tag::Closing),
            Block::nameless("</body>", Tag::Tail),
        ]
    );
}

#[test]
fn constructs_nested_sections_with_dot_correctly() {
    let source = "<body><h1>{{site title}}</h1>{{^archive posts}}<article>{{name}}</article>{{/posts archive}}</body>";
    let tpl = Template::new(source).unwrap();

    assert_eq!(
        &tpl.blocks,
        &[
            with_children(Block::new("<body><h1>", "site", Tag::Section), 1),
            Block::new("", "title", Tag::Escaped),
            with_children(Block::new("</h1>", "archive", Tag::Section), 3),
            with_children(Block::new("", "posts", Tag::Inverse), 2),
            Block::new("<article>", "name", Tag::Escaped),
            Block::nameless("</article>", Tag::Closing),
            Block::nameless("</body>", Tag::Tail),
        ]
    );
}

#[test]
fn index_nth_and_truthiness() {
    assert_eq!(Index::First.nth(5), 0);
    assert_eq!(Index::Last.nth(5), 4);
    assert_eq!(Index::Nth(3).nth(5), 3);

    assert!(Indexed::Include(Index::First).is_truthy(3, 0));
    assert!(!Indexed::Include(Index::First).is_truthy(3, 1));
    assert!(Indexed::Exclude(Index::Last).is_truthy(3, 0));
    assert!(!Indexed::Exclude(Index::Last).is_truthy(3, 2));
}

#[test]
fn braces_counts() {
    assert_eq!(Braces::Two.count(), 2);
    assert_eq!(Braces::Three.count(), 3);
    assert_ne!(Braces::Two, Braces::Three);
}

#[test]
fn variables_walk() {
    let tpl = Template::new("<body>{{title}}{{#posts}}{{name}}{{/posts}}{{!note}}").unwrap();
    let mut vars = Variables::new(&tpl);

    let (name, nested) = vars.next().unwrap();
    assert_eq!(name, "title");
    assert!(nested.is_none());

    let (name, nested) = vars.next().unwrap();
    assert_eq!(name, "posts");
    let mut body = nested.unwrap();
    let (inner, inner_nested) = body.next().unwrap();
    assert_eq!(inner, "name");
    assert!(inner_nested.is_none());
    assert!(body.next().is_none());

    assert!(vars.next().is_none());
}

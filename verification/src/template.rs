//! Compiled templates: a flat sequence of blocks with precomputed section
//! extents, plus the store of named partials that a template can splice in
//! at compile time.

pub mod parse;
pub mod variables;
pub mod section;

pub use parse::Braces;
pub use parse::Index;
pub use parse::Indexed;
pub use parse::ParseError;
pub use parse::Tag;

use vstd::prelude::*;
use vstd::string::StrSliceExecFns;
use vstd::string::StringExecFns;

use crate::error::Error;
use crate::fnv::hash_name;
use crate::fnv::spec_hash_name;

verus! {

/// One compiled instruction of a template: the literal text immediately
/// preceding the tag, the trimmed tag name with its precomputed hash, the
/// tag kind, and — for section openers — how many of the following blocks
/// form the section body.
#[derive(Debug, PartialEq, Eq)]
pub struct Block {
    /// The literal text written before this tag takes effect.
    pub html: String,
    /// The tag name; empty for nameless blocks.
    pub name: String,
    /// FNV-1a hash of the name, the sole dispatch key.
    pub hash: u64,
    /// What kind of tag this block carries.
    pub tag: Tag,
    /// For a section opener, the number of subsequent blocks in its body.
    pub children: usize,
}

/// The mathematical shadow of a [`Block`].
pub struct BlockV {
    pub html: Seq<char>,
    pub name: Seq<char>,
    pub hash: u64,
    pub tag: Tag,
    pub children: nat,
}

impl View for Block {
    type V = BlockV;

    open spec fn view(&self) -> BlockV {
        BlockV {
            html: self.html@,
            name: self.name@,
            hash: self.hash,
            tag: self.tag,
            children: self.children as nat,
        }
    }
}

impl DeepView for Block {
    type V = BlockV;

    open spec fn deep_view(&self) -> BlockV {
        self.view()
    }
}

impl Clone for Block {
    fn clone(&self) -> (r: Self)
        ensures
            r@ == self@,
    {
        Block {
            html: self.html.clone(),
            name: self.name.clone(),
            hash: self.hash,
            tag: self.tag,
            children: self.children,
        }
    }
}

impl Block {
    /// A block for a named tag: the name is hashed on construction, the
    /// section extent starts out empty.
    pub fn new(html: &str, name: &str, tag: Tag) -> (b: Block)
        ensures
            b@ == (BlockV {
                html: html@,
                name: name@,
                hash: spec_hash_name(name@),
                tag,
                children: 0,
            }),
    {
        Block {
            html: String::from_str(html),
            name: String::from_str(name),
            hash: hash_name(name),
            tag,
            children: 0,
        }
    }

    /// A block without a name; used for Closing, Comment, Partial and Tail
    /// tags, which never take part in field dispatch.
    pub fn nameless(html: &str, tag: Tag) -> (b: Block)
        ensures
            b@ == (BlockV { html: html@, name: Seq::empty(), hash: 0, tag, children: 0 }),
    {
        let name = String::new();
        proof {
            assert(name@ =~= Seq::<char>::empty());
        }
        Block { html: String::from_str(html), name, hash: 0, tag, children: 0 }
    }

    /// Get the index if this block refers to a section index.
    pub fn index(&self) -> (r: Option<&Indexed>)
        ensures
            match r {
                Some(ix) => self.tag == Tag::Indexed(*ix),
                None => !(self.tag is Indexed),
            },
    {
        match &self.tag {
            Tag::Indexed(indexed) => Some(indexed),
            _ => None,
        }
    }
}

/// The mathematical shadow of a [`Template`].
pub struct TemplateV {
    pub blocks: Seq<BlockV>,
    pub capacity: nat,
    pub source: Seq<char>,
}

/// A preprocessed form of the plain text template, ready to be rendered
/// with data held in a [`crate::Content`] value.
#[derive(Debug, PartialEq, Eq)]
pub struct Template {
    /// Parsed blocks.
    pub blocks: Vec<Block>,
    /// Estimated byte length of the static parts, used to size buffers.
    pub capacity_hint: usize,
    /// Source from which this template was parsed.
    pub source: String,
}

impl View for Template {
    type V = TemplateV;

    open spec fn view(&self) -> TemplateV {
        TemplateV {
            blocks: self.blocks.deep_view(),
            capacity: self.capacity_hint as nat,
            source: self.source@,
        }
    }
}

/// Whether two strings hold the same characters.
pub fn str_eq(a: &str, b: &str) -> (r: bool)
    ensures
        r == (a@ == b@),
{
    let na = a.unicode_len();
    let nb = b.unicode_len();
    if na != nb {
        proof {
            assert(a@ != b@);
        }
        return false;
    }
    let mut i: usize = 0;
    while i < na
        invariant
            na == a@.len(),
            na == b@.len(),
            i <= na,
            forall|k: int| 0 <= k < i ==> a@[k] == b@[k],
        decreases na - i,
    {
        if a.get_char(i) != b.get_char(i) {
            return false;
        }
        i = i + 1;
    }
    proof {
        assert(a@ =~= b@);
    }
    true
}

/// A store of compiled templates under their names; templates compiled
/// through the store may splice earlier entries in as partials.
pub struct Partials {
    /// The stored templates, in insertion order; a name is resolved to the
    /// latest entry carrying it.
    pub templates: Vec<(String, Template)>,
}

/// The mathematical shadow of a [`Partials`] store.
pub open spec fn partials_view(p: Partials) -> Seq<(Seq<char>, TemplateV)> {
    p.templates.deep_view()
}

impl DeepView for Template {
    type V = TemplateV;

    open spec fn deep_view(&self) -> TemplateV {
        self.view()
    }
}

/// The template stored under the given name; the latest insertion wins.
pub open spec fn env_lookup(env: Seq<(Seq<char>, TemplateV)>, name: Seq<char>) -> Option<TemplateV>
    decreases env.len(),
{
    if env.len() == 0 {
        None
    } else if env.last().0 == name {
        Some(env.last().1)
    } else {
        env_lookup(env.drop_last(), name)
    }
}

impl Partials {
    /// An empty store.
    pub fn new() -> (r: Partials)
        ensures
            partials_view(r) == Seq::<(Seq<char>, TemplateV)>::empty(),
    {
        let r = Partials { templates: Vec::new() };
        proof {
            assert(partials_view(r) =~= Seq::<(Seq<char>, TemplateV)>::empty());
        }
        r
    }

    /// Get the template with the given name, if it exists; of entries
    /// sharing a name, the most recently inserted one is returned.
    pub fn get(&self, name: &str) -> (r: Option<&Template>)
        ensures
            match r {
                Some(t) => env_lookup(partials_view(*self), name@) == Some(t@),
                None => env_lookup(partials_view(*self), name@) is None,
            },
    {
        let n = self.templates.len();
        proof {
            assert(partials_view(*self).take(n as int) =~= partials_view(*self));
        }
        let mut i: usize = n;
        while i > 0
            invariant
                n == self.templates@.len(),
                i <= n,
                env_lookup(partials_view(*self), name@) == env_lookup(
                    partials_view(*self).take(i as int),
                    name@,
                ),
            decreases i,
        {
            i = i - 1;
            proof {
                assert(partials_view(*self).take(i as int + 1).last() == partials_view(*self)[
                    i as int]);
                assert(partials_view(*self).take(i as int + 1).drop_last() =~= partials_view(
                    *self,
                ).take(i as int));
            }
            if str_eq(self.templates[i].0.as_str(), name) {
                return Some(&self.templates[i].1);
            }
        }
        None
    }

    /// Insert a template parsed from `source` under `name`; templates
    /// already stored are available to it as partials. If a template with
    /// this name is present, lookups return the new one. On a parse error
    /// nothing is stored.
    pub fn insert(&mut self, source: &str, name: &str) -> (r: Result<(), Error>)
        ensures
            match r {
                Ok(()) => {
                    &&& parse::spec_parse(source@, Some(partials_view(*old(self)))) matches Ok(out)
                        && partials_view(*final(self)) == partials_view(*old(self)).push(
                        (
                            name@,
                            TemplateV { blocks: out.0, capacity: out.1, source: source@ },
                        ),
                    )
                },
                Err(e) => parse::spec_parse(source@, Some(partials_view(*old(self)))) == Err::<
                    (Seq<BlockV>, nat),
                    crate::error::ErrorV,
                >(e@) && *final(self) == *old(self),
            },
    {
        match parse::parse_source(source, Some(&*self)) {
            Ok(t) => {
                let ghost prev = partials_view(*self);
                let ghost tv = t@;
                self.templates.push((String::from_str(name), t));
                proof {
                    assert(partials_view(*self) =~= prev.push((name@, tv)));
                }
                Ok(())
            },
            Err(e) => Err(e),
        }
    }
}

impl Template {
    /// Create a new `Template` out of the source; partial tags are refused.
    pub fn new(source: &str) -> (r: Result<Template, Error>)
        ensures
            match r {
                Ok(t) => parse::spec_parse(source@, None) == Ok::<_, crate::error::ErrorV>(
                    (t@.blocks, t@.capacity),
                ) && t@.source == source@,
                Err(e) => parse::spec_parse(source@, None) == Err::<
                    (Seq<BlockV>, nat),
                    crate::error::ErrorV,
                >(e@),
            },
    {
        parse::parse_source(source, None)
    }

    /// Create a new `Template` out of the source, resolving partial tags
    /// against the given store.
    pub fn load(source: &str, partials: &Partials) -> (r: Result<Template, Error>)
        ensures
            match r {
                Ok(t) => parse::spec_parse(source@, Some(partials_view(*partials))) == Ok::<
                    _,
                    crate::error::ErrorV,
                >((t@.blocks, t@.capacity)) && t@.source == source@,
                Err(e) => parse::spec_parse(source@, Some(partials_view(*partials))) == Err::<
                    (Seq<BlockV>, nat),
                    crate::error::ErrorV,
                >(e@),
            },
    {
        parse::parse_source(source, Some(partials))
    }

    /// Render this `Template` with the given content value to a `String`.
    pub fn render(&self, content: &crate::content::Content) -> (r: String)
        ensures
            r@ == section::spec_render(self@.blocks, *content),
    {
        let mut buf = String::new();
        let mut stack: Vec<section::Frame> = Vec::new();
        stack.push(section::Frame { value: content, pos: None });
        proof {
            assert(section::frames_view(stack@) =~= seq![
                section::FrameV { value: *content, pos: None },
            ]);
        }
        section::render_range_to(&self.blocks, 0, self.blocks.len(), &stack, &mut buf);
        proof {
            assert(buf@ =~= section::spec_render(self@.blocks, *content));
        }
        buf
    }

    /// Estimate how big of a buffer should be allocated to render this
    /// `Template`.
    pub fn capacity_hint(&self) -> (r: usize)
        ensures
            r as nat == self@.capacity,
    {
        self.capacity_hint
    }

    /// Get a reference to the source this `Template` was created from.
    pub fn source(&self) -> (r: &str)
        ensures
            r@ == self@.source,
    {
        self.source.as_str()
    }
}

} // verus!

//! The single-pass template tokenizer and parser: it scans the source for
//! `{{...}}` tags, classifies each one, validates section nesting with a
//! depth-bounded stack, and produces the flat block sequence with precomputed
//! section extents.

use vstd::prelude::*;
use vstd::string::StrSliceExecFns;
use vstd::string::StringExecFns;

use crate::error::Error;
use crate::error::ErrorV;
use crate::fnv::spec_hash_name;
use crate::template::env_lookup;
use crate::template::partials_view;
use crate::template::Block;
use crate::template::BlockV;
use crate::template::Partials;
use crate::template::Template;
use crate::template::TemplateV;

verus! {

/// Marker struct for a tokenizer failure: the closing braces of a tag could
/// not be matched. Mapped to [`Error::UnclosedTag`] by the parser.
#[derive(Debug, PartialEq, Eq, Clone, Copy, Default)]
pub struct ParseError;

/// The role a block plays in the compiled template.
#[derive(Debug, Clone, Copy, PartialEq, Eq, Structural)]
pub enum Tag {
    /// `{{escaped}}` tag.
    Escaped,
    /// `{{{unescaped}}}` or `{{&unescaped}}` tag.
    Unescaped,
    /// `{{#section}}` opening tag (children counts the blocks it contains).
    Section,
    /// `{{^inverse}}` section opening tag.
    Inverse,
    /// `{{/closing}}` section tag.
    Closing,
    /// Index based list traversal, `{{#-first}}` and friends.
    Indexed(Indexed),
    /// `{{!comment}}` tag.
    Comment,
    /// `{{>partial}}` tag.
    Partial,
    /// Trailing text after the last tag.
    Tail,
}

/// Inclusive/exclusive index based tag.
#[derive(Debug, Clone, Copy, PartialEq, Eq, Structural)]
pub enum Indexed {
    /// `{{#-index}}` opening tag for an exact index.
    Include(Index),
    /// `{{^-index}}` opening tag for all other indexes.
    Exclude(Index),
}

/// Index specification for an index based tag.
#[derive(Debug, Clone, Copy, PartialEq, Eq, Structural)]
pub enum Index {
    /// The first element of the list.
    First,
    /// The last element of the list.
    Last,
    /// The nth element of the list.
    Nth(usize),
}

/// The position an index specification selects in a list of a given length.
pub open spec fn spec_nth(idx: Index, len: int) -> int {
    match idx {
        Index::First => 0,
        Index::Last => len - 1,
        Index::Nth(n) => n as int,
    }
}

/// Whether an indexed tag fires for the element at `index` of a list of
/// `len` elements.
pub open spec fn spec_indexed_truthy(ix: Indexed, len: int, index: int) -> bool {
    match ix {
        Indexed::Include(i) => spec_nth(i, len) == index,
        Indexed::Exclude(i) => spec_nth(i, len) != index,
    }
}

impl Index {
    /// Get the index numeral value for a list of the given length.
    pub fn nth(&self, len: usize) -> (r: usize)
        requires
            self matches Index::Last ==> len > 0,
        ensures
            r == spec_nth(*self, len as int),
    {
        match self {
            Index::First => 0,
            Index::Last => len - 1,
            Index::Nth(n) => *n,
        }
    }
}

impl Indexed {
    /// Marks whether this index is truthy.
    /// Returns true when this index is to be rendered.
    pub fn is_truthy(&self, len: usize, index: usize) -> (r: bool)
        requires
            (self matches Indexed::Include(i) && i matches Index::Last) ==> len > 0,
            (self matches Indexed::Exclude(i) && i matches Index::Last) ==> len > 0,
        ensures
            r == spec_indexed_truthy(*self, len as int, index as int),
    {
        match self {
            Indexed::Include(index_) => index_.nth(len) == index,
            Indexed::Exclude(index_) => index_.nth(len) != index,
        }
    }
}

/// Marker of how many braces a tag is expected to close with: two for most
/// tags, three for the `{{{unescaped}}}` form.
#[derive(Debug, PartialEq, Eq, Clone, Copy, Structural)]
pub enum Braces {
    /// `}}`
    Two,
    /// `}}}`
    Three,
}

impl Braces {
    /// The number of closing braces this marker expects.
    pub fn count(&self) -> (r: usize)
        ensures
            r == if *self is Three {
                3int
            } else {
                2int
            },
    {
        match self {
            Braces::Two => 2,
            Braces::Three => 3,
        }
    }
}

// ---------------------------------------------------------------------------
// The scanning primitives, as specification functions over the source text.
// ---------------------------------------------------------------------------
/// The first position at or after `i` where an opening `{{` starts.
pub open spec fn find_open(s: Seq<char>, i: int) -> Option<int>
    decreases s.len() - i,
{
    if i + 1 >= s.len() {
        None
    } else if s[i] == '{' && s[i + 1] == '{' {
        Some(i)
    } else {
        find_open(s, i + 1)
    }
}

/// The first position at or after `p` that does not hold a space.
pub open spec fn skip_spaces(s: Seq<char>, p: int) -> int
    decreases s.len() - p,
{
    if p < 0 || p >= s.len() || s[p] != ' ' {
        p
    } else {
        skip_spaces(s, p + 1)
    }
}

/// The end of the identifier starting at `p`: the first position at or after
/// `p` holding a space or a closing brace.
pub open spec fn ident_end(s: Seq<char>, p: int) -> int
    decreases s.len() - p,
{
    if p < 0 || p >= s.len() || s[p] == ' ' || s[p] == '}' {
        p
    } else {
        ident_end(s, p + 1)
    }
}

/// Whether a closing `}}` starts at position `q`.
pub open spec fn is_close_at(s: Seq<char>, q: int) -> bool {
    0 <= q && q + 1 < s.len() && s[q] == '}' && s[q + 1] == '}'
}

/// Where the text resumes after the closing braces at `q`: the first
/// component is where the next literal text starts (only as many braces as
/// the tag form expects are consumed), the second where scanning for the
/// next tag resumes. `None` when a three-brace tag is not closed by three
/// braces.
pub open spec fn close_result(s: Seq<char>, q: int, three: bool) -> Option<(int, int)> {
    if three {
        if q + 2 < s.len() && s[q + 2] == '}' {
            Some((q + 3, q + 3))
        } else {
            None
        }
    } else {
        if q + 2 < s.len() && s[q + 2] == '}' {
            Some((q + 2, q + 3))
        } else {
            Some((q + 2, q + 2))
        }
    }
}

/// After the first name of a tag: collect the remaining space-separated
/// names up to the closing braces. Returns the list of name ranges, the
/// position where literal text resumes, and the position where scanning
/// resumes; or a tokenizer failure.
pub open spec fn collect_more(s: Seq<char>, p: int, three: bool) -> Result<
    (Seq<(int, int)>, int, int),
    (),
>
    decreases s.len() - p + 1,
{
    let q = skip_spaces(s, p);
    if is_close_at(s, q) {
        match close_result(s, q, three) {
            Some((last, scan)) => Ok((Seq::empty(), last, scan)),
            None => Err(()),
        }
    } else {
        let e = ident_end(s, q);
        if e <= q || e <= p || e > s.len() {
            Err(())
        } else {
            match collect_more(s, e, three) {
                Ok((names, last, scan)) => Ok((seq![(q, e)].add(names), last, scan)),
                Err(()) => Err(()),
            }
        }
    }
}

/// The full name list of a tag, starting right after the tag marker: at
/// least one name is required before the closing braces.
pub open spec fn collect_names(s: Seq<char>, p: int, three: bool) -> Result<
    (Seq<(int, int)>, int, int),
    (),
> {
    let q = skip_spaces(s, p);
    if is_close_at(s, q) {
        Err(())
    } else {
        let e = ident_end(s, q);
        if e <= q || e <= p || e > s.len() {
            Err(())
        } else {
            match collect_more(s, e, three) {
                Ok((names, last, scan)) => Ok((seq![(q, e)].add(names), last, scan)),
                Err(()) => Err(()),
            }
        }
    }
}

/// Classification of the tag opening at `j`: the tag kind, whether three
/// closing braces are expected, and where the name text starts.
pub open spec fn classify(s: Seq<char>, j: int) -> (Tag, bool, int) {
    if j + 2 < s.len() {
        let c = s[j + 2];
        if c == '{' {
            (Tag::Unescaped, true, j + 3)
        } else if c == '&' {
            (Tag::Unescaped, false, j + 3)
        } else if c == '#' {
            (Tag::Section, false, j + 3)
        } else if c == '^' {
            (Tag::Inverse, false, j + 3)
        } else if c == '/' {
            (Tag::Closing, false, j + 3)
        } else if c == '!' {
            (Tag::Comment, false, j + 3)
        } else if c == '>' {
            (Tag::Partial, false, j + 3)
        } else {
            (Tag::Escaped, false, j + 2)
        }
    } else {
        (Tag::Escaped, false, j + 2)
    }
}

// ---------------------------------------------------------------------------
// Bounds of the scanning primitives, needed for termination of the parser.
// ---------------------------------------------------------------------------
pub proof fn lemma_skip_spaces_bounds(s: Seq<char>, p: int)
    requires
        0 <= p <= s.len(),
    ensures
        p <= skip_spaces(s, p) <= s.len(),
    decreases s.len() - p,
{
    if p < s.len() && s[p] == ' ' {
        lemma_skip_spaces_bounds(s, p + 1);
    }
}

pub proof fn lemma_ident_end_bounds(s: Seq<char>, p: int)
    requires
        0 <= p <= s.len(),
    ensures
        p <= ident_end(s, p) <= s.len(),
    decreases s.len() - p,
{
    if p < s.len() && s[p] != ' ' && s[p] != '}' {
        lemma_ident_end_bounds(s, p + 1);
    }
}

/// Bounds of a successful name collection: the resume positions lie between
/// the start and the end of the source, and every collected name range is a
/// valid, non-empty range of the source.
pub proof fn lemma_collect_more_bounds(s: Seq<char>, p: int, three: bool)
    requires
        0 <= p <= s.len(),
    ensures
        collect_more(s, p, three) matches Ok((names, last, scan)) ==> {
            &&& p <= scan <= s.len()
            &&& 0 <= last <= s.len()
            &&& last <= scan + 1
            &&& forall|k: int|
                0 <= k < names.len() ==> p <= #[trigger] names[k].0 < names[k].1 <= s.len()
        },
    decreases s.len() - p + 1,
{
    let q = skip_spaces(s, p);
    lemma_skip_spaces_bounds(s, p);
    if is_close_at(s, q) {
    } else {
        let e = ident_end(s, q);
        lemma_ident_end_bounds(s, q);
        if e <= q || e <= p || e > s.len() {
        } else {
            lemma_collect_more_bounds(s, e, three);
        }
    }
}

pub proof fn lemma_collect_names_bounds(s: Seq<char>, p: int, three: bool)
    requires
        0 <= p <= s.len(),
    ensures
        collect_names(s, p, three) matches Ok((names, last, scan)) ==> {
            &&& p < scan <= s.len()
            &&& 0 <= last <= s.len()
            &&& last <= scan + 1
            &&& names.len() >= 1
            &&& forall|k: int|
                0 <= k < names.len() ==> p <= #[trigger] names[k].0 < names[k].1 <= s.len()
        },
{
    let q = skip_spaces(s, p);
    lemma_skip_spaces_bounds(s, p);
    if !is_close_at(s, q) {
        let e = ident_end(s, q);
        lemma_ident_end_bounds(s, q);
        if !(e <= q || e <= p || e > s.len()) {
            lemma_collect_more_bounds(s, e, three);
        }
    }
}

pub proof fn lemma_find_open_bounds(s: Seq<char>, i: int)
    requires
        0 <= i,
    ensures
        find_open(s, i) matches Some(j) ==> i <= j && j + 1 < s.len() && s[j] == '{' && s[j + 1]
            == '{',
    decreases s.len() - i,
{
    if i + 1 >= s.len() {
    } else if s[i] == '{' && s[i + 1] == '{' {
    } else {
        lemma_find_open_bounds(s, i + 1);
    }
}

// ---------------------------------------------------------------------------
// The parser itself, as a specification: one state-transforming step per tag,
// folded over the source text.
// ---------------------------------------------------------------------------
/// The parser's running state: the blocks built so far, the accumulated
/// capacity hint, and the stack of indices of the still-open section blocks.
pub struct StV {
    pub blocks: Seq<BlockV>,
    pub capacity: nat,
    pub stack: Seq<int>,
}

/// Addition clamped at the machine's largest size: the capacity hint is an
/// estimate only, so it saturates instead of overflowing.
pub open spec fn sat_add(a: nat, b: nat) -> nat {
    if a + b > usize::MAX {
        usize::MAX as nat
    } else {
        (a + b) as nat
    }
}

/// The byte length of a piece of text once encoded as UTF-8, as the
/// machine's size type reports it.
pub open spec fn str_bytes_len(s: Seq<char>) -> nat {
    (vstd::utf8::encode_utf8(s).len() as usize) as nat
}

/// Whether a character is a decimal digit.
pub open spec fn is_digit(c: char) -> bool {
    '0' <= c && c <= '9'
}

/// The value of a decimal digit.
pub open spec fn digit_val(c: char) -> nat
    recommends
        is_digit(c),
{
    ((c as u32) - 48) as nat
}

/// Whether every character of a sequence is a decimal digit.
pub open spec fn all_digits(s: Seq<char>) -> bool {
    forall|k: int| 0 <= k < s.len() ==> is_digit(#[trigger] s[k])
}

/// The numeric value of a sequence of decimal digits.
pub open spec fn dec_value(s: Seq<char>) -> nat
    decreases s.len(),
{
    if s.len() == 0 {
        0
    } else {
        dec_value(s.drop_last()) * 10 + digit_val(s.last())
    }
}

/// The digit region of a numeric index: an optional single leading `+`
/// sign is allowed before the digits.
pub open spec fn index_digits(name: Seq<char>) -> Seq<char> {
    if name.len() > 0 && name[0] == '+' {
        name.drop_first()
    } else {
        name
    }
}

/// How the text after the `-` marker of an indexed tag is read: the words
/// `first` and `last`, or a number that fits the machine's index type,
/// with an optional leading `+` sign.
pub open spec fn spec_parse_index(name: Seq<char>) -> Result<Index, ()> {
    if name == "first"@ {
        Ok(Index::First)
    } else if name == "last"@ {
        Ok(Index::Last)
    } else {
        let digits = index_digits(name);
        if digits.len() > 0 && all_digits(digits) && dec_value(digits) <= usize::MAX as nat {
            Ok(Index::Nth(dec_value(digits) as usize))
        } else {
            Err(())
        }
    }
}

/// The tag a section or inverse opener block ends up carrying: a name
/// starting with `-` turns into an index based tag.
pub open spec fn section_final_tag(kind: Tag, name: Seq<char>) -> Result<Tag, ErrorV> {
    if name.len() > 0 && name[0] == '-' {
        let digits = name.subrange(1, name.len() as int);
        match spec_parse_index(digits) {
            Ok(ix) => Ok(
                Tag::Indexed(
                    if kind is Section {
                        Indexed::Include(ix)
                    } else {
                        Indexed::Exclude(ix)
                    },
                ),
            ),
            Err(()) => Err(ErrorV::IndexParse(digits)),
        }
    } else {
        Ok(kind)
    }
}

/// The `k`-th block emitted for an escaped or unescaped tag with chained
/// names: every name but the last becomes a synthetic section wrapping the
/// remainder of the chain.
pub open spec fn var_chain_block(
    s: Seq<char>,
    html: Seq<char>,
    names: Seq<(int, int)>,
    kind: Tag,
    k: int,
) -> BlockV {
    let nm = s.subrange(names[k].0, names[k].1);
    BlockV {
        html: if k == 0 {
            html
        } else {
            Seq::empty()
        },
        name: nm,
        hash: spec_hash_name(nm),
        tag: if k == names.len() - 1 {
            kind
        } else {
            Tag::Section
        },
        children: (names.len() - 1 - k) as nat,
    }
}

/// The `k`-th block emitted for the chained (non-final) names of a section
/// or inverse tag; their extents are filled in when the section is closed.
pub open spec fn sec_chain_block(s: Seq<char>, html: Seq<char>, names: Seq<(int, int)>, k: int) -> BlockV {
    let nm = s.subrange(names[k].0, names[k].1);
    BlockV {
        html: if k == 0 {
            html
        } else {
            Seq::empty()
        },
        name: nm,
        hash: spec_hash_name(nm),
        tag: Tag::Section,
        children: 0,
    }
}

/// Closing a tag pops one open section per name: each pop writes the
/// section's extent into its opener and checks that the closing name hashes
/// to the opener's hash.
pub open spec fn pop_sections(
    s: Seq<char>,
    blocks: Seq<BlockV>,
    stack: Seq<int>,
    names: Seq<(int, int)>,
    k: int,
    tail_idx: int,
) -> Result<(Seq<BlockV>, Seq<int>), ErrorV>
    decreases names.len() - k,
{
    if k >= names.len() {
        Ok((blocks, stack))
    } else {
        let nm = s.subrange(names[k].0, names[k].1);
        if stack.len() == 0 {
            Err(ErrorV::UnopenedSection(nm))
        } else {
            let idx = stack.last();
            let stack2 = stack.drop_last();
            let head = blocks[idx];
            let blocks2 = blocks.update(
                idx,
                BlockV { children: (tail_idx - idx) as nat, ..head },
            );
            if head.hash != spec_hash_name(nm) {
                Err(ErrorV::UnclosedSection(head.name))
            } else {
                pop_sections(s, blocks2, stack2, names, k + 1, tail_idx)
            }
        }
    }
}

/// One parser step: the state change a single tag with its names makes.
pub open spec fn emit(
    s: Seq<char>,
    env: Option<Seq<(Seq<char>, TemplateV)>>,
    st: StV,
    html: Seq<char>,
    kind: Tag,
    names: Seq<(int, int)>,
) -> Result<StV, ErrorV> {
    let n = names.len() as int;
    let capacity = sat_add(st.capacity, str_bytes_len(html));
    match kind {
        Tag::Escaped | Tag::Unescaped => Ok(
            StV {
                blocks: st.blocks + Seq::new(n as nat, |k| var_chain_block(s, html, names, kind, k)),
                capacity,
                stack: st.stack,
            },
        ),
        Tag::Section | Tag::Inverse => {
            if st.stack.len() + n > 16 {
                Err(ErrorV::StackOverflow)
            } else {
                let base = st.blocks.len() as int;
                let final_nm = s.subrange(names[n - 1].0, names[n - 1].1);
                match section_final_tag(kind, final_nm) {
                    Err(e) => Err(e),
                    Ok(ftag) => Ok(
                        StV {
                            blocks: st.blocks + Seq::new(
                                (n - 1) as nat,
                                |k| sec_chain_block(s, html, names, k),
                            ).push(
                                BlockV {
                                    html: if n == 1 {
                                        html
                                    } else {
                                        Seq::empty()
                                    },
                                    name: final_nm,
                                    hash: spec_hash_name(final_nm),
                                    tag: ftag,
                                    children: 0,
                                },
                            ),
                            capacity,
                            stack: st.stack + Seq::new(n as nat, |k| base + k),
                        },
                    ),
                }
            }
        },
        Tag::Closing => {
            let tail_idx = st.blocks.len() as int;
            let blocks2 = st.blocks.push(
                BlockV { html, name: Seq::empty(), hash: 0, tag: Tag::Closing, children: 0 },
            );
            match pop_sections(s, blocks2, st.stack, names, 0, tail_idx) {
                Ok((blocks3, stack3)) => Ok(StV { blocks: blocks3, capacity, stack: stack3 }),
                Err(e) => Err(e),
            }
        },
        Tag::Comment => Ok(
            StV {
                blocks: st.blocks.push(
                    BlockV { html, name: Seq::empty(), hash: 0, tag: Tag::Comment, children: 0 },
                ),
                capacity,
                stack: st.stack,
            },
        ),
        Tag::Partial => {
            if n != 1 {
                Err(ErrorV::UnclosedTag)
            } else {
                let nm = s.subrange(names[0].0, names[0].1);
                match env {
                    None => Err(ErrorV::PartialsDisabled),
                    Some(ps) => match env_lookup(ps, nm) {
                        None => Err(ErrorV::NotFound(nm)),
                        Some(t) => Ok(
                            StV {
                                blocks: st.blocks.push(
                                    BlockV {
                                        html,
                                        name: Seq::empty(),
                                        hash: 0,
                                        tag: Tag::Partial,
                                        children: 0,
                                    },
                                ) + t.blocks,
                                capacity: sat_add(capacity, t.capacity),
                                stack: st.stack,
                            },
                        ),
                    },
                }
            }
        },
        _ => Err(ErrorV::UnclosedTag),
    }
}

/// The parser, folded over the source from the scanning position `scan`:
/// `last` marks where the pending literal text began. On success the final
/// block list (closed by a Tail block holding the trailing text) and the
/// total capacity hint come back; any malformed tag, dangling section or
/// failed partial lookup is an error, and no partial result survives.
pub open spec fn parse_from(
    s: Seq<char>,
    env: Option<Seq<(Seq<char>, TemplateV)>>,
    scan: int,
    last: int,
    st: StV,
) -> Result<(Seq<BlockV>, nat), ErrorV>
    decreases s.len() - scan,
{
    match find_open(s, scan) {
        None => {
            if st.stack.len() > 0 {
                Err(ErrorV::UnclosedSection(st.blocks[st.stack.last()].name))
            } else {
                let tail = s.subrange(last, s.len() as int);
                Ok(
                    (
                        st.blocks.push(
                            BlockV {
                                html: tail,
                                name: Seq::empty(),
                                hash: 0,
                                tag: Tag::Tail,
                                children: 0,
                            },
                        ),
                        sat_add(st.capacity, str_bytes_len(tail)),
                    ),
                )
            }
        },
        Some(j) => {
            let (kind, three, np) = classify(s, j);
            match collect_names(s, np, three) {
                Err(()) => Err(ErrorV::UnclosedTag),
                Ok((names, last2, scan2)) => {
                    let html = s.subrange(last, j);
                    match emit(s, env, st, html, kind, names) {
                        Err(e) => Err(e),
                        // The bound keeps the recursion well founded; every
                        // tokenization satisfies it, since the closing braces
                        // lie beyond the scanning position.
                        Ok(st2) => if scan < scan2 <= s.len() {
                            parse_from(s, env, scan2, last2, st2)
                        } else {
                            Err(ErrorV::UnclosedTag)
                        },
                    }
                },
            }
        },
    }
}

/// The whole parse of a source text against an optional partial store: the
/// contract of template compilation.
pub open spec fn spec_parse(s: Seq<char>, env: Option<Seq<(Seq<char>, TemplateV)>>) -> Result<
    (Seq<BlockV>, nat),
    ErrorV,
> {
    parse_from(s, env, 0, 0, StV { blocks: Seq::empty(), capacity: 0, stack: Seq::empty() })
}

// ---------------------------------------------------------------------------
// The bounded parse stack, kept in an outside fixed-capacity vector.
// ---------------------------------------------------------------------------
#[verifier::external_type_specification]
#[verifier::external_body]
#[verifier::reject_recursive_types(T)]
pub struct ExArrayVec<T, const CAP: usize>(arrayvec::ArrayVec<T, CAP>);

#[verifier::external_type_specification]
#[verifier::external_body]
#[verifier::reject_recursive_types(T)]
pub struct ExCapacityError<T>(arrayvec::CapacityError<T>);

/// What the parse stack holds, oldest first.
pub uninterp spec fn stack_elems(st: arrayvec::ArrayVec<usize, 16>) -> Seq<usize>;

/// The stack's contents as block indices.
pub open spec fn stack_view(st: arrayvec::ArrayVec<usize, 16>) -> Seq<int> {
    stack_elems(st).map_values(|v: usize| v as int)
}

/// Relies on arrayvec::ArrayVec::new: a freshly created vector is empty.
#[verifier::external_body]
fn stack_new() -> (st: arrayvec::ArrayVec<usize, 16>)
    ensures
        stack_elems(st) == Seq::<usize>::empty(),
{
    arrayvec::ArrayVec::new()
}

/// Relies on arrayvec::ArrayVec::try_push: appends the element when the
/// vector is below its capacity, and otherwise fails leaving it unchanged.
#[verifier::external_body]
fn stack_try_push(st: &mut arrayvec::ArrayVec<usize, 16>, v: usize) -> (r: Result<
    (),
    arrayvec::CapacityError<usize>,
>)
    ensures
        stack_elems(*old(st)).len() < 16 ==> r is Ok && stack_elems(*final(st)) == stack_elems(
            *old(st),
        ).push(v),
        stack_elems(*old(st)).len() >= 16 ==> r is Err && stack_elems(*final(st)) == stack_elems(
            *old(st),
        ),
{
    st.try_push(v)
}

/// Relies on arrayvec::ArrayVec::pop: removes and returns the last element,
/// or returns nothing when the vector is empty.
#[verifier::external_body]
fn stack_pop(st: &mut arrayvec::ArrayVec<usize, 16>) -> (r: Option<usize>)
    ensures
        match r {
            Some(v) => stack_elems(*old(st)).len() > 0 && v == stack_elems(*old(st)).last()
                && stack_elems(*final(st)) == stack_elems(*old(st)).drop_last(),
            None => stack_elems(*old(st)).len() == 0 && stack_elems(*final(st)) == stack_elems(
                *old(st),
            ),
        },
{
    st.pop()
}

// ---------------------------------------------------------------------------
// The executable scanner, each function proved against its specification.
// ---------------------------------------------------------------------------
/// Addition clamped at the machine's largest size.
fn sat_add_exec(a: usize, b: usize) -> (r: usize)
    ensures
        r as nat == sat_add(a as nat, b as nat),
{
    if a <= usize::MAX - b {
        a + b
    } else {
        usize::MAX
    }
}

pub(crate) fn find_open_exec(s: &str, from: usize, n: usize) -> (r: Option<usize>)
    requires
        n == s@.len(),
        from <= n,
    ensures
        match r {
            Some(j) => find_open(s@, from as int) == Some(j as int) && from <= j && j + 1 < n
                && s@[j as int] == '{' && s@[j + 1] == '{',
            None => find_open(s@, from as int) is None,
        },
{
    let mut j = from;
    while n - j > 1
        invariant
            n == s@.len(),
            from <= j <= n,
            find_open(s@, from as int) == find_open(s@, j as int),
        decreases n - j,
    {
        if s.get_char(j) == '{' && s.get_char(j + 1) == '{' {
            return Some(j);
        }
        j = j + 1;
    }
    None
}

fn skip_spaces_exec(s: &str, p: usize, n: usize) -> (r: usize)
    requires
        n == s@.len(),
        p <= n,
    ensures
        r == skip_spaces(s@, p as int),
        p <= r <= n,
{
    let mut q = p;
    while q < n
        invariant
            n == s@.len(),
            p <= q <= n,
            skip_spaces(s@, p as int) == skip_spaces(s@, q as int),
        decreases n - q,
    {
        if s.get_char(q) != ' ' {
            return q;
        }
        q = q + 1;
    }
    q
}

fn ident_end_exec(s: &str, p: usize, n: usize) -> (r: usize)
    requires
        n == s@.len(),
        p <= n,
    ensures
        r == ident_end(s@, p as int),
        p <= r <= n,
{
    let mut q = p;
    while q < n
        invariant
            n == s@.len(),
            p <= q <= n,
            ident_end(s@, p as int) == ident_end(s@, q as int),
        decreases n - q,
    {
        let c = s.get_char(q);
        if c == ' ' || c == '}' {
            return q;
        }
        q = q + 1;
    }
    q
}

fn is_close_exec(s: &str, q: usize, n: usize) -> (r: bool)
    requires
        n == s@.len(),
        q <= n,
    ensures
        r == is_close_at(s@, q as int),
{
    n - q > 1 && s.get_char(q) == '}' && s.get_char(q + 1) == '}'
}

/// The ranges a name vector holds, as mathematical integers.
pub open spec fn ranges_view(names: Seq<(usize, usize)>) -> Seq<(int, int)> {
    names.map_values(|r: (usize, usize)| (r.0 as int, r.1 as int))
}

#[verifier::spinoff_prover]
fn collect_names_exec(s: &str, p: usize, three: bool, n: usize) -> (r: Result<
    (Vec<(usize, usize)>, usize, usize),
    ParseError,
>)
    requires
        n == s@.len(),
        p <= n,
    ensures
        match r {
            Ok((names, last, scan)) => {
                &&& collect_names(s@, p as int, three) == Ok::<_, ()>(
                    (ranges_view(names@), last as int, scan as int),
                )
                &&& p < scan <= n
                &&& last <= scan
                &&& names@.len() >= 1
                &&& forall|k: int|
                    0 <= k < names@.len() ==> p <= #[trigger] names@[k].0 < names@[k].1 <= n
            },
            Err(_) => collect_names(s@, p as int, three) is Err,
        },
{
    let q = skip_spaces_exec(s, p, n);
    if is_close_exec(s, q, n) {
        return Err(ParseError);
    }
    let e = ident_end_exec(s, q, n);
    if e == q {
        return Err(ParseError);
    }
    let mut names: Vec<(usize, usize)> = Vec::new();
    names.push((q, e));
    proof {
        assert(ranges_view(names@) =~= seq![(q as int, e as int)]);
    }
    let mut cur = e;
    loop
        invariant
            n == s@.len(),
            p < cur <= n,
            names@.len() >= 1,
            forall|k: int|
                0 <= k < names@.len() ==> p <= #[trigger] names@[k].0 < names@[k].1 <= n,
            collect_more(s@, cur as int, three) matches Ok((more, l, sc)) ==> collect_names(
                s@,
                p as int,
                three,
            ) == Ok::<_, ()>((ranges_view(names@) + more, l, sc)),
            collect_more(s@, cur as int, three) is Err ==> collect_names(s@, p as int, three)
                is Err,
        decreases n - cur,
    {
        let q2 = skip_spaces_exec(s, cur, n);
        if is_close_exec(s, q2, n) {
            let third = n - q2 > 2 && s.get_char(q2 + 2) == '}';
            if three {
                if third {
                    proof {
                        assert(ranges_view(names@) + Seq::<(int, int)>::empty() =~= ranges_view(
                            names@,
                        ));
                        assert(close_result(s@, q2 as int, three) == Some((
                            q2 as int + 3,
                            q2 as int + 3,
                        )));
                        assert(collect_more(s@, cur as int, three) == Ok::<_, ()>((
                            Seq::<(int, int)>::empty(),
                            q2 as int + 3,
                            q2 as int + 3,
                        )));
                        assert(collect_names(s@, p as int, three) == Ok::<_, ()>((
                            ranges_view(names@),
                            q2 as int + 3,
                            q2 as int + 3,
                        )));
                    }
                    return Ok((names, q2 + 3, q2 + 3));
                } else {
                    return Err(ParseError);
                }
            } else {
                proof {
                    assert(ranges_view(names@) + Seq::<(int, int)>::empty() =~= ranges_view(
                        names@,
                    ));
                }
                if third {
                    return Ok((names, q2 + 2, q2 + 3));
                } else {
                    return Ok((names, q2 + 2, q2 + 2));
                }
            }
        }
        let e2 = ident_end_exec(s, q2, n);
        if e2 == q2 {
            return Err(ParseError);
        }
        let ghost old_names = names@;
        names.push((q2, e2));
        proof {
            assert(names@.last() == (q2, e2));
            assert(p < q2 && q2 < e2 <= n);
            assert forall|k: int| 0 <= k < names@.len() implies p <= #[trigger] names@[k].0
                < names@[k].1 <= n by {
                if k < names@.len() - 1 {
                    assert(names@[k] == old_names[k]);
                }
            }
            assert(ranges_view(names@) =~= ranges_view(old_names) + seq![(q2 as int, e2 as int)]);
            assert forall|more: Seq<(int, int)>|
                true implies ranges_view(old_names) + (seq![(q2 as int, e2 as int)] + more) =~= (
            ranges_view(old_names) + seq![(q2 as int, e2 as int)]) + more by {}
        }
        cur = e2;
    }
}

/// Read an index specification out of the characters `a .. b` of the source.
fn parse_index_exec(s: &str, a: usize, b: usize, n: usize) -> (r: Result<Index, ParseError>)
    requires
        n == s@.len(),
        a <= b <= n,
    ensures
        match r {
            Ok(ix) => spec_parse_index(s@.subrange(a as int, b as int)) == Ok::<_, ()>(ix),
            Err(_) => spec_parse_index(s@.subrange(a as int, b as int)) is Err,
        },
{
    let digits = s.substring_char(a, b);
    if crate::template::str_eq(digits, "first") {
        return Ok(Index::First);
    }
    if crate::template::str_eq(digits, "last") {
        return Ok(Index::Last);
    }
    let m = b - a;
    proof {
        assert(digits@.len() == m);
    }
    if m == 0 {
        return Err(ParseError);
    }
    let off: usize = if digits.get_char(0) == '+' {
        1
    } else {
        0
    };
    let ghost dseq = index_digits(digits@);
    proof {
        if off == 1 {
            assert(dseq =~= digits@.subrange(1, m as int));
        } else {
            assert(dseq =~= digits@.subrange(0, m as int));
        }
    }
    if m == off {
        proof {
            assert(dseq.len() == 0);
        }
        return Err(ParseError);
    }
    let lim: u128 = (usize::MAX as u128) + 1;
    let mut acc: u128 = 0;
    let mut i: usize = off;
    proof {
        assert(digits@.subrange(off as int, off as int) =~= Seq::<char>::empty());
    }
    while i < m
        invariant
            m == digits@.len(),
            digits@ == s@.subrange(a as int, b as int),
            digits@ != "first"@,
            digits@ != "last"@,
            off <= 1,
            off < m,
            dseq == index_digits(digits@),
            dseq == digits@.subrange(off as int, m as int),
            off <= i <= m,
            lim as nat == usize::MAX as nat + 1,
            all_digits(digits@.subrange(off as int, i as int)),
            acc as nat == if dec_value(digits@.subrange(off as int, i as int)) > usize::MAX
                as nat {
                lim as nat
            } else {
                dec_value(digits@.subrange(off as int, i as int))
            },
        decreases m - i,
    {
        let c = digits.get_char(i);
        let cv = c as u32;
        if cv < 48 || cv > 57 {
            proof {
                assert(dseq[i - off] == digits@[i as int]);
                assert(!is_digit(dseq[i - off]));
                assert(!all_digits(dseq));
            }
            return Err(ParseError);
        }
        let d = (cv - 48) as u128;
        proof {
            assert(digits@.subrange(off as int, i + 1).drop_last() =~= digits@.subrange(
                off as int,
                i as int,
            ));
            assert(digits@.subrange(off as int, i + 1).last() == c);
            assert(is_digit(c));
            assert(digit_val(c) == d as nat);
        }
        let ghost prev = dec_value(digits@.subrange(off as int, i as int));
        let ghost accb = acc as nat;
        acc = acc * 10 + d;
        if acc > lim {
            acc = lim;
        }
        proof {
            let now = dec_value(digits@.subrange(off as int, i + 1));
            assert(now == prev * 10 + digit_val(c));
            if prev > usize::MAX as nat {
                assert(now > usize::MAX as nat) by (nonlinear_arith)
                    requires
                        now == prev * 10 + digit_val(c),
                        prev > usize::MAX as nat,
                ;
                assert(accb == lim as nat);
                assert(accb * 10 + d as nat > lim as nat);
            } else {
                assert(accb == prev);
                assert(accb * 10 + d as nat == now);
                if now >= lim as nat {
                    assert(now > usize::MAX as nat);
                } else {
                    assert(now <= usize::MAX as nat);
                }
            }
        }
        i = i + 1;
    }
    proof {
        assert(digits@.subrange(off as int, m as int) =~= dseq);
    }
    if acc >= lim {
        return Err(ParseError);
    }
    Ok(Index::Nth(acc as usize))
}

// ---------------------------------------------------------------------------
// The executable parser steps, one per tag kind.
// ---------------------------------------------------------------------------
/// Push the block chain of an escaped or unescaped tag.
fn emit_var(blocks: &mut Vec<Block>, source: &str, html: &str, names: &Vec<(usize, usize)>, kind: Tag)
    requires
        kind is Escaped || kind is Unescaped,
        names@.len() >= 1,
        forall|k: int|
            0 <= k < names@.len() ==> 0 <= #[trigger] names@[k].0 < names@[k].1 <= source@.len(),
    ensures
        final(blocks).deep_view() == old(blocks).deep_view() + Seq::new(
            names@.len(),
            |k| var_chain_block(source@, html@, ranges_view(names@), kind, k),
        ),
{
    let ghost base = blocks.deep_view();
    let ghost namesV = ranges_view(names@);
    let nn = names.len();
    let mut k: usize = 0;
    proof {
        assert(blocks.deep_view() =~= base + Seq::new(0, |t| var_chain_block(source@, html@, namesV, kind, t)));
        reveal_strlit("");
        assert(""@ =~= Seq::<char>::empty());
    }
    while k < nn
        invariant
            nn == names@.len(),
            namesV == ranges_view(names@),
            base == old(blocks).deep_view(),
            k <= nn,
            kind is Escaped || kind is Unescaped,
            forall|t: int|
                0 <= t < names@.len() ==> 0 <= #[trigger] names@[t].0 < names@[t].1 <= source@.len(),
            ""@ == Seq::<char>::empty(),
            blocks.deep_view() == base + Seq::new(
                k as nat,
                |t| var_chain_block(source@, html@, namesV, kind, t),
            ),
        decreases nn - k,
    {
        let (a, b) = names[k];
        let nm = source.substring_char(a, b);
        let htmlpart: &str = if k == 0 {
            html
        } else {
            ""
        };
        let tag = if k + 1 == nn {
            kind
        } else {
            Tag::Section
        };
        let mut blk = Block::new(htmlpart, nm, tag);
        blk.children = nn - 1 - k;
        let ghost kk = k as int;
        let ghost blkv = blk@;
        let ghost prev_dv = blocks.deep_view();
        blocks.push(blk);
        proof {
            assert(namesV[kk] == (a as int, b as int));
            assert(blkv == var_chain_block(source@, html@, namesV, kind, kk));
            assert(blocks.deep_view() =~= prev_dv.push(blkv));
            assert(prev_dv.push(blkv) =~= base + Seq::new(
                (kk + 1) as nat,
                |t| var_chain_block(source@, html@, namesV, kind, t),
            ));
        }
        k = k + 1;
    }
}

/// Push the block chain of a section or inverse tag, recording each opener
/// on the parse stack; fails on stack overflow or a malformed index name.
fn emit_section(
    blocks: &mut Vec<Block>,
    stack: &mut arrayvec::ArrayVec<usize, 16>,
    source: &str,
    html: &str,
    names: &Vec<(usize, usize)>,
    kind: Tag,
) -> (r: Result<(), Error>)
    requires
        kind is Section || kind is Inverse,
        stack_view(*old(stack)).len() <= 16,
        names@.len() >= 1,
        forall|k: int|
            0 <= k < names@.len() ==> 0 <= #[trigger] names@[k].0 < names@[k].1 <= source@.len(),
    ensures
        ({
            let base = old(blocks).deep_view();
            let base_stack = stack_view(*old(stack));
            let namesV = ranges_view(names@);
            let n = names@.len() as int;
            let final_nm = source@.subrange(namesV[n - 1].0, namesV[n - 1].1);
            match r {
                Ok(()) => {
                    &&& base_stack.len() + n <= 16
                    &&& section_final_tag(kind, final_nm) matches Ok(ftag) && final(
                        blocks
                    ).deep_view() == base + Seq::new(
                        (n - 1) as nat,
                        |k| sec_chain_block(source@, html@, namesV, k),
                    ).push(
                        BlockV {
                            html: if n == 1 {
                                html@
                            } else {
                                Seq::empty()
                            },
                            name: final_nm,
                            hash: spec_hash_name(final_nm),
                            tag: ftag,
                            children: 0,
                        },
                    )
                    &&& stack_view(*final(stack)) == base_stack + Seq::new(
                        n as nat,
                        |k| base.len() + k,
                    )
                },
                Err(e) => {
                    if base_stack.len() + n > 16 {
                        e@ == ErrorV::StackOverflow
                    } else {
                        section_final_tag(kind, final_nm) == Err::<Tag, _>(e@)
                    }
                },
            }
        }),
{
    let ghost base = blocks.deep_view();
    let ghost base_stack = stack_view(*stack);
    let ghost namesV = ranges_view(names@);
    let nn = names.len();
    let base_len = blocks.len();
    let mut k: usize = 0;
    proof {
        assert(blocks.deep_view() =~= base + Seq::new(0, |t| sec_chain_block(source@, html@, namesV, t)));
        assert(stack_view(*stack) =~= base_stack + Seq::new(0, |t| base.len() + t));
        reveal_strlit("");
        assert(""@ =~= Seq::<char>::empty());
    }
    while k < nn - 1
        invariant
            nn == names@.len(),
            nn >= 1,
            namesV == ranges_view(names@),
            base == old(blocks).deep_view(),
            base_stack == stack_view(*old(stack)),
            k <= nn - 1,
            kind is Section || kind is Inverse,
            base_len == base.len(),
            forall|t: int|
                0 <= t < names@.len() ==> 0 <= #[trigger] names@[t].0 < names@[t].1 <= source@.len(),
            ""@ == Seq::<char>::empty(),
            blocks.deep_view() == base + Seq::new(
                k as nat,
                |t| sec_chain_block(source@, html@, namesV, t),
            ),
            stack_view(*stack) == base_stack + Seq::new(k as nat, |t| base.len() + t),
            base_stack.len() + k <= 16,
        decreases nn - 1 - k,
    {
        proof {
            assert(stack_elems(*stack).len() == stack_view(*stack).len());
            assert(stack_view(*stack).len() == base_stack.len() + k);
        }
        match stack_try_push(stack, blocks.len()) {
            Err(_) => {
                proof {
                    assert(base_stack.len() + k >= 16);
                    assert(stack_view(*old(stack)).len() + names@.len() > 16);
                }
                return Err(Error::StackOverflow);
            },
            Ok(_) => (),
        }
        let (a, b) = names[k];
        let nm = source.substring_char(a, b);
        let htmlpart: &str = if k == 0 {
            html
        } else {
            ""
        };
        let blk = Block::new(htmlpart, nm, Tag::Section);
        let ghost kk = k as int;
        let ghost blkv = blk@;
        let ghost prev_dv = blocks.deep_view();
        let ghost prev_sv = stack_view(*stack);
        blocks.push(blk);
        proof {
            assert(namesV[kk] == (a as int, b as int));
            assert(blkv == sec_chain_block(source@, html@, namesV, kk));
            assert(blocks.deep_view() =~= prev_dv.push(blkv));
            assert(prev_dv.push(blkv) =~= base + Seq::new(
                (kk + 1) as nat,
                |t| sec_chain_block(source@, html@, namesV, t),
            ));
            assert(prev_sv =~= (base_stack + Seq::new(kk as nat, |t| base.len() + t)).push(
                base.len() + kk,
            ));
            assert((base_stack + Seq::new(kk as nat, |t| base.len() + t)).push(base.len() + kk)
                =~= base_stack + Seq::new((kk + 1) as nat, |t| base.len() + t));
        }
        k = k + 1;
    }
    proof {
        assert(stack_elems(*stack).len() == stack_view(*stack).len());
        assert(stack_view(*stack).len() == base_stack.len() + (nn - 1));
    }
    match stack_try_push(stack, blocks.len()) {
        Err(_) => {
            proof {
                assert(base_stack.len() + (nn - 1) >= 16);
                assert(stack_view(*old(stack)).len() + names@.len() > 16);
            }
            return Err(Error::StackOverflow);
        },
        Ok(_) => (),
    }
    proof {
        let kk = (nn - 1) as int;
        assert(stack_view(*stack) =~= (base_stack + Seq::new(kk as nat, |t| base.len() + t)).push(
            base.len() + kk,
        ));
        assert((base_stack + Seq::new(kk as nat, |t| base.len() + t)).push(base.len() + kk) =~= base_stack
            + Seq::new(nn as nat, |t| base.len() + t));
    }
    let (a, b) = names[nn - 1];
    let nm = source.substring_char(a, b);
    let ftag: Tag;
    if source.get_char(a) == '-' {
        proof {
            assert(nm@[0] == '-');
            assert(nm@.subrange(1, nm@.len() as int) =~= source@.subrange(a + 1, b as int));
        }
        match parse_index_exec(source, a + 1, b, source.unicode_len()) {
            Ok(ix) => {
                ftag = Tag::Indexed(
                    if kind == Tag::Section {
                        Indexed::Include(ix)
                    } else {
                        Indexed::Exclude(ix)
                    },
                );
            },
            Err(_) => {
                let digits = source.substring_char(a + 1, b);
                return Err(Error::IndexParse(String::from_str(digits)));
            },
        }
    } else {
        proof {
            assert(nm@.len() > 0 && nm@[0] != '-');
        }
        ftag = kind;
    }
    let blk = Block::new(
        if nn == 1 {
            html
        } else {
            ""
        },
        nm,
        ftag,
    );
    let ghost blkv = blk@;
    let ghost prev_dv = blocks.deep_view();
    blocks.push(blk);
    proof {
        reveal_strlit("");
        assert(""@ =~= Seq::<char>::empty());
        let n = names@.len() as int;
        assert(namesV[n - 1] == (names@[n - 1].0 as int, names@[n - 1].1 as int));
        let final_nm = source@.subrange(namesV[n - 1].0, namesV[n - 1].1);
        assert(nm@ == final_nm);
        assert(blkv == (BlockV {
            html: if n == 1 {
                html@
            } else {
                Seq::empty()
            },
            name: final_nm,
            hash: spec_hash_name(final_nm),
            tag: ftag,
            children: 0,
        }));
        assert(blocks.deep_view() =~= prev_dv.push(blkv));
        assert(blocks.deep_view() =~= base + Seq::new(
            (n - 1) as nat,
            |k| sec_chain_block(source@, html@, namesV, k),
        ).push(
            BlockV {
                html: if n == 1 {
                    html@
                } else {
                    Seq::empty()
                },
                name: final_nm,
                hash: spec_hash_name(final_nm),
                tag: ftag,
                children: 0,
            },
        ));
    }
    Ok(())
}

/// Pop one open section per closing name, writing extents and checking
/// hashes.
#[verifier::rlimit(50)]
fn emit_closing(
    blocks: &mut Vec<Block>,
    stack: &mut arrayvec::ArrayVec<usize, 16>,
    source: &str,
    html: &str,
    names: &Vec<(usize, usize)>,
) -> (r: Result<(), Error>)
    requires
        names@.len() >= 1,
        forall|k: int|
            0 <= k < names@.len() ==> 0 <= #[trigger] names@[k].0 < names@[k].1 <= source@.len(),
        forall|k: int|
            0 <= k < stack_view(*old(stack)).len() ==> 0 <= #[trigger] stack_view(*old(stack))[k]
                < old(blocks).deep_view().len(),
    ensures
        ({
            let blocks2 = old(blocks).deep_view().push(
                BlockV {
                    html: html@,
                    name: Seq::empty(),
                    hash: 0,
                    tag: Tag::Closing,
                    children: 0,
                },
            );
            let tail_idx = old(blocks).deep_view().len() as int;
            match r {
                Ok(()) => pop_sections(
                    source@,
                    blocks2,
                    stack_view(*old(stack)),
                    ranges_view(names@),
                    0,
                    tail_idx,
                ) == Ok::<_, ErrorV>((final(blocks).deep_view(), stack_view(*final(stack)))),
                Err(e) => pop_sections(
                    source@,
                    blocks2,
                    stack_view(*old(stack)),
                    ranges_view(names@),
                    0,
                    tail_idx,
                ) == Err::<(Seq<BlockV>, Seq<int>), _>(e@),
            }
        }) && stack_view(*final(stack)).len() <= stack_view(*old(stack)).len() && (forall|k: int|
            0 <= k < stack_view(*final(stack)).len() ==> 0 <= #[trigger] stack_view(
                *final(stack),
            )[k] < final(blocks).deep_view().len()),
{
    let ghost namesV = ranges_view(names@);
    let tail_idx = blocks.len();
    blocks.push(Block::nameless(html, Tag::Closing));
    let ghost blocks2 = blocks.deep_view();
    let ghost stack0 = stack_view(*stack);
    proof {
        assert(blocks2 =~= old(blocks).deep_view().push(
            BlockV { html: html@, name: Seq::empty(), hash: 0, tag: Tag::Closing, children: 0 },
        ));
    }
    let nn = names.len();
    let mut k: usize = 0;
    while k < nn
        invariant
            nn == names@.len(),
            namesV == ranges_view(names@),
            stack0 == stack_view(*old(stack)),
            blocks2 == old(blocks).deep_view().push(
                BlockV {
                    html: html@,
                    name: Seq::empty(),
                    hash: 0,
                    tag: Tag::Closing,
                    children: 0,
                },
            ),
            tail_idx == old(blocks).deep_view().len(),
            k <= nn,
            tail_idx + 1 == blocks.deep_view().len(),
            stack_view(*stack).len() <= stack_view(*old(stack)).len(),
            forall|t: int|
                0 <= t < names@.len() ==> 0 <= #[trigger] names@[t].0 < names@[t].1 <= source@.len(),
            forall|t: int|
                0 <= t < stack_view(*stack).len() ==> 0 <= #[trigger] stack_view(*stack)[t]
                    < tail_idx,
            pop_sections(source@, blocks2, stack0, namesV, 0, tail_idx as int) == pop_sections(
                source@,
                blocks.deep_view(),
                stack_view(*stack),
                namesV,
                k as int,
                tail_idx as int,
            ),
        decreases nn - k,
    {
        let (a, b) = names[k];
        proof {
            assert(namesV[k as int] == (a as int, b as int));
        }
        let ghost pre_stack = stack_view(*stack);
        let ghost pre_blocks = blocks.deep_view();
        match stack_pop(stack) {
            None => {
                let nm = source.substring_char(a, b);
                proof {
                    assert(stack_view(*stack).len() == 0);
                    assert(pop_sections(
                        source@,
                        blocks.deep_view(),
                        stack_view(*stack),
                        namesV,
                        k as int,
                        tail_idx as int,
                    ) == Err::<(Seq<BlockV>, Seq<int>), ErrorV>(
                        ErrorV::UnopenedSection(source@.subrange(a as int, b as int)),
                    ));
                }
                return Err(Error::UnopenedSection(String::from_str(nm)));
            },
            Some(idx) => {
                proof {
                    assert(pre_stack.len() > 0);
                    assert(pre_stack.last() == idx as int);
                    assert(stack_view(*stack) =~= pre_stack.drop_last());
                    assert(idx < tail_idx);
                }
                let head_hash = blocks[idx].hash;
                let head_name = blocks[idx].name.clone();
                let nb = Block {
                    html: blocks[idx].html.clone(),
                    name: blocks[idx].name.clone(),
                    hash: blocks[idx].hash,
                    tag: blocks[idx].tag,
                    children: tail_idx - idx,
                };
                blocks.set(idx, nb);
                proof {
                    let head = pre_blocks[idx as int];
                    assert(nb@ == (BlockV { children: (tail_idx - idx) as nat, ..head }));
                    assert(blocks.deep_view() =~= pre_blocks.update(
                        idx as int,
                        BlockV { children: (tail_idx - idx) as nat, ..head },
                    ));
                }
                let nm = source.substring_char(a, b);
                let h = crate::fnv::hash_name(nm);
                proof {
                    let head = pre_blocks[idx as int];
                    assert(head_hash == head.hash);
                    assert(head_name@ == head.name);
                    if head.hash != spec_hash_name(source@.subrange(a as int, b as int)) {
                        assert(pop_sections(
                            source@,
                            pre_blocks,
                            pre_stack,
                            namesV,
                            k as int,
                            tail_idx as int,
                        ) == Err::<(Seq<BlockV>, Seq<int>), ErrorV>(
                            ErrorV::UnclosedSection(head.name),
                        ));
                    } else {
                        assert(pop_sections(
                            source@,
                            pre_blocks,
                            pre_stack,
                            namesV,
                            k as int,
                            tail_idx as int,
                        ) == pop_sections(
                            source@,
                            blocks.deep_view(),
                            stack_view(*stack),
                            namesV,
                            k as int + 1,
                            tail_idx as int,
                        ));
                    }
                }
                if head_hash != h {
                    return Err(Error::UnclosedSection(head_name));
                }
                k = k + 1;
            },
        }
    }
    Ok(())
}

/// Append a stored partial's blocks to the template being built.
fn splice_partial(blocks: &mut Vec<Block>, t: &Template)
    ensures
        final(blocks).deep_view() == old(blocks).deep_view() + t.blocks.deep_view(),
{
    let ghost base = blocks.deep_view();
    let tb = t.blocks.len();
    let mut k: usize = 0;
    proof {
        assert(blocks.deep_view() =~= base + t.blocks.deep_view().take(0));
    }
    while k < tb
        invariant
            tb == t.blocks@.len(),
            k <= tb,
            blocks.deep_view() == base + t.blocks.deep_view().take(k as int),
        decreases tb - k,
    {
        let blk = t.blocks[k].clone();
        let ghost blkv = blk@;
        let ghost prev_dv = blocks.deep_view();
        proof {
            assert(blkv == t.blocks.deep_view()[k as int]);
        }
        blocks.push(blk);
        proof {
            assert(blocks.deep_view() =~= prev_dv.push(blkv));
            assert(prev_dv.push(blkv) =~= base + t.blocks.deep_view().take(k as int + 1));
        }
        k = k + 1;
    }
    proof {
        assert(t.blocks.deep_view().take(tb as int) =~= t.blocks.deep_view());
    }
}

// ---------------------------------------------------------------------------
// The whole parse, executed.
// ---------------------------------------------------------------------------
/// The environment a parse runs against: the view of the partial store, if
/// one was supplied.
pub open spec fn env_view(p: Option<&Partials>) -> Option<Seq<(Seq<char>, TemplateV)>> {
    match p {
        None => None,
        Some(ps) => Some(partials_view(*ps)),
    }
}

/// The parser's running state as the specification sees it.
pub open spec fn cur_st(
    blocks: Vec<Block>,
    capacity: usize,
    stack: arrayvec::ArrayVec<usize, 16>,
) -> StV {
    StV { blocks: blocks.deep_view(), capacity: capacity as nat, stack: stack_view(stack) }
}

/// One successful parser step folds into the remainder of the parse.
proof fn lemma_parse_step_ok(
    s: Seq<char>,
    env: Option<Seq<(Seq<char>, TemplateV)>>,
    scan: int,
    last: int,
    st: StV,
    j: int,
    kind: Tag,
    three: bool,
    np: int,
    names: Seq<(int, int)>,
    last2: int,
    scan2: int,
    st2: StV,
)
    requires
        find_open(s, scan) == Some(j),
        classify(s, j) == (kind, three, np),
        collect_names(s, np, three) == Ok::<_, ()>((names, last2, scan2)),
        emit(s, env, st, s.subrange(last, j), kind, names) == Ok::<StV, ErrorV>(st2),
        scan < scan2 <= s.len(),
    ensures
        parse_from(s, env, scan, last, st) == parse_from(s, env, scan2, last2, st2),
{
}

/// A failing parser step fails the whole parse.
proof fn lemma_parse_step_err(
    s: Seq<char>,
    env: Option<Seq<(Seq<char>, TemplateV)>>,
    scan: int,
    last: int,
    st: StV,
    j: int,
    kind: Tag,
    three: bool,
    np: int,
    names: Seq<(int, int)>,
    last2: int,
    scan2: int,
    e: ErrorV,
)
    requires
        find_open(s, scan) == Some(j),
        classify(s, j) == (kind, three, np),
        collect_names(s, np, three) == Ok::<_, ()>((names, last2, scan2)),
        emit(s, env, st, s.subrange(last, j), kind, names) == Err::<StV, ErrorV>(e),
    ensures
        parse_from(s, env, scan, last, st) == Err::<(Seq<BlockV>, nat), ErrorV>(e),
{
}

/// A tag whose names cannot be tokenized fails the whole parse.
proof fn lemma_parse_step_unclosed(
    s: Seq<char>,
    env: Option<Seq<(Seq<char>, TemplateV)>>,
    scan: int,
    last: int,
    st: StV,
    j: int,
    kind: Tag,
    three: bool,
    np: int,
)
    requires
        find_open(s, scan) == Some(j),
        classify(s, j) == (kind, three, np),
        collect_names(s, np, three) is Err,
    ensures
        parse_from(s, env, scan, last, st) == Err::<(Seq<BlockV>, nat), ErrorV>(
            ErrorV::UnclosedTag,
        ),
{
}

/// Compile a template source against an optional store of partials: one
/// pass over the text, producing the flat block sequence and the capacity
/// hint, or the first error.
#[verifier::rlimit(100)]
#[verifier::spinoff_prover]
pub(crate) fn parse_source(source: &str, partials: Option<&Partials>) -> (r: Result<
    Template,
    Error,
>)
    ensures
        match r {
            Ok(t) => spec_parse(source@, env_view(partials)) == Ok::<_, ErrorV>(
                (t@.blocks, t@.capacity),
            ) && t@.source == source@,
            Err(e) => spec_parse(source@, env_view(partials)) == Err::<(Seq<BlockV>, nat), ErrorV>(
                e@,
            ),
        },
{
    let n = source.unicode_len();
    let ghost env = env_view(partials);
    let mut blocks: Vec<Block> = Vec::new();
    let mut capacity: usize = 0;
    let mut stack = stack_new();
    let mut scan: usize = 0;
    let mut last: usize = 0;
    let ghost goal = spec_parse(source@, env);
    proof {
        assert(blocks.deep_view() =~= Seq::<BlockV>::empty());
        assert(stack_view(stack) =~= Seq::<int>::empty());
        assert(cur_st(blocks, capacity, stack) == (StV {
            blocks: Seq::<BlockV>::empty(),
            capacity: 0,
            stack: Seq::<int>::empty(),
        }));
    }
    loop
        invariant
            n == source@.len(),
            last <= scan <= n,
            env == env_view(partials),
            goal == spec_parse(source@, env),
            stack_view(stack).len() <= 16,
            forall|k: int|
                0 <= k < stack_view(stack).len() ==> 0 <= #[trigger] stack_view(stack)[k]
                    < blocks.deep_view().len(),
            parse_from(source@, env, scan as int, last as int, cur_st(blocks, capacity, stack))
                == goal,
        decreases n - scan,
    {
        let ghost pre_st = cur_st(blocks, capacity, stack);
        match find_open_exec(source, scan, n) {
            None => {
                match stack_pop(&mut stack) {
                    Some(idx) => {
                        proof {
                            assert(pre_st.stack.len() > 0);
                            assert(pre_st.stack.last() == idx as int);
                            assert(idx < blocks.deep_view().len());
                        }
                        let name = blocks[idx].name.clone();
                        proof {
                            assert(name@ == pre_st.blocks[pre_st.stack.last()].name);
                            assert(parse_from(source@, env, scan as int, last as int, pre_st)
                                == Err::<(Seq<BlockV>, nat), ErrorV>(
                                ErrorV::UnclosedSection(name@),
                            ));
                        }
                        return Err(Error::UnclosedSection(name));
                    },
                    None => {
                        let tail = source.substring_char(last, n);
                        let capacity2 = sat_add_exec(capacity, tail.len());
                        let ghost prev_dv = blocks.deep_view();
                        blocks.push(Block::nameless(tail, Tag::Tail));
                        let out = Template {
                            blocks,
                            capacity_hint: capacity2,
                            source: String::from_str(source),
                        };
                        proof {
                            assert(out.blocks.deep_view() =~= prev_dv.push(
                                BlockV {
                                    html: source@.subrange(last as int, source@.len() as int),
                                    name: Seq::empty(),
                                    hash: 0,
                                    tag: Tag::Tail,
                                    children: 0,
                                },
                            ));
                            assert(parse_from(source@, env, scan as int, last as int, pre_st)
                                == Ok::<_, ErrorV>((out.blocks.deep_view(), capacity2 as nat)));
                        }
                        return Ok(out);
                    },
                }
            },
            Some(j) => {
                let kind: Tag;
                let three: bool;
                let np: usize;
                if n - j > 2 {
                    let c = source.get_char(j + 2);
                    if c == '{' {
                        kind = Tag::Unescaped;
                        three = true;
                        np = j + 3;
                    } else if c == '&' {
                        kind = Tag::Unescaped;
                        three = false;
                        np = j + 3;
                    } else if c == '#' {
                        kind = Tag::Section;
                        three = false;
                        np = j + 3;
                    } else if c == '^' {
                        kind = Tag::Inverse;
                        three = false;
                        np = j + 3;
                    } else if c == '/' {
                        kind = Tag::Closing;
                        three = false;
                        np = j + 3;
                    } else if c == '!' {
                        kind = Tag::Comment;
                        three = false;
                        np = j + 3;
                    } else if c == '>' {
                        kind = Tag::Partial;
                        three = false;
                        np = j + 3;
                    } else {
                        kind = Tag::Escaped;
                        three = false;
                        np = j + 2;
                    }
                } else {
                    kind = Tag::Escaped;
                    three = false;
                    np = j + 2;
                }
                proof {
                    assert(classify(source@, j as int) == (kind, three, np as int));
                }
                match collect_names_exec(source, np, three, n) {
                    Err(_) => {
                        proof {
                            lemma_parse_step_unclosed(
                                source@,
                                env,
                                scan as int,
                                last as int,
                                pre_st,
                                j as int,
                                kind,
                                three,
                                np as int,
                            );
                        }
                        return Err(Error::UnclosedTag);
                    },
                    Ok((names, last2, scan2)) => {
                        let ghost namesV = ranges_view(names@);
                        let html = source.substring_char(last, j);
                        let ghost htmlV = source@.subrange(last as int, j as int);
                        let capacity2 = sat_add_exec(capacity, html.len());
                        let ghost emit_out = emit(source@, env, pre_st, htmlV, kind, namesV);
                        match kind {
                            Tag::Escaped | Tag::Unescaped => {
                                emit_var(&mut blocks, source, html, &names, kind);
                                proof {
                                    assert(emit_out == Ok::<StV, ErrorV>(
                                        cur_st(blocks, capacity2, stack),
                                    ));
                                }
                            },
                            Tag::Section | Tag::Inverse => {
                                match emit_section(
                                    &mut blocks,
                                    &mut stack,
                                    source,
                                    html,
                                    &names,
                                    kind,
                                ) {
                                    Err(e) => {
                                        proof {
                                            assert(emit_out == Err::<StV, ErrorV>(e@));
                                            lemma_parse_step_err(
                                                source@,
                                                env,
                                                scan as int,
                                                last as int,
                                                pre_st,
                                                j as int,
                                                kind,
                                                three,
                                                np as int,
                                                namesV,
                                                last2 as int,
                                                scan2 as int,
                                                e@,
                                            );
                                        }
                                        return Err(e);
                                    },
                                    Ok(()) => {
                                        proof {
                                            assert(emit_out == Ok::<StV, ErrorV>(
                                                cur_st(blocks, capacity2, stack),
                                            ));
                                        }
                                    },
                                }
                            },
                            Tag::Closing => {
                                proof {
                                    assert forall|k: int| 0 <= k < names@.len() implies 0 <= #[trigger] names@[k].0
                                        < names@[k].1 <= source@.len() by {}
                                }
                                match emit_closing(&mut blocks, &mut stack, source, html, &names) {
                                    Err(e) => {
                                        proof {
                                            assert(emit_out == Err::<StV, ErrorV>(e@));
                                            lemma_parse_step_err(
                                                source@,
                                                env,
                                                scan as int,
                                                last as int,
                                                pre_st,
                                                j as int,
                                                kind,
                                                three,
                                                np as int,
                                                namesV,
                                                last2 as int,
                                                scan2 as int,
                                                e@,
                                            );
                                        }
                                        return Err(e);
                                    },
                                    Ok(()) => {
                                        proof {
                                            assert(emit_out == Ok::<StV, ErrorV>(
                                                cur_st(blocks, capacity2, stack),
                                            ));
                                        }
                                    },
                                }
                            },
                            Tag::Comment => {
                                let ghost prev_dv = blocks.deep_view();
                                blocks.push(Block::nameless(html, Tag::Comment));
                                proof {
                                    assert(blocks.deep_view() =~= prev_dv.push(
                                        BlockV {
                                            html: htmlV,
                                            name: Seq::empty(),
                                            hash: 0,
                                            tag: Tag::Comment,
                                            children: 0,
                                        },
                                    ));
                                    assert(emit_out == Ok::<StV, ErrorV>(
                                        cur_st(blocks, capacity2, stack),
                                    ));
                                }
                            },
                            Tag::Partial => {
                                if names.len() != 1 {
                                    proof {
                                        assert(emit_out == Err::<StV, ErrorV>(ErrorV::UnclosedTag));
                                        lemma_parse_step_err(
                                            source@,
                                            env,
                                            scan as int,
                                            last as int,
                                            pre_st,
                                            j as int,
                                            kind,
                                            three,
                                            np as int,
                                            namesV,
                                            last2 as int,
                                            scan2 as int,
                                            ErrorV::UnclosedTag,
                                        );
                                    }
                                    return Err(Error::UnclosedTag);
                                }
                                let (a, b) = names[0];
                                let nm = source.substring_char(a, b);
                                proof {
                                    assert(namesV[0] == (a as int, b as int));
                                }
                                match partials {
                                    None => {
                                        proof {
                                            assert(emit_out == Err::<StV, ErrorV>(
                                                ErrorV::PartialsDisabled,
                                            ));
                                            lemma_parse_step_err(
                                                source@,
                                                env,
                                                scan as int,
                                                last as int,
                                                pre_st,
                                                j as int,
                                                kind,
                                                three,
                                                np as int,
                                                namesV,
                                                last2 as int,
                                                scan2 as int,
                                                ErrorV::PartialsDisabled,
                                            );
                                        }
                                        return Err(Error::PartialsDisabled);
                                    },
                                    Some(ps) => {
                                        match ps.get(nm) {
                                            None => {
                                                proof {
                                                    assert(emit_out == Err::<StV, ErrorV>(
                                                        ErrorV::NotFound(nm@),
                                                    ));
                                                    lemma_parse_step_err(
                                                        source@,
                                                        env,
                                                        scan as int,
                                                        last as int,
                                                        pre_st,
                                                        j as int,
                                                        kind,
                                                        three,
                                                        np as int,
                                                        namesV,
                                                        last2 as int,
                                                        scan2 as int,
                                                        ErrorV::NotFound(nm@),
                                                    );
                                                }
                                                return Err(Error::NotFound(String::from_str(nm)));
                                            },
                                            Some(t) => {
                                                let ghost prev_dv = blocks.deep_view();
                                                blocks.push(Block::nameless(html, Tag::Partial));
                                                proof {
                                                    assert(blocks.deep_view() =~= prev_dv.push(
                                                        BlockV {
                                                            html: htmlV,
                                                            name: Seq::empty(),
                                                            hash: 0,
                                                            tag: Tag::Partial,
                                                            children: 0,
                                                        },
                                                    ));
                                                }
                                                splice_partial(&mut blocks, t);
                                                let cap3 = sat_add_exec(
                                                    capacity2,
                                                    t.capacity_hint,
                                                );
                                                proof {
                                                    assert(emit_out == Ok::<StV, ErrorV>(
                                                        cur_st(blocks, cap3, stack),
                                                    ));
                                                }
                                                let ghost st2 = cur_st(blocks, cap3, stack);
                                                proof {
                                                    lemma_parse_step_ok(
                                                        source@,
                                                        env,
                                                        scan as int,
                                                        last as int,
                                                        pre_st,
                                                        j as int,
                                                        kind,
                                                        three,
                                                        np as int,
                                                        namesV,
                                                        last2 as int,
                                                        scan2 as int,
                                                        st2,
                                                    );
                                                }
                                                capacity = cap3;
                                                scan = scan2;
                                                last = last2;
                                                continue;
                                            },
                                        }
                                    },
                                }
                            },
                            _ => {
                                proof {
                                    assert(false);
                                }
                                return Err(Error::UnclosedTag);
                            },
                        }
                        let ghost st2 = cur_st(blocks, capacity2, stack);
                        proof {
                            lemma_parse_step_ok(
                                source@,
                                env,
                                scan as int,
                                last as int,
                                pre_st,
                                j as int,
                                kind,
                                three,
                                np as int,
                                namesV,
                                last2 as int,
                                scan2 as int,
                                st2,
                            );
                        }
                        capacity = capacity2;
                        scan = scan2;
                        last = last2;
                    },
                }
            },
        }
    }
}

} // verus!

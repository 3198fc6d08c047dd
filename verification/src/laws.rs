//! The general properties of the engine, stated and proved once and for
//! all inputs: static text round-trips, sections follow list cardinality,
//! inverse sections fire exactly on falsy values, and field references fall
//! back to ancestor scopes.

use vstd::prelude::*;

use crate::content::field_of;
use crate::content::has_field;
use crate::content::render_value;
use crate::content::truthy;
use crate::content::Content;
use crate::error::ErrorV;
use crate::template::parse::find_open;
use crate::template::parse::spec_parse;
use crate::template::parse::str_bytes_len;
use crate::template::parse::StV;
use crate::template::section::enter_section;
use crate::template::section::field_output;
use crate::template::section::find_scope;
use crate::template::section::push4;
use crate::template::section::render_list;
use crate::template::section::render_range;
use crate::template::section::spec_render;
use crate::template::section::tag_output;
use crate::template::section::FrameV;
use crate::template::BlockV;
use crate::template::Tag;

verus! {

/// Whether a source text holds no `{{` anywhere, and therefore no tags.
pub open spec fn tagless(s: Seq<char>) -> bool {
    forall|j: int| 0 <= j < s.len() - 1 ==> !(#[trigger] s[j] == '{' && s[j + 1] == '{')
}

proof fn lemma_find_open_none(s: Seq<char>, i: int)
    requires
        0 <= i,
        tagless(s),
    ensures
        find_open(s, i) is None,
    decreases s.len() - i,
{
    if i + 1 >= s.len() {
    } else {
        assert(!(s[i] == '{' && s[i + 1] == '{'));
        lemma_find_open_none(s, i + 1);
    }
}

/// A template with no tags compiles to a single trailing-text block; it
/// renders to exactly its source text against any content value, and its
/// capacity hint equals the source's byte length.
pub proof fn lemma_static_text_round_trip(s: Seq<char>, c: Content)
    requires
        tagless(s),
    ensures
        spec_parse(s, None) matches Ok(out) && {
            &&& out.0 == seq![
                BlockV { html: s, name: Seq::empty(), hash: 0, tag: Tag::Tail, children: 0 },
            ]
            &&& out.1 == str_bytes_len(s)
            &&& spec_render(out.0, c) == s
        },
{
    lemma_find_open_none(s, 0);
    let st0 = StV { blocks: Seq::empty(), capacity: 0, stack: Seq::empty() };
    assert(s.subrange(0, s.len() as int) =~= s);
    let tail = BlockV { html: s, name: Seq::empty(), hash: 0, tag: Tag::Tail, children: 0 };
    let blocks = st0.blocks.push(tail);
    assert(blocks =~= seq![tail]);
    assert(spec_parse(s, None) == Ok::<_, ErrorV>((blocks, str_bytes_len(s))));
    let stack = seq![FrameV { value: c, pos: None }];
    assert(render_range(blocks, 1, 1, stack) == Seq::<char>::empty());
    assert(tag_output(blocks, tail, 1, 1, stack) == Seq::<char>::empty());
    assert(spec_render(blocks, c) =~= s);
}

/// A section over a list renders its body once per element, in order, each
/// element pushed as the innermost scope together with its position; an
/// empty list renders the body zero times.
pub proof fn lemma_section_cardinality(
    blocks: Seq<BlockV>,
    bs: int,
    be: int,
    stack: Seq<FrameV>,
    items: Vec<Content>,
)
    requires
        bs <= be,
    ensures
        enter_section(blocks, bs, be, stack, Content::List(items)) == render_list(
            blocks,
            bs,
            be,
            stack,
            items@,
            0,
        ),
        items@.len() == 0 ==> enter_section(blocks, bs, be, stack, Content::List(items))
            == Seq::<char>::empty(),
        forall|i: int|
            0 <= i < items@.len() ==> render_list(blocks, bs, be, stack, items@, i)
                == render_range(
                blocks,
                bs,
                be,
                push4(stack, FrameV { value: items@[i], pos: Some((i, items@.len() as int)) }),
            ) + render_list(blocks, bs, be, stack, items@, i + 1),
{
    assert forall|i: int| 0 <= i < items@.len() implies render_list(blocks, bs, be, stack, items@, i)
        == render_range(
        blocks,
        bs,
        be,
        push4(stack, FrameV { value: items@[i], pos: Some((i, items@.len() as int)) }),
    ) + render_list(blocks, bs, be, stack, items@, i + 1) by {
        assert(render_list(blocks, bs, be, stack, items@, i) == render_range(
            blocks,
            bs,
            be,
            push4(stack, FrameV { value: items@[i], pos: Some((i, items@.len() as int)) }),
        ) + render_list(blocks, bs, be, stack, items@, i + 1));
    }
}

/// An inverse section renders its body exactly once when the named value is
/// falsy or when no scope has the field, and not at all when the value is
/// truthy; the body renders against the unchanged scope stack.
pub proof fn lemma_inverse_semantics(
    blocks: Seq<BlockV>,
    b: BlockV,
    bs: int,
    be: int,
    stack: Seq<FrameV>,
)
    requires
        bs <= be,
        b.tag is Inverse,
    ensures
        match find_scope(stack, b.hash) {
            None => tag_output(blocks, b, bs, be, stack) == render_range(blocks, bs, be, stack),
            Some(i) => field_of(stack[i].value, b.hash) matches Some(v) && tag_output(
                blocks,
                b,
                bs,
                be,
                stack,
            ) == if truthy(v) {
                Seq::<char>::empty()
            } else {
                render_range(blocks, bs, be, stack)
            },
        },
{
    match find_scope(stack, b.hash) {
        None => {
        },
        Some(i) => {
            lemma_find_scope_has_field(stack, b.hash);
        },
    }
}

/// Wherever `find_scope` points, the field is really there.
pub proof fn lemma_find_scope_has_field(stack: Seq<FrameV>, h: u64)
    ensures
        find_scope(stack, h) matches Some(i) && 0 <= i < stack.len() && has_field(
            stack[i].value,
            h,
        ) || find_scope(stack, h) is None,
    decreases stack.len(),
{
    if stack.len() > 0 && !has_field(stack.last().value, h) {
        lemma_find_scope_has_field(stack.drop_last(), h);
        match find_scope(stack.drop_last(), h) {
            Some(i) => {
                assert(stack.drop_last()[i] == stack[i]);
            },
            None => {},
        }
    }
}

/// Ancestor fallback: a field reference resolves to the innermost scope
/// that defines the field, however many scopes without it lie above — so a
/// field defined only by an outer section is still found inside a nested
/// one.
pub proof fn lemma_ancestor_fallback(stack: Seq<FrameV>, h: u64, i: int)
    requires
        0 <= i < stack.len(),
        has_field(stack[i].value, h),
        forall|k: int| i < k < stack.len() ==> !has_field(#[trigger] stack[k].value, h),
    ensures
        find_scope(stack, h) == Some(i),
        field_of(stack[i].value, h) matches Some(v) && field_output(stack, h, true)
            == render_value(v, true) && field_output(stack, h, false) == render_value(v, false),
    decreases stack.len(),
{
    if i == stack.len() - 1 {
    } else {
        assert(!has_field(stack.last().value, h));
        assert forall|k: int| i < k < stack.drop_last().len() implies !has_field(
            #[trigger] stack.drop_last()[k].value,
            h,
        ) by {
            assert(stack.drop_last()[k] == stack[k]);
        }
        assert(stack.drop_last()[i] == stack[i]);
        lemma_ancestor_fallback(stack.drop_last(), h, i);
    }
}

} // verus!

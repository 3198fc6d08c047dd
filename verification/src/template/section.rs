//! The render engine: a linear walk over a compiled block slice. Each block
//! writes its literal text; tags dispatch against a bounded stack of content
//! scopes, innermost first, falling back to enclosing scopes.

use vstd::prelude::*;

use crate::content::field_of;
use crate::content::has_field;
use crate::content::render_value;
use crate::content::truthy;
use crate::content::Content;
use crate::template::parse::spec_indexed_truthy;
use crate::template::parse::Tag;
use crate::template::Block;
use crate::template::BlockV;

verus! {

/// One scope on the render stack: a content value, and — when the scope was
/// entered by iterating a list — the element's position and the list length.
#[derive(Clone, Copy)]
pub struct Frame<'a> {
    pub value: &'a Content,
    pub pos: Option<(usize, usize)>,
}

/// The mathematical shadow of a [`Frame`].
pub struct FrameV {
    pub value: Content,
    pub pos: Option<(int, int)>,
}

impl<'a> View for Frame<'a> {
    type V = FrameV;

    open spec fn view(&self) -> FrameV {
        FrameV {
            value: *self.value,
            pos: match self.pos {
                Some((i, l)) => Some((i as int, l as int)),
                None => None,
            },
        }
    }
}

/// The scope stack as the specification sees it, oldest scope first.
pub open spec fn frames_view(stack: Seq<Frame>) -> Seq<FrameV> {
    stack.map_values(|f: Frame| f@)
}

/// Scope stacks are well formed when every list position lies inside its
/// list.
pub open spec fn wf_frames(stack: Seq<FrameV>) -> bool {
    forall|k: int|
        0 <= k < stack.len() ==> (#[trigger] stack[k].pos matches Some(p) ==> 0 <= p.0 < p.1)
}

/// Pushing onto the bounded scope stack: at the depth limit of four the
/// oldest scope is rotated out.
pub open spec fn push4(stack: Seq<FrameV>, f: FrameV) -> Seq<FrameV> {
    if stack.len() < 4 {
        stack.push(f)
    } else {
        stack.drop_first().push(f)
    }
}

/// The innermost scope exposing a field under the given hash.
pub open spec fn find_scope(stack: Seq<FrameV>, h: u64) -> Option<int>
    decreases stack.len(),
{
    if stack.len() == 0 {
        None
    } else if has_field(stack.last().value, h) {
        Some(stack.len() - 1)
    } else {
        find_scope(stack.drop_last(), h)
    }
}

/// The innermost scope that was entered by iterating a list.
pub open spec fn find_indexed(stack: Seq<FrameV>) -> Option<int>
    decreases stack.len(),
{
    if stack.len() == 0 {
        None
    } else if stack.last().pos is Some {
        Some(stack.len() - 1)
    } else {
        find_indexed(stack.drop_last())
    }
}

/// What a field reference writes: the first scope, innermost outward, that
/// has the field answers; a missing field writes nothing.
pub open spec fn field_output(stack: Seq<FrameV>, h: u64, escaped: bool) -> Seq<char> {
    match find_scope(stack, h) {
        Some(i) => match field_of(stack[i].value, h) {
            Some(v) => render_value(v, escaped),
            None => Seq::empty(),
        },
        None => Seq::empty(),
    }
}

/// Rendering the blocks of the half-open range `start .. end` against a
/// scope stack. Section bodies are the `children` blocks after their opener,
/// clamped to the range.
pub open spec fn render_range(blocks: Seq<BlockV>, start: int, end: int, stack: Seq<FrameV>) -> Seq<
    char,
>
    decreases end - start, 0int, 0int,
{
    if start < 0 || start >= end || end > blocks.len() {
        Seq::empty()
    } else {
        let b = blocks[start];
        let bs = start + 1;
        let be = if start + 1 + b.children > end {
            end
        } else {
            start + 1 + b.children
        };
        let next = if b.tag is Section || b.tag is Inverse || b.tag is Indexed {
            be
        } else {
            bs
        };
        b.html + tag_output(blocks, b, bs, be, stack) + render_range(blocks, next, end, stack)
    }
}

/// What one block's tag contributes, its body being `bs .. be`.
pub open spec fn tag_output(
    blocks: Seq<BlockV>,
    b: BlockV,
    bs: int,
    be: int,
    stack: Seq<FrameV>,
) -> Seq<char>
    decreases be - bs, 3int, 0int,
{
    if bs > be {
        Seq::empty()
    } else {
        match b.tag {
            Tag::Escaped => field_output(stack, b.hash, true),
            Tag::Unescaped => field_output(stack, b.hash, false),
            Tag::Section => match find_scope(stack, b.hash) {
                Some(i) => match field_of(stack[i].value, b.hash) {
                    Some(v) => enter_section(blocks, bs, be, stack.take(i + 1), v),
                    None => Seq::empty(),
                },
                None => Seq::empty(),
            },
            Tag::Inverse => match find_scope(stack, b.hash) {
                Some(i) => match field_of(stack[i].value, b.hash) {
                    Some(v) => if truthy(v) {
                        Seq::empty()
                    } else {
                        render_range(blocks, bs, be, stack)
                    },
                    None => Seq::empty(),
                },
                None => render_range(blocks, bs, be, stack),
            },
            Tag::Indexed(ix) => match find_indexed(stack) {
                Some(i) => match stack[i].pos {
                    Some((idx, len)) => if spec_indexed_truthy(ix, len, idx) {
                        enter_section(blocks, bs, be, stack.take(i + 1), stack[i].value)
                    } else {
                        Seq::empty()
                    },
                    None => Seq::empty(),
                },
                None => Seq::empty(),
            },
            _ => Seq::empty(),
        }
    }
}

/// Entering a section with a value: a record pushes itself as the innermost
/// scope and renders the body once; a list renders the body once per
/// element, each element the innermost scope; any other value renders the
/// body once, without a new scope, when it is truthy.
pub open spec fn enter_section(
    blocks: Seq<BlockV>,
    bs: int,
    be: int,
    stack: Seq<FrameV>,
    v: Content,
) -> Seq<char>
    decreases be - bs, 2int, 0int,
{
    if bs > be {
        Seq::empty()
    } else {
        match v {
            Content::Record(_) => render_range(
                blocks,
                bs,
                be,
                push4(stack, FrameV { value: v, pos: None }),
            ),
            Content::List(items) => render_list(blocks, bs, be, stack, items@, 0),
            _ => if truthy(v) {
                render_range(blocks, bs, be, stack)
            } else {
                Seq::empty()
            },
        }
    }
}

/// Rendering a section body once per list element, from element `i` on.
pub open spec fn render_list(
    blocks: Seq<BlockV>,
    bs: int,
    be: int,
    stack: Seq<FrameV>,
    items: Seq<Content>,
    i: int,
) -> Seq<char>
    decreases be - bs, 1int, items.len() - i,
{
    if bs > be || i < 0 || i >= items.len() {
        Seq::empty()
    } else {
        render_range(
            blocks,
            bs,
            be,
            push4(stack, FrameV { value: items[i], pos: Some((i, items.len() as int)) }),
        ) + render_list(blocks, bs, be, stack, items, i + 1)
    }
}

/// What rendering a whole template against a content value produces: the
/// content starts as the only scope.
pub open spec fn spec_render(blocks: Seq<BlockV>, c: Content) -> Seq<char> {
    render_range(blocks, 0, blocks.len() as int, seq![FrameV { value: c, pos: None }])
}

// ---------------------------------------------------------------------------
// The executable walker, proved against the specification above.
// ---------------------------------------------------------------------------
/// Find the innermost scope exposing a field under the given hash.
fn find_scope_exec(stack: &Vec<Frame>, h: u64) -> (r: Option<usize>)
    ensures
        match r {
            Some(i) => i < stack@.len() && find_scope(frames_view(stack@), h) == Some(i as int)
                && has_field(frames_view(stack@)[i as int].value, h),
            None => find_scope(frames_view(stack@), h) is None,
        },
{
    let ghost sv = frames_view(stack@);
    let n = stack.len();
    proof {
        assert(sv.take(n as int) =~= sv);
    }
    let mut i: usize = n;
    while i > 0
        invariant
            n == stack@.len(),
            sv == frames_view(stack@),
            i <= n,
            find_scope(sv, h) == find_scope(sv.take(i as int), h),
        decreases i,
    {
        i = i - 1;
        proof {
            assert(sv.take(i as int + 1).last() == sv[i as int]);
            assert(sv.take(i as int + 1).drop_last() =~= sv.take(i as int));
        }
        let found = match stack[i].value.field(h) {
            Some(_) => true,
            None => false,
        };
        if found {
            proof {
                assert(has_field(sv[i as int].value, h));
            }
            return Some(i);
        }
        proof {
            assert(!has_field(sv[i as int].value, h));
        }
    }
    None
}

/// Find the innermost scope that was entered by iterating a list.
fn find_indexed_exec(stack: &Vec<Frame>) -> (r: Option<usize>)
    ensures
        match r {
            Some(i) => i < stack@.len() && find_indexed(frames_view(stack@)) == Some(i as int)
                && frames_view(stack@)[i as int].pos is Some,
            None => find_indexed(frames_view(stack@)) is None,
        },
{
    let ghost sv = frames_view(stack@);
    let n = stack.len();
    proof {
        assert(sv.take(n as int) =~= sv);
    }
    let mut i: usize = n;
    while i > 0
        invariant
            n == stack@.len(),
            sv == frames_view(stack@),
            i <= n,
            find_indexed(sv) == find_indexed(sv.take(i as int)),
        decreases i,
    {
        i = i - 1;
        proof {
            assert(sv.take(i as int + 1).last() == sv[i as int]);
            assert(sv.take(i as int + 1).drop_last() =~= sv.take(i as int));
        }
        if stack[i].pos.is_some() {
            return Some(i);
        }
    }
    None
}

/// The value a field reference resolves to, innermost scope first.
fn field_value<'a>(stack: &Vec<Frame<'a>>, h: u64) -> (r: Option<&'a Content>)
    ensures
        match r {
            Some(v) => field_output(frames_view(stack@), h, true) == render_value(*v, true)
                && field_output(frames_view(stack@), h, false) == render_value(*v, false),
            None => field_output(frames_view(stack@), h, true) == Seq::<char>::empty()
                && field_output(frames_view(stack@), h, false) == Seq::<char>::empty(),
        },
{
    match find_scope_exec(stack, h) {
        None => None,
        Some(i) => {
            let fr: Frame<'a> = stack[i];
            proof {
                assert(frames_view(stack@)[i as int] == fr@);
            }
            match fr.value.field(h) {
                Some(v) => Some(v),
                None => {
                    proof {
                        assert(false);
                    }
                    None
                },
            }
        },
    }
}

/// The top `upto` scopes of the stack, with one new scope pushed under the
/// depth-four bound.
fn stack_enter<'a>(stack: &Vec<Frame<'a>>, upto: usize, f: Frame<'a>) -> (r: Vec<Frame<'a>>)
    requires
        upto <= stack@.len(),
        upto <= 4,
        wf_frames(frames_view(stack@)),
        f@.pos matches Some(p) ==> 0 <= p.0 < p.1,
    ensures
        frames_view(r@) == push4(frames_view(stack@).take(upto as int), f@),
        frames_view(r@).len() <= 4,
        wf_frames(frames_view(r@)),
{
    let ghost sv = frames_view(stack@);
    let mut r: Vec<Frame<'a>> = Vec::new();
    let lo: usize = if upto >= 4 {
        upto - 3
    } else {
        0
    };
    let mut k = lo;
    proof {
        assert(frames_view(r@) =~= sv.subrange(lo as int, lo as int));
    }
    while k < upto
        invariant
            lo <= k <= upto,
            upto <= stack@.len(),
            sv == frames_view(stack@),
            frames_view(r@) == sv.subrange(lo as int, k as int),
        decreases upto - k,
    {
        let fr = stack[k];
        let ghost prev_fv = frames_view(r@);
        proof {
            assert(fr@ == sv[k as int]);
        }
        r.push(fr);
        k = k + 1;
        proof {
            assert(r@.last() == fr);
            assert(frames_view(r@).len() == prev_fv.len() + 1);
            assert(frames_view(r@).last() == fr@);
            assert forall|i: int| 0 <= i < prev_fv.len() implies frames_view(r@)[i] == prev_fv[i]
                by {
                assert(r@[i] == r@.drop_last()[i]);
            }
            assert(frames_view(r@) =~= prev_fv.push(fr@));
            assert(frames_view(r@) =~= sv.subrange(lo as int, k as int));
        }
    }
    r.push(f);
    proof {
        assert(frames_view(r@) =~= sv.subrange(lo as int, upto as int).push(f@));
        if upto >= 4 {
            assert(sv.take(upto as int).drop_first() =~= sv.subrange(lo as int, upto as int));
        } else {
            assert(sv.take(upto as int) =~= sv.subrange(lo as int, upto as int));
        }
        assert(frames_view(r@) =~= push4(sv.take(upto as int), f@));
        assert forall|t: int|
            0 <= t < frames_view(r@).len() implies (#[trigger] frames_view(r@)[t].pos matches Some(
            p,
        ) ==> 0 <= p.0 < p.1) by {
            if t < frames_view(r@).len() - 1 {
                assert(frames_view(r@)[t] == sv[lo + t]);
            }
        }
    }
    r
}

/// The top `upto` scopes of the stack.
fn stack_take_exec<'a>(stack: &Vec<Frame<'a>>, upto: usize) -> (r: Vec<Frame<'a>>)
    requires
        upto <= stack@.len(),
        wf_frames(frames_view(stack@)),
    ensures
        frames_view(r@) == frames_view(stack@).take(upto as int),
        wf_frames(frames_view(r@)),
{
    let ghost sv = frames_view(stack@);
    let mut r: Vec<Frame<'a>> = Vec::new();
    let mut k: usize = 0;
    proof {
        assert(frames_view(r@) =~= sv.take(0));
    }
    while k < upto
        invariant
            k <= upto,
            upto <= stack@.len(),
            sv == frames_view(stack@),
            frames_view(r@) == sv.take(k as int),
        decreases upto - k,
    {
        let fr = stack[k];
        let ghost prev_fv = frames_view(r@);
        proof {
            assert(fr@ == sv[k as int]);
        }
        r.push(fr);
        k = k + 1;
        proof {
            assert(r@.last() == fr);
            assert(frames_view(r@).len() == prev_fv.len() + 1);
            assert(frames_view(r@).last() == fr@);
            assert forall|i: int| 0 <= i < prev_fv.len() implies frames_view(r@)[i] == prev_fv[i]
                by {
                assert(r@[i] == r@.drop_last()[i]);
            }
            assert(frames_view(r@) =~= prev_fv.push(fr@));
            assert(frames_view(r@) =~= sv.take(k as int));
        }
    }
    proof {
        assert forall|t: int|
            0 <= t < frames_view(r@).len() implies (#[trigger] frames_view(r@)[t].pos matches Some(
            p,
        ) ==> 0 <= p.0 < p.1) by {
            assert(frames_view(r@)[t] == sv[t]);
        }
    }
    r
}

/// Render the blocks of `start .. end` against the scope stack, appending
/// to the output.
#[verifier::rlimit(100)]
pub fn render_range_to<'a>(
    blocks: &Vec<Block>,
    start: usize,
    end: usize,
    stack: &Vec<Frame<'a>>,
    buf: &mut String,
)
    requires
        start <= end,
        end <= blocks@.len(),
        frames_view(stack@).len() <= 4,
        wf_frames(frames_view(stack@)),
    ensures
        final(buf)@ == old(buf)@ + render_range(
            blocks.deep_view(),
            start as int,
            end as int,
            frames_view(stack@),
        ),
    decreases end - start, 0int,
{
    let ghost dv = blocks.deep_view();
    let ghost sv = frames_view(stack@);
    let mut idx = start;
    proof {
        assert(buf@ == old(buf)@);
        assert(buf@ + render_range(dv, idx as int, end as int, sv) =~= old(buf)@ + render_range(
            dv,
            start as int,
            end as int,
            sv,
        ));
    }
    while idx < end
        invariant
            end <= blocks@.len(),
            start <= idx <= end,
            dv == blocks.deep_view(),
            sv == frames_view(stack@),
            sv.len() <= 4,
            wf_frames(sv),
            old(buf)@ + render_range(dv, start as int, end as int, sv) == buf@ + render_range(
                dv,
                idx as int,
                end as int,
                sv,
            ),
        decreases end - idx,
    {
        let ghost oidx = idx as int;
        let ghost buf0 = buf@;
        let b = &blocks[idx];
        let ghost bV = dv[oidx];
        proof {
            assert(bV == b@);
        }
        crate::encoding::write_unescaped(buf, b.html.as_str());
        let ghost buf1 = buf@;
        let bs = idx + 1;
        let children = b.children;
        let be = if children > end - bs {
            end
        } else {
            bs + children
        };
        proof {
            assert(bs as int == oidx + 1);
            assert(be as int == (if oidx + 1 + bV.children > end as int {
                end as int
            } else {
                oidx + 1 + bV.children
            }));
        }
        match &b.tag {
            Tag::Escaped => {
                match field_value(stack, b.hash) {
                    Some(v) => v.render_escaped(buf),
                    None => (),
                }
                proof {
                    assert(buf@ == buf1 + tag_output(dv, bV, bs as int, be as int, sv));
                }
                idx = bs;
            },
            Tag::Unescaped => {
                match field_value(stack, b.hash) {
                    Some(v) => v.render_unescaped(buf),
                    None => (),
                }
                proof {
                    assert(buf@ == buf1 + tag_output(dv, bV, bs as int, be as int, sv));
                }
                idx = bs;
            },
            Tag::Section => {
                match find_scope_exec(stack, b.hash) {
                    None => {
                        proof {
                            assert(buf@ =~= buf1 + tag_output(dv, bV, bs as int, be as int, sv));
                        }
                    },
                    Some(i) => {
                        let fr: Frame<'a> = stack[i];
                        proof {
                            assert(fr@ == sv[i as int]);
                        }
                        match fr.value.field(b.hash) {
                            None => {
                                proof {
                                    assert(false);
                                }
                            },
                            Some(v) => {
                                enter_to(blocks, bs, be, stack, i, v, buf);
                                proof {
                                    assert(buf@ == buf1 + tag_output(
                                        dv,
                                        bV,
                                        bs as int,
                                        be as int,
                                        sv,
                                    ));
                                }
                            },
                        }
                    },
                }
                idx = be;
            },
            Tag::Inverse => {
                match find_scope_exec(stack, b.hash) {
                    None => {
                        render_range_to(blocks, bs, be, stack, buf);
                        proof {
                            assert(buf@ == buf1 + tag_output(dv, bV, bs as int, be as int, sv));
                        }
                    },
                    Some(i) => {
                        let fr: Frame<'a> = stack[i];
                        proof {
                            assert(fr@ == sv[i as int]);
                        }
                        match fr.value.field(b.hash) {
                            None => {
                                proof {
                                    assert(false);
                                }
                            },
                            Some(v) => {
                                if !v.is_truthy() {
                                    render_range_to(blocks, bs, be, stack, buf);
                                }
                                proof {
                                    assert(buf@ == buf1 + tag_output(
                                        dv,
                                        bV,
                                        bs as int,
                                        be as int,
                                        sv,
                                    ));
                                }
                            },
                        }
                    },
                }
                idx = be;
            },
            Tag::Indexed(ix) => {
                match find_indexed_exec(stack) {
                    None => {
                        proof {
                            assert(buf@ =~= buf1 + tag_output(dv, bV, bs as int, be as int, sv));
                        }
                    },
                    Some(i) => {
                        let fr: Frame<'a> = stack[i];
                        proof {
                            assert(fr@ == sv[i as int]);
                        }
                        match fr.pos {
                            None => {
                                proof {
                                    assert(false);
                                }
                            },
                            Some((pidx, plen)) => {
                                if ix.is_truthy(plen, pidx) {
                                    enter_to(blocks, bs, be, stack, i, fr.value, buf);
                                }
                                proof {
                                    assert(buf@ == buf1 + tag_output(
                                        dv,
                                        bV,
                                        bs as int,
                                        be as int,
                                        sv,
                                    ));
                                }
                            },
                        }
                    },
                }
                idx = be;
            },
            _ => {
                proof {
                    assert(buf@ =~= buf1 + tag_output(dv, bV, bs as int, be as int, sv));
                }
                idx = bs;
            },
        }
        proof {
            assert(render_range(dv, oidx, end as int, sv) == bV.html + tag_output(
                dv,
                bV,
                oidx + 1,
                be as int,
                sv,
            ) + render_range(dv, idx as int, end as int, sv));
            assert(buf@ =~= buf0 + (bV.html + tag_output(dv, bV, oidx + 1, be as int, sv)));
            assert(buf0 + (bV.html + tag_output(dv, bV, oidx + 1, be as int, sv)) + render_range(
                dv,
                idx as int,
                end as int,
                sv,
            ) =~= buf0 + render_range(dv, oidx, end as int, sv));
        }
    }
}

/// Enter a section found in the scope at `upto_incl` with the field value
/// `v`: the scopes above it are discarded, and the value decides how often
/// and under which new scope the body renders.
fn enter_to<'a>(
    blocks: &Vec<Block>,
    bs: usize,
    be: usize,
    stack: &Vec<Frame<'a>>,
    upto_incl: usize,
    v: &'a Content,
    buf: &mut String,
)
    requires
        be <= blocks@.len(),
        bs <= be,
        upto_incl < stack@.len(),
        frames_view(stack@).len() <= 4,
        wf_frames(frames_view(stack@)),
    ensures
        final(buf)@ == old(buf)@ + enter_section(
            blocks.deep_view(),
            bs as int,
            be as int,
            frames_view(stack@).take(upto_incl + 1),
            *v,
        ),
    decreases be - bs, 1int,
{
    let ghost dv = blocks.deep_view();
    let ghost tk = frames_view(stack@).take(upto_incl as int + 1);
    match v {
        Content::Record(_) => {
            let sub = stack_enter(stack, upto_incl + 1, Frame { value: v, pos: None });
            render_range_to(blocks, bs, be, &sub, buf);
        },
        Content::List(items) => {
            let ghost buf0 = buf@;
            let ln = items.len();
            let mut t: usize = 0;
            while t < ln
                invariant
                    ln == items@.len(),
                    t <= ln,
                    be <= blocks@.len(),
                    bs <= be,
                    upto_incl < stack@.len(),
                    frames_view(stack@).len() <= 4,
                    wf_frames(frames_view(stack@)),
                    dv == blocks.deep_view(),
                    tk == frames_view(stack@).take(upto_incl as int + 1),
                    buf0 == old(buf)@,
                    buf0 + render_list(dv, bs as int, be as int, tk, items@, 0) == buf@
                        + render_list(dv, bs as int, be as int, tk, items@, t as int),
                decreases ln - t,
            {
                let ghost bufa = buf@;
                let item: &Content = &items[t];
                let sub = stack_enter(
                    stack,
                    upto_incl + 1,
                    Frame { value: item, pos: Some((t, ln)) },
                );
                render_range_to(blocks, bs, be, &sub, buf);
                proof {
                    assert(render_list(dv, bs as int, be as int, tk, items@, t as int)
                        == render_range(
                        dv,
                        bs as int,
                        be as int,
                        push4(
                            tk,
                            FrameV { value: items@[t as int], pos: Some((t as int, ln as int)) },
                        ),
                    ) + render_list(dv, bs as int, be as int, tk, items@, t as int + 1));
                    assert(buf@ =~= bufa + render_range(
                        dv,
                        bs as int,
                        be as int,
                        push4(
                            tk,
                            FrameV { value: items@[t as int], pos: Some((t as int, ln as int)) },
                        ),
                    ));
                    assert(buf0 + render_list(dv, bs as int, be as int, tk, items@, 0) =~= buf@
                        + render_list(dv, bs as int, be as int, tk, items@, t as int + 1));
                }
                t = t + 1;
            }
            proof {
                assert(buf@ =~= buf0 + render_list(dv, bs as int, be as int, tk, items@, 0));
            }
        },
        _ => {
            if v.is_truthy() {
                let sub = stack_take_exec(stack, upto_incl + 1);
                render_range_to(blocks, bs, be, &sub, buf);
            }
        },
    }
}

} // verus!

//! Walking the variables of a compiled template: each step yields the next
//! named tag, together with the nested body when the tag opens a section.

use vstd::prelude::*;
use vstd::slice::slice_subrange;

use crate::template::Block;
use crate::template::BlockV;
use crate::template::Tag;
use crate::template::Template;

verus! {

/// The blocks a slice holds, as their mathematical shadows.
pub open spec fn blocks_views(s: Seq<Block>) -> Seq<BlockV> {
    s.map_values(|b: Block| b@)
}

/// Whether a tag names a variable or a section.
pub open spec fn named_tag(t: Tag) -> bool {
    t is Escaped || t is Unescaped || t is Section || t is Inverse || t is Indexed
}

/// Whether a tag opens a section with a body of its own.
pub open spec fn section_tag(t: Tag) -> bool {
    t is Section || t is Inverse || t is Indexed
}

/// The position of the first block carrying a name.
pub open spec fn first_named(blocks: Seq<BlockV>) -> Option<int>
    decreases blocks.len(),
{
    if blocks.len() == 0 {
        None
    } else if named_tag(blocks.first().tag) {
        Some(0)
    } else {
        match first_named(blocks.drop_first()) {
            Some(i) => Some(i + 1),
            None => None,
        }
    }
}

/// An iterator-like walk over the variables of a compiled block slice.
pub struct Variables<'var> {
    pub blocks: &'var [Block],
}

impl<'var> Variables<'var> {
    /// Walk the variables of a whole template.
    pub fn new(tpl: &'var Template) -> (r: Variables<'var>)
        ensures
            r.blocks@ == tpl.blocks@,
    {
        Variables { blocks: tpl.blocks.as_slice() }
    }

    /// The next named tag: its name, and — for section openers — a walk
    /// over the section's body. Blocks without names are passed over; the
    /// walk continues after the tag, or after its body for sections.
    pub fn next(&mut self) -> (r: Option<(&'var str, Option<Variables<'var>>)>)
        ensures
            ({
                let bv = blocks_views(old(self).blocks@);
                match first_named(bv) {
                    None => r is None && final(self).blocks@.len() == 0,
                    Some(i) => {
                        let b = bv[i];
                        let body_end = if i + 1 + b.children > bv.len() {
                            bv.len() as int
                        } else {
                            i + 1 + b.children
                        };
                        &&& r matches Some((name, nested)) && name@ == b.name && (if section_tag(
                            b.tag,
                        ) {
                            &&& nested matches Some(vs) && blocks_views(vs.blocks@)
                                == bv.subrange(i + 1, body_end)
                            &&& blocks_views(final(self).blocks@) == bv.subrange(
                                body_end,
                                bv.len() as int,
                            )
                        } else {
                            &&& nested is None
                            &&& blocks_views(final(self).blocks@) == bv.subrange(
                                i + 1,
                                bv.len() as int,
                            )
                        })
                    },
                }
            }),
    {
        let ghost bv0 = blocks_views(self.blocks@);
        let ghost total = bv0.len() as int;
        proof {
            assert(bv0.subrange(0, total) =~= bv0);
        }
        let mut k: usize = 0;
        loop
            invariant
                bv0 == blocks_views(old(self).blocks@),
                total == bv0.len(),
                k <= total,
                self.blocks@ == old(self).blocks@,
                first_named(bv0) == (match first_named(bv0.subrange(k as int, total)) {
                    Some(j) => Some(j + k),
                    None => None,
                }),
            decreases total - k,
        {
            if k >= self.blocks.len() {
                proof {
                    assert(bv0.subrange(k as int, total).len() == 0);
                }
                self.blocks = slice_subrange(self.blocks, k, k);
                proof {
                    assert(blocks_views(self.blocks@) =~= Seq::<BlockV>::empty());
                }
                return None;
            }
            let b: &Block = &self.blocks[k];
            proof {
                assert(bv0.subrange(k as int, total).first() == bv0[k as int]);
                assert(bv0[k as int] == b@);
                assert(bv0.subrange(k as int, total).drop_first() =~= bv0.subrange(
                    k as int + 1,
                    total,
                ));
            }
            match b.tag {
                Tag::Closing | Tag::Comment | Tag::Partial | Tag::Tail => {
                    k = k + 1;
                },
                Tag::Escaped | Tag::Unescaped => {
                    let rest = slice_subrange(self.blocks, k + 1, self.blocks.len());
                    let name: &'var str = self.blocks[k].name.as_str();
                    self.blocks = rest;
                    proof {
                        assert(blocks_views(self.blocks@) =~= bv0.subrange(k as int + 1, total));
                    }
                    return Some((name, None));
                },
                _ => {
                    let len = self.blocks.len();
                    let children = b.children;
                    let body_end = if children > len - (k + 1) {
                        len
                    } else {
                        k + 1 + children
                    };
                    let body = slice_subrange(self.blocks, k + 1, body_end);
                    let rest = slice_subrange(self.blocks, body_end, len);
                    let name: &'var str = self.blocks[k].name.as_str();
                    self.blocks = rest;
                    proof {
                        assert(blocks_views(body@) =~= bv0.subrange(
                            k as int + 1,
                            body_end as int,
                        ));
                        assert(blocks_views(self.blocks@) =~= bv0.subrange(body_end as int, total));
                    }
                    return Some((name, Some(Variables { blocks: body })));
                },
            }
        }
    }
}

} // verus!

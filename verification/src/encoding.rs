//! Writing pieces of a template or data to an output string, escaping special
//! HTML characters.

use vstd::prelude::*;
use vstd::string::StringExecFns;
use vstd::string::StrSliceExecFns;

verus! {

/// The HTML replacement for a single character: `<`, `>`, `&` and `"` become
/// entities, every other character stands for itself.
pub open spec fn escape_char(c: char) -> Seq<char> {
    if c == '<' {
        "&lt;"@
    } else if c == '>' {
        "&gt;"@
    } else if c == '&' {
        "&amp;"@
    } else if c == '"' {
        "&quot;"@
    } else {
        seq![c]
    }
}

/// HTML-escaping of a whole sequence of characters.
pub open spec fn escape(s: Seq<char>) -> Seq<char>
    decreases s.len(),
{
    if s.len() == 0 {
        Seq::empty()
    } else {
        escape(s.drop_last()) + escape_char(s.last())
    }
}

/// Write a `&str` to the output in plain mode.
pub fn write_unescaped(buf: &mut String, part: &str)
    ensures
        final(buf)@ == old(buf)@ + part@,
{
    buf.append(part);
}

/// Write a `&str` to the output, escaping special HTML characters.
pub fn write_escaped(buf: &mut String, part: &str)
    ensures
        final(buf)@ == old(buf)@ + escape(part@),
{
    let n = part.unicode_len();
    let mut i: usize = 0;
    while i < n
        invariant
            n == part@.len(),
            i <= n,
            buf@ == old(buf)@ + escape(part@.take(i as int)),
        decreases n - i,
    {
        let c = part.get_char(i);
        if c == '<' {
            buf.append("&lt;");
        } else if c == '>' {
            buf.append("&gt;");
        } else if c == '&' {
            buf.append("&amp;");
        } else if c == '"' {
            buf.append("&quot;");
        } else {
            let piece = part.substring_char(i, i + 1);
            proof {
                assert(piece@ =~= seq![c]);
            }
            buf.append(piece);
        }
        i = i + 1;
        proof {
            assert(part@.take(i as int).drop_last() =~= part@.take(i - 1));
            assert(part@.take(i as int).last() == c);
        }
    }
    proof {
        assert(part@.take(n as int) =~= part@);
    }
}

} // verus!

//! The flat variable table behind the simple chunks-and-variables template
//! form: each occurrence of a variable name is recorded with its FNV-1a
//! hash and with the rank of its name among all distinct names in
//! lexicographic order, so that equal names share a field slot.

use vstd::prelude::*;
use vstd::string::StrSliceExecFns;
use vstd::string::StringExecFns;

use crate::encoding::escape;
use crate::fnv::spec_hash;
use crate::template::parse::find_open;
use crate::template::parse::str_bytes_len;
use crate::template::str_eq;

verus! {

/// Lexicographic order on character sequences, by code point — the same
/// order byte-wise comparison of their UTF-8 encodings gives.
pub open spec fn lex_lt(a: Seq<char>, b: Seq<char>) -> bool
    decreases a.len(),
{
    if b.len() == 0 {
        false
    } else if a.len() == 0 {
        true
    } else if a.first() != b.first() {
        (a.first() as u32) < (b.first() as u32)
    } else {
        lex_lt(a.drop_first(), b.drop_first())
    }
}

/// Whether position `j` holds the first occurrence of its name.
pub open spec fn first_occurrence(names: Seq<Seq<char>>, j: int) -> bool {
    forall|k: int| 0 <= k < j ==> #[trigger] names[k] != names[j]
}

/// How many distinct names among the first `upto` are smaller than the
/// target.
pub open spec fn smaller_distinct_upto(names: Seq<Seq<char>>, target: Seq<char>, upto: int) -> nat
    decreases upto,
{
    if upto <= 0 {
        0
    } else {
        smaller_distinct_upto(names, target, upto - 1) + if first_occurrence(names, upto - 1)
            && lex_lt(names[upto - 1], target) {
            1nat
        } else {
            0nat
        }
    }
}

/// The field slot of the name at position `i`: the rank of its name among
/// all distinct names, in lexicographic order.
pub open spec fn field_rank(names: Seq<Seq<char>>, i: int) -> nat {
    smaller_distinct_upto(names, names[i], names.len() as int)
}

/// Whether one string sorts before another, by code point.
pub fn str_lt(a: &str, b: &str) -> (r: bool)
    ensures
        r == lex_lt(a@, b@),
{
    let na = a.unicode_len();
    let nb = b.unicode_len();
    let mut i: usize = 0;
    proof {
        assert(a@.skip(0) =~= a@);
        assert(b@.skip(0) =~= b@);
    }
    loop
        invariant
            na == a@.len(),
            nb == b@.len(),
            i <= na,
            i <= nb,
            lex_lt(a@, b@) == lex_lt(a@.skip(i as int), b@.skip(i as int)),
        decreases na - i,
    {
        if i >= nb {
            proof {
                assert(b@.skip(i as int).len() == 0);
            }
            return false;
        }
        if i >= na {
            proof {
                assert(a@.skip(i as int).len() == 0);
                assert(b@.skip(i as int).len() > 0);
            }
            return true;
        }
        let ca = a.get_char(i);
        let cb = b.get_char(i);
        proof {
            assert(a@.skip(i as int).first() == ca);
            assert(b@.skip(i as int).first() == cb);
        }
        if ca != cb {
            return (ca as u32) < (cb as u32);
        }
        proof {
            assert(a@.skip(i as int).drop_first() =~= a@.skip(i as int + 1));
            assert(b@.skip(i as int).drop_first() =~= b@.skip(i as int + 1));
        }
        i = i + 1;
    }
}

/// What kind of substitution a variable performs.
#[derive(Debug, Clone, Copy, PartialEq, Eq, Structural)]
pub enum VKind {
    /// `{{name}}`: substituted with HTML escaping.
    Escaped,
    /// `{{{name}}}`: substituted verbatim.
    Unescaped,
    /// `{{!name}}`: substituted with nothing.
    Comment,
}

/// One variable occurrence: its kind, name, the name's FNV-1a hash, and the
/// field slot it reads.
#[derive(Debug, PartialEq, Eq)]
pub struct Variable {
    pub kind: VKind,
    pub name: String,
    pub hash: u64,
    pub field: usize,
}

impl Variable {
    /// Record a variable occurrence; the hash is the 64-bit FNV-1a hash of
    /// the name.
    pub fn new(kind: VKind, name: &str, field: usize) -> (r: Variable)
        ensures
            r.kind == kind,
            r.name@ == name@,
            r.hash == spec_hash(name@),
            r.field == field,
    {
        Variable { kind, name: String::from_str(name), hash: crate::fnv::hash(name), field }
    }
}

/// One record of a variable table: a name, its FNV-1a hash, and the field
/// slot it reads.
#[derive(Debug, PartialEq, Eq)]
pub struct VarTableRecord {
    pub name: String,
    pub hash: u64,
    pub field: usize,
}

impl VarTableRecord {
    /// Record a name under a field slot; the hash is the 64-bit FNV-1a hash
    /// of the name.
    pub fn new(name: &str, field: usize) -> (r: VarTableRecord)
        ensures
            r.name@ == name@,
            r.hash == spec_hash(name@),
            r.field == field,
    {
        VarTableRecord { name: String::from_str(name), hash: crate::fnv::hash(name), field }
    }
}

/// The variable table of a simple template: one record per variable
/// occurrence, with equal names sharing a field slot.
pub struct VarTable {
    pub table: Vec<VarTableRecord>,
}

impl VarTable {
    /// Build the table from the variable names in order of occurrence: each
    /// record's field is the rank of its name among the distinct names in
    /// lexicographic order, so equal names map to equal fields and smaller
    /// names to smaller fields.
    pub fn from_names(names: &Vec<String>) -> (r: VarTable)
        ensures
            r.table@.len() == names@.len(),
            forall|i: int|
                0 <= i < names@.len() ==> {
                    &&& (#[trigger] r.table@[i]).name@ == names.deep_view()[i]
                    &&& r.table@[i].hash == spec_hash(names.deep_view()[i])
                    &&& r.table@[i].field == field_rank(names.deep_view(), i)
                },
    {
        let ghost dv = names.deep_view();
        let n = names.len();
        let mut table: Vec<VarTableRecord> = Vec::new();
        let mut i: usize = 0;
        while i < n
            invariant
                n == names@.len(),
                dv == names.deep_view(),
                i <= n,
                table@.len() == i,
                forall|t: int|
                    0 <= t < i ==> {
                        &&& (#[trigger] table@[t]).name@ == dv[t]
                        &&& table@[t].hash == spec_hash(dv[t])
                        &&& table@[t].field == field_rank(dv, t)
                    },
            decreases n - i,
        {
            let mut cnt: usize = 0;
            let mut j: usize = 0;
            while j < n
                invariant
                    n == names@.len(),
                    dv == names.deep_view(),
                    i < n,
                    j <= n,
                    cnt <= j,
                    cnt == smaller_distinct_upto(dv, dv[i as int], j as int),
                decreases n - j,
            {
                let mut first = true;
                let mut k: usize = 0;
                while k < j
                    invariant
                        n == names@.len(),
                        dv == names.deep_view(),
                        j < n,
                        k <= j,
                        first == (forall|t: int| 0 <= t < k ==> #[trigger] dv[t] != dv[j as int]),
                    decreases j - k,
                {
                    proof {
                        assert(dv[k as int] == names@[k as int]@);
                        assert(dv[j as int] == names@[j as int]@);
                    }
                    if str_eq(names[k].as_str(), names[j].as_str()) {
                        first = false;
                    }
                    k = k + 1;
                }
                proof {
                    assert(first == first_occurrence(dv, j as int));
                }
                proof {
                    assert(dv[j as int] == names@[j as int]@);
                    assert(dv[i as int] == names@[i as int]@);
                }
                if first && str_lt(names[j].as_str(), names[i].as_str()) {
                    cnt = cnt + 1;
                }
                j = j + 1;
            }
            proof {
                assert(dv[i as int] == names@[i as int]@);
            }
            table.push(VarTableRecord::new(names[i].as_str(), cnt));
            i = i + 1;
        }
        VarTable { table }
    }
}

/// One field a value offers to a simple template: the FNV-1a hash of its
/// name, and its text.
#[derive(Debug, Clone, Copy)]
pub struct Field<'ctx> {
    pub hash: u64,
    pub value: &'ctx str,
}

impl<'ctx> Field<'ctx> {
    /// Hash should be a 64 bit variant of FNV-1a hash of the field name.
    pub fn new(hash: u64, value: &'ctx str) -> (r: Field<'ctx>)
        ensures
            r.hash == hash,
            r.value@ == value@,
    {
        Field { hash, value }
    }

    /// Create a field from name (note: this will perform the hashing).
    pub fn from_name(name: &str, value: &'ctx str) -> (r: Field<'ctx>)
        ensures
            r.hash == spec_hash(name@),
            r.value@ == value@,
    {
        Field { hash: crate::fnv::hash(name), value }
    }
}

// ---------------------------------------------------------------------------
// The simple flat template: literal chunks interleaved with variables.
// ---------------------------------------------------------------------------
/// The whitespace characters the simple tokenizer skips while deciding a
/// tag's kind.
pub open spec fn vt_ws(c: char) -> bool {
    c == ' ' || c == '\t' || c == '\r' || c == '\n'
}

/// The characters name trimming removes: the Unicode white-space set, the
/// one `char::is_whitespace` recognizes.
pub open spec fn trim_ws(c: char) -> bool {
    let u = c as u32;
    ||| 0x09 <= u <= 0x0D
    ||| u == 0x20
    ||| u == 0x85
    ||| u == 0xA0
    ||| u == 0x1680
    ||| 0x2000 <= u <= 0x200A
    ||| u == 0x2028
    ||| u == 0x2029
    ||| u == 0x202F
    ||| u == 0x205F
    ||| u == 0x3000
}

/// How many leading white-space characters a sequence has.
pub open spec fn lead_ws(s: Seq<char>) -> int
    decreases s.len(),
{
    if s.len() == 0 || !trim_ws(s.first()) {
        0
    } else {
        1 + lead_ws(s.drop_first())
    }
}

/// How many trailing white-space characters a sequence has.
pub open spec fn trail_ws(s: Seq<char>) -> int
    decreases s.len(),
{
    if s.len() == 0 || !trim_ws(s.last()) {
        0
    } else {
        1 + trail_ws(s.drop_last())
    }
}

/// A sequence with its leading and trailing white space removed.
pub open spec fn vt_trim(s: Seq<char>) -> Seq<char> {
    let t = s.skip(lead_ws(s));
    t.take(t.len() - trail_ws(t))
}

/// The first significant character after a `{{` decides the kind of the
/// variable: `{` makes it a three-brace unescaped one, `!` a comment,
/// anything else an escaped substitution. Returns the kind, the number of
/// closing braces expected, and where scanning resumes; nothing at end of
/// input.
pub open spec fn vt_kind(s: Seq<char>, p: int) -> Option<(VKind, int, int)>
    decreases s.len() - p,
{
    if p < 0 || p >= s.len() {
        None
    } else if s[p] == '{' {
        Some((VKind::Unescaped, 3, p + 1))
    } else if s[p] == '!' {
        Some((VKind::Comment, 2, p + 1))
    } else if vt_ws(s[p]) {
        vt_kind(s, p + 1)
    } else {
        Some((VKind::Escaped, 2, p + 1))
    }
}

/// The first position at or after `i` where a closing `}}` starts.
pub open spec fn vt_find_close(s: Seq<char>, i: int) -> Option<int>
    decreases s.len() - i,
{
    if i + 1 >= s.len() {
        None
    } else if s[i] == '}' && s[i + 1] == '}' {
        Some(i)
    } else {
        vt_find_close(s, i + 1)
    }
}

/// Tokenizing a simple template from the scanning position on: the literal
/// chunks, and the variables between them with their kinds. A tag whose
/// closing braces are never found contributes its pending chunk and then
/// the whole remaining text as the final chunk, with no variable.
pub open spec fn vt_parse(s: Seq<char>, scan: int) -> (Seq<Seq<char>>, Seq<(VKind, Seq<char>)>)
    decreases s.len() - scan,
{
    match find_open(s, scan) {
        None => (seq![s.subrange(scan, s.len() as int)], Seq::empty()),
        Some(start) => match vt_kind(s, start + 2) {
            None => (
                seq![s.subrange(scan, start), s.subrange(scan, s.len() as int)],
                Seq::empty(),
            ),
            Some((kind, braces, q)) => match vt_find_close(s, q) {
                None => (
                    seq![s.subrange(scan, start), s.subrange(scan, s.len() as int)],
                    Seq::empty(),
                ),
                Some(end) => {
                    let nm = vt_trim(s.subrange(start + braces, end));
                    let nxt = if end + braces > s.len() {
                        s.len() as int
                    } else {
                        end + braces
                    };
                    // The bound keeps the recursion well founded; every
                    // tokenization satisfies it, since the closing braces lie
                    // beyond the scanning position.
                    if scan < nxt <= s.len() {
                        let rest = vt_parse(s, nxt);
                        (
                            seq![s.subrange(scan, start)] + rest.0,
                            seq![(kind, nm)] + rest.1,
                        )
                    } else {
                        (Seq::empty(), Seq::empty())
                    }
                },
            },
        },
    }
}

/// Whether position `j` holds the first occurrence of its name among the
/// variables that take part in field dispatch (comments do not).
pub open spec fn vt_first_occurrence(vars: Seq<(VKind, Seq<char>)>, j: int) -> bool {
    forall|k: int|
        0 <= k < j ==> (#[trigger] vars[k]).0 is Comment || vars[k].1 != vars[j].1
}

/// How many distinct non-comment names among the first `upto` variables are
/// smaller than the target.
pub open spec fn vt_smaller_distinct_upto(
    vars: Seq<(VKind, Seq<char>)>,
    target: Seq<char>,
    upto: int,
) -> nat
    decreases upto,
{
    if upto <= 0 {
        0
    } else {
        vt_smaller_distinct_upto(vars, target, upto - 1) + if !(vars[upto - 1].0 is Comment)
            && vt_first_occurrence(vars, upto - 1) && lex_lt(vars[upto - 1].1, target) {
            1nat
        } else {
            0nat
        }
    }
}

/// The field slot of the variable at position `i`: the rank of its name
/// among the distinct non-comment names, in lexicographic order.
pub open spec fn vt_rank(vars: Seq<(VKind, Seq<char>)>, i: int) -> nat {
    vt_smaller_distinct_upto(vars, vars[i].1, vars.len() as int)
}

/// What one variable substitutes, given the fields a value offers: the
/// field its slot points at answers only when the hashes agree, and is
/// escaped or copied verbatim by kind; everything else substitutes nothing.
pub open spec fn vt_subst(v: Variable, fields: Seq<Field>) -> Seq<char> {
    if 0 <= v.field < fields.len() && fields[v.field as int].hash == v.hash {
        match v.kind {
            VKind::Escaped => escape(fields[v.field as int].value@),
            VKind::Unescaped => fields[v.field as int].value@,
            VKind::Comment => Seq::empty(),
        }
    } else {
        Seq::empty()
    }
}

/// The chunks after the first, interleaved with their variables'
/// substitutions, from pair `i` on; the shorter of the two lists decides
/// how many pairs take part.
pub open spec fn vt_render_from(
    chunks: Seq<&str>,
    vtable: Seq<Variable>,
    fields: Seq<Field>,
    i: int,
) -> Seq<char>
    decreases vtable.len() - i,
{
    let pairs = if chunks.len() - 1 < vtable.len() {
        chunks.len() - 1
    } else {
        vtable.len() as int
    };
    if i < 0 || i >= pairs {
        Seq::empty()
    } else {
        vt_subst(vtable[i], fields) + chunks[i + 1]@ + vt_render_from(chunks, vtable, fields, i + 1)
    }
}

/// What rendering a simple template against a field list produces.
pub open spec fn vt_render(chunks: Seq<&str>, vtable: Seq<Variable>, fields: Seq<Field>) -> Seq<
    char,
> {
    if chunks.len() == 0 {
        Seq::empty()
    } else {
        chunks[0]@ + vt_render_from(chunks, vtable, fields, 0)
    }
}

fn ws_at(s: &str, i: usize, n: usize) -> (r: bool)
    requires
        n == s@.len(),
        i < n,
    ensures
        r == vt_ws(s@[i as int]),
{
    let c = s.get_char(i);
    c == ' ' || c == '\t' || c == '\r' || c == '\n'
}

fn trim_ws_at(s: &str, i: usize, n: usize) -> (r: bool)
    requires
        n == s@.len(),
        i < n,
    ensures
        r == trim_ws(s@[i as int]),
{
    let u = s.get_char(i) as u32;
    (0x09 <= u && u <= 0x0D) || u == 0x20 || u == 0x85 || u == 0xA0 || u == 0x1680 || (0x2000 <= u
        && u <= 0x200A) || u == 0x2028 || u == 0x2029 || u == 0x202F || u == 0x205F || u == 0x3000
}

fn vt_kind_exec(s: &str, p: usize, n: usize) -> (r: Option<(VKind, usize, usize)>)
    requires
        n == s@.len(),
        p <= n,
    ensures
        match r {
            Some((k, b, q)) => vt_kind(s@, p as int) == Some((k, b as int, q as int)) && p < q <= n
                && 2 <= b <= 3,
            None => vt_kind(s@, p as int) is None,
        },
{
    let mut i = p;
    while i < n
        invariant
            n == s@.len(),
            p <= i <= n,
            vt_kind(s@, p as int) == vt_kind(s@, i as int),
        decreases n - i,
    {
        let c = s.get_char(i);
        if c == '{' {
            return Some((VKind::Unescaped, 3, i + 1));
        }
        if c == '!' {
            return Some((VKind::Comment, 2, i + 1));
        }
        if !(c == ' ' || c == '\t' || c == '\r' || c == '\n') {
            return Some((VKind::Escaped, 2, i + 1));
        }
        i = i + 1;
    }
    None
}

fn vt_find_close_exec(s: &str, from: usize, n: usize) -> (r: Option<usize>)
    requires
        n == s@.len(),
        from <= n,
    ensures
        match r {
            Some(j) => vt_find_close(s@, from as int) == Some(j as int) && from <= j && j + 1 < n,
            None => vt_find_close(s@, from as int) is None,
        },
{
    let mut j = from;
    while n - j > 1
        invariant
            n == s@.len(),
            from <= j <= n,
            vt_find_close(s@, from as int) == vt_find_close(s@, j as int),
        decreases n - j,
    {
        if s.get_char(j) == '}' && s.get_char(j + 1) == '}' {
            return Some(j);
        }
        j = j + 1;
    }
    None
}

/// The characters `a .. b` of the source with surrounding whitespace
/// removed.
fn trim_exec<'t>(s: &'t str, a: usize, b: usize, n: usize) -> (r: &'t str)
    requires
        n == s@.len(),
        a <= b <= n,
    ensures
        r@ == vt_trim(s@.subrange(a as int, b as int)),
{
    let ghost whole = s@.subrange(a as int, b as int);
    let mut lo = a;
    while lo < b && trim_ws_at(s, lo, n)
        invariant
            n == s@.len(),
            a <= lo <= b <= n,
            lead_ws(whole) == (lo - a) + lead_ws(s@.subrange(lo as int, b as int)),
        decreases b - lo,
    {
        proof {
            assert(s@.subrange(lo as int, b as int).first() == s@[lo as int]);
            assert(s@.subrange(lo as int, b as int).drop_first() =~= s@.subrange(
                lo as int + 1,
                b as int,
            ));
        }
        lo = lo + 1;
    }
    proof {
        assert(lead_ws(s@.subrange(lo as int, b as int)) == 0);
        assert(lead_ws(whole) == lo - a);
    }
    let ghost mid = s@.subrange(lo as int, b as int);
    let mut hi = b;
    while hi > lo && trim_ws_at(s, hi - 1, n)
        invariant
            n == s@.len(),
            lo <= hi <= b <= n,
            trail_ws(mid) == (b - hi) + trail_ws(s@.subrange(lo as int, hi as int)),
        decreases hi,
    {
        proof {
            assert(s@.subrange(lo as int, hi as int).last() == s@[hi - 1]);
            assert(s@.subrange(lo as int, hi as int).drop_last() =~= s@.subrange(
                lo as int,
                hi as int - 1,
            ));
        }
        hi = hi - 1;
    }
    proof {
        assert(trail_ws(s@.subrange(lo as int, hi as int)) == 0);
        assert(trail_ws(mid) == b - hi);
        assert(whole.skip(lead_ws(whole)) =~= mid);
        assert(mid.take(mid.len() - trail_ws(mid)) =~= s@.subrange(lo as int, hi as int));
    }
    s.substring_char(lo, hi)
}

/// The kind and name of each tokenized variable, as the specification sees
/// them.
pub open spec fn vars_pairs_view(vars: Seq<(VKind, &str)>) -> Seq<(VKind, Seq<char>)> {
    vars.map_values(|p: (VKind, &str)| (p.0, p.1@))
}

fn vt_tokenize<'tpl>(source: &'tpl str) -> (r: (Vec<&'tpl str>, Vec<(VKind, &'tpl str)>))
    ensures
        r.0.deep_view() == vt_parse(source@, 0).0,
        vars_pairs_view(r.1@) == vt_parse(source@, 0).1,
{
    let n = source.unicode_len();
    let ghost goal = vt_parse(source@, 0);
    let mut chunks: Vec<&'tpl str> = Vec::new();
    let mut vars: Vec<(VKind, &'tpl str)> = Vec::new();
    let mut scan: usize = 0;
    proof {
        assert(chunks.deep_view() =~= Seq::<Seq<char>>::empty());
        assert(vars_pairs_view(vars@) =~= Seq::<(VKind, Seq<char>)>::empty());
        assert(goal.0 =~= chunks.deep_view() + vt_parse(source@, 0).0);
        assert(goal.1 =~= vars_pairs_view(vars@) + vt_parse(source@, 0).1);
    }
    loop
        invariant
            n == source@.len(),
            scan <= n,
            goal == vt_parse(source@, 0),
            goal.0 == chunks.deep_view() + vt_parse(source@, scan as int).0,
            goal.1 == vars_pairs_view(vars@) + vt_parse(source@, scan as int).1,
        decreases n - scan,
    {
        let ghost pre_chunks = chunks.deep_view();
        let ghost pre_vars = vars_pairs_view(vars@);
        match crate::template::parse::find_open_exec(source, scan, n) {
            None => {
                let tail = source.substring_char(scan, n);
                chunks.push(tail);
                proof {
                    assert(chunks.deep_view() =~= pre_chunks.push(
                        source@.subrange(scan as int, n as int),
                    ));
                    assert(pre_chunks.push(source@.subrange(scan as int, n as int)) =~= pre_chunks
                        + vt_parse(source@, scan as int).0);
                    assert(vars_pairs_view(vars@) + Seq::<(VKind, Seq<char>)>::empty()
                        =~= vars_pairs_view(vars@));
                }
                return (chunks, vars);
            },
            Some(start) => {
                let kq = vt_kind_exec(source, start + 2, n);
                let closed: Option<(VKind, usize, usize, usize)> = match kq {
                    None => None,
                    Some((kind, braces, q)) => match vt_find_close_exec(source, q, n) {
                        None => None,
                        Some(end) => Some((kind, braces, q, end)),
                    },
                };
                match closed {
                    None => {
                        chunks.push(source.substring_char(scan, start));
                        chunks.push(source.substring_char(scan, n));
                        proof {
                            assert(chunks.deep_view() =~= pre_chunks + seq![
                                source@.subrange(scan as int, start as int),
                                source@.subrange(scan as int, n as int),
                            ]);
                            assert(vars_pairs_view(vars@) + Seq::<(VKind, Seq<char>)>::empty()
                                =~= vars_pairs_view(vars@));
                        }
                        return (chunks, vars);
                    },
                    Some((kind, braces, q, end)) => {
                        chunks.push(source.substring_char(scan, start));
                        let nm = trim_exec(source, start + braces, end, n);
                        vars.push((kind, nm));
                        let nxt = if braces > n - end {
                            n
                        } else {
                            end + braces
                        };
                        proof {
                            assert(chunks.deep_view() =~= pre_chunks.push(
                                source@.subrange(scan as int, start as int),
                            ));
                            assert(vars_pairs_view(vars@) =~= pre_vars.push((kind, nm@)));
                            let rest = vt_parse(source@, nxt as int);
                            assert(vt_parse(source@, scan as int).0 =~= seq![
                                source@.subrange(scan as int, start as int),
                            ] + rest.0);
                            assert(vt_parse(source@, scan as int).1 =~= seq![(kind, nm@)]
                                + rest.1);
                            assert(goal.0 =~= chunks.deep_view() + rest.0);
                            assert(goal.1 =~= vars_pairs_view(vars@) + rest.1);
                        }
                        scan = nxt;
                    },
                }
            },
        }
    }
}

/// A simple compiled template: the literal chunks of the source text,
/// interleaved with a table of the variables standing between them.
pub struct Template<'tpl> {
    /// The byte length of the source, an upper estimate for the output of a
    /// render with empty fields.
    pub capacity: usize,
    /// The literal text between variables; always one chunk more than there
    /// are variables, except when a tag is left unclosed.
    pub chunks: Vec<&'tpl str>,
    /// The variables, in order of occurrence.
    pub vtable: Vec<Variable>,
}

impl<'tpl> Template<'tpl> {
    /// Tokenize a simple template: `{{name}}` substitutes escaped,
    /// `{{{name}}}` verbatim, `{{!name}}` nothing; names are trimmed, and
    /// equal names share a field slot ranked alphabetically.
    pub fn new(source: &'tpl str) -> (r: Template<'tpl>)
        ensures
            ({
                let (chunks, vars) = vt_parse(source@, 0);
                &&& r.capacity as nat == str_bytes_len(source@)
                &&& r.chunks.deep_view() == chunks
                &&& r.vtable@.len() == vars.len()
                &&& forall|i: int|
                    0 <= i < vars.len() ==> {
                        let v = #[trigger] r.vtable@[i];
                        &&& v.kind == vars[i].0
                        &&& v.name@ == vars[i].1
                        &&& v.hash == spec_hash(vars[i].1)
                        &&& !(vars[i].0 is Comment) ==> v.field == vt_rank(vars, i)
                        &&& vars[i].0 is Comment ==> v.field == usize::MAX
                    }
            }),
    {
        let (chunks, vars) = vt_tokenize(source);
        let ghost dv = vars_pairs_view(vars@);
        let n = vars.len();
        let mut vtable: Vec<Variable> = Vec::new();
        let mut i: usize = 0;
        while i < n
            invariant
                n == vars@.len(),
                dv == vars_pairs_view(vars@),
                i <= n,
                vtable@.len() == i,
                forall|t: int|
                    0 <= t < i ==> {
                        let v = #[trigger] vtable@[t];
                        &&& v.kind == dv[t].0
                        &&& v.name@ == dv[t].1
                        &&& v.hash == spec_hash(dv[t].1)
                        &&& !(dv[t].0 is Comment) ==> v.field == vt_rank(dv, t)
                        &&& dv[t].0 is Comment ==> v.field == usize::MAX
                    },
            decreases n - i,
        {
            proof {
                assert(dv[i as int] == (vars@[i as int].0, vars@[i as int].1@));
            }
            let (kind, name) = vars[i];
            if matches!(kind, VKind::Comment) {
                vtable.push(Variable::new(kind, name, usize::MAX));
            } else {
                let mut cnt: usize = 0;
                let mut j: usize = 0;
                while j < n
                    invariant
                        n == vars@.len(),
                        dv == vars_pairs_view(vars@),
                        i < n,
                        name@ == dv[i as int].1,
                        j <= n,
                        cnt <= j,
                        cnt == vt_smaller_distinct_upto(dv, dv[i as int].1, j as int),
                    decreases n - j,
                {
                    proof {
                        assert(dv[j as int] == (vars@[j as int].0, vars@[j as int].1@));
                    }
                    let (jk, jn) = vars[j];
                    if !matches!(jk, VKind::Comment) {
                        let mut first = true;
                        let mut k: usize = 0;
                        while k < j
                            invariant
                                n == vars@.len(),
                                dv == vars_pairs_view(vars@),
                                j < n,
                                jn@ == dv[j as int].1,
                                k <= j,
                                first == (forall|t: int|
                                    0 <= t < k ==> (#[trigger] dv[t]).0 is Comment || dv[t].1
                                        != dv[j as int].1),
                            decreases j - k,
                        {
                            proof {
                                assert(dv[k as int] == (vars@[k as int].0, vars@[k as int].1@));
                            }
                            let (kk, kn) = vars[k];
                            if !matches!(kk, VKind::Comment) && str_eq(kn, jn) {
                                first = false;
                            }
                            k = k + 1;
                        }
                        proof {
                            assert(first == vt_first_occurrence(dv, j as int));
                        }
                        if first && str_lt(jn, name) {
                            cnt = cnt + 1;
                        }
                    }
                    j = j + 1;
                }
                vtable.push(Variable::new(kind, name, cnt));
            }
            i = i + 1;
        }
        Template { capacity: source.len(), chunks, vtable }
    }

    /// Render this template against the fields a value offers: each
    /// variable substitutes the field at its slot when the hashes agree,
    /// escaped or verbatim by its kind, and the literal chunks stand
    /// between.
    pub fn render(&self, fields: &[Field]) -> (r: String)
        ensures
            r@ == vt_render(self.chunks@, self.vtable@, fields@),
    {
        let mut buf = String::new();
        if self.chunks.len() == 0 {
            return buf;
        }
        crate::encoding::write_unescaped(&mut buf, self.chunks[0]);
        let pairs: usize = if self.chunks.len() - 1 < self.vtable.len() {
            self.chunks.len() - 1
        } else {
            self.vtable.len()
        };
        let ghost head = self.chunks@[0]@;
        let mut i: usize = 0;
        while i < pairs
            invariant
                pairs == (if self.chunks@.len() - 1 < self.vtable@.len() {
                    self.chunks@.len() - 1
                } else {
                    self.vtable@.len() as int
                }),
                i <= pairs,
                head == self.chunks@[0]@,
                head + vt_render_from(self.chunks@, self.vtable@, fields@, 0) == buf@
                    + vt_render_from(self.chunks@, self.vtable@, fields@, i as int),
            decreases pairs - i,
        {
            let ghost buf0 = buf@;
            let v = &self.vtable[i];
            if v.field < fields.len() {
                let f = fields[v.field];
                if f.hash == v.hash {
                    match v.kind {
                        VKind::Escaped => crate::encoding::write_escaped(&mut buf, f.value),
                        VKind::Unescaped => crate::encoding::write_unescaped(&mut buf, f.value),
                        VKind::Comment => (),
                    }
                }
            }
            crate::encoding::write_unescaped(&mut buf, self.chunks[i + 1]);
            proof {
                assert(buf@ =~= buf0 + (vt_subst(self.vtable@[i as int], fields@)
                    + self.chunks@[i as int + 1]@));
                assert(vt_render_from(self.chunks@, self.vtable@, fields@, i as int) == vt_subst(
                    self.vtable@[i as int],
                    fields@,
                ) + self.chunks@[i as int + 1]@ + vt_render_from(
                    self.chunks@,
                    self.vtable@,
                    fields@,
                    i as int + 1,
                ));
                assert(buf0 + (vt_subst(self.vtable@[i as int], fields@) + self.chunks@[i as int
                    + 1]@) + vt_render_from(self.chunks@, self.vtable@, fields@, i as int + 1)
                    =~= buf0 + vt_render_from(self.chunks@, self.vtable@, fields@, i as int));
            }
            i = i + 1;
        }
        proof {
            assert(vt_render_from(self.chunks@, self.vtable@, fields@, pairs as int)
                == Seq::<char>::empty());
            assert(buf@ =~= head + vt_render_from(self.chunks@, self.vtable@, fields@, 0));
        }
        buf
    }
}

} // verus!

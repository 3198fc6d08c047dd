//! Data values that templates are rendered against, and the dispatch
//! protocol the render engine uses to query them: truthiness, field lookup by
//! hash, and writing a value out escaped or unescaped.

use vstd::prelude::*;
use vstd::string::StringExecFns;

use crate::encoding::escape;
use crate::fnv::hash_name;
use crate::fnv::spec_hash_name;

verus! {

/// A runtime data value a template can be rendered against: a scalar, a
/// string, a list, or a record of named fields.
pub enum Content {
    /// The unit value: never truthy, renders as nothing.
    Null,
    /// A boolean, rendering as `true` or `false`; truthy iff `true`.
    Bool(bool),
    /// An unsigned number, rendering in decimal; truthy iff nonzero.
    Unsigned(u64),
    /// A signed number, rendering in decimal; truthy iff nonzero.
    Signed(i64),
    /// A string; truthy iff non-empty.
    Str(String),
    /// A list of values; truthy iff non-empty. A section over a list renders
    /// its body once per element.
    List(Vec<Content>),
    /// A record of named fields; always truthy. Entering a section with a
    /// record brings its fields into scope.
    Record(Vec<Property>),
}

/// One named field of a record: the name, its FNV-1a hash (precomputed, the
/// sole lookup key), and the field's value.
pub struct Property {
    pub hash: u64,
    pub name: String,
    pub value: Content,
}

impl Property {
    /// Create a field entry from a name and a value; the hash is computed
    /// from the name with the same convention the template compiler uses.
    pub fn new(name: &str, value: Content) -> (p: Property)
        ensures
            p.hash == spec_hash_name(name@),
            p.name@ == name@,
            p.value == value,
    {
        Property { hash: hash_name(name), name: String::from_str(name), value }
    }
}

/// Whether a value is truthy: sections render their body only for truthy
/// values, inverse sections only for falsy ones.
pub open spec fn truthy(v: Content) -> bool {
    match v {
        Content::Null => false,
        Content::Bool(b) => b,
        Content::Unsigned(n) => n != 0,
        Content::Signed(n) => n != 0,
        Content::Str(s) => s@.len() != 0,
        Content::List(items) => items@.len() != 0,
        Content::Record(_) => true,
    }
}

/// The first field with the given hash, searching front to back.
pub open spec fn record_lookup(props: Seq<Property>, h: u64) -> Option<Content>
    decreases props.len(),
{
    if props.len() == 0 {
        None
    } else if props.first().hash == h {
        Some(props.first().value)
    } else {
        record_lookup(props.drop_first(), h)
    }
}

/// The field a value exposes under the given hash, if any. Only records
/// expose fields.
pub open spec fn field_of(v: Content, h: u64) -> Option<Content> {
    match v {
        Content::Record(props) => record_lookup(props@, h),
        _ => None,
    }
}

/// Whether a value exposes a field under the given hash.
pub open spec fn has_field(v: Content, h: u64) -> bool {
    field_of(v, h) is Some
}

/// The decimal digits of a natural number.
pub open spec fn digit_char(d: nat) -> char {
    if d == 0 {
        '0'
    } else if d == 1 {
        '1'
    } else if d == 2 {
        '2'
    } else if d == 3 {
        '3'
    } else if d == 4 {
        '4'
    } else if d == 5 {
        '5'
    } else if d == 6 {
        '6'
    } else if d == 7 {
        '7'
    } else if d == 8 {
        '8'
    } else {
        '9'
    }
}

/// The decimal notation of a natural number.
pub open spec fn dec_nat(n: nat) -> Seq<char>
    decreases n,
{
    if n < 10 {
        seq![digit_char(n)]
    } else {
        dec_nat(n / 10) + seq![digit_char(n % 10)]
    }
}

/// The decimal notation of an integer: a minus sign before the magnitude for
/// negative values.
pub open spec fn dec_int(n: int) -> Seq<char> {
    if n >= 0 {
        dec_nat(n as nat)
    } else {
        seq!['-'] + dec_nat((-n) as nat)
    }
}

/// What a value writes when it stands as the direct content of a tag:
/// strings are escaped in escaped position, numbers and booleans print their
/// notation, and structured values print nothing.
pub open spec fn render_value(v: Content, escaped: bool) -> Seq<char> {
    match v {
        Content::Null => Seq::empty(),
        Content::Bool(b) => if b {
            "true"@
        } else {
            "false"@
        },
        Content::Unsigned(n) => dec_nat(n as nat),
        Content::Signed(n) => dec_int(n as int),
        Content::Str(s) => if escaped {
            escape(s@)
        } else {
            s@
        },
        Content::List(_) => Seq::empty(),
        Content::Record(_) => Seq::empty(),
    }
}

impl Content {
    /// Marks whether this content is truthy. Used when attempting to render a
    /// section.
    pub fn is_truthy(&self) -> (r: bool)
        ensures
            r == truthy(*self),
    {
        match self {
            Content::Null => false,
            Content::Bool(b) => *b,
            Content::Unsigned(n) => *n != 0,
            Content::Signed(n) => *n != 0,
            Content::Str(s) => !s.as_str().is_empty(),
            Content::List(items) => items.len() != 0,
            Content::Record(_) => true,
        }
    }

    /// Look up a field of this value by the hash of its name. Only records
    /// have fields; the first field with a matching hash wins.
    pub fn field(&self, h: u64) -> (r: Option<&Content>)
        ensures
            match r {
                Some(c) => field_of(*self, h) == Some(*c),
                None => field_of(*self, h) is None,
            },
    {
        match self {
            Content::Record(props) => {
                proof {
                    assert(props@.skip(0) =~= props@);
                }
                let mut i: usize = 0;
                while i < props.len()
                    invariant
                        *self == Content::Record(*props),
                        i <= props@.len(),
                        record_lookup(props@, h) == record_lookup(props@.skip(i as int), h),
                    decreases props@.len() - i,
                {
                    if props[i].hash == h {
                        proof {
                            assert(props@.skip(i as int).first() == props@[i as int]);
                            assert(record_lookup(props@.skip(i as int), h) == Some(
                                props@[i as int].value,
                            ));
                        }
                        return Some(&props[i].value);
                    }
                    proof {
                        assert(props@.skip(i as int).drop_first() =~= props@.skip(i as int + 1));
                    }
                    i = i + 1;
                }
                proof {
                    assert(props@.skip(props@.len() as int).len() == 0);
                }
                None
            },
            _ => None,
        }
    }

    /// Renders self as a variable to the output, escaping special HTML
    /// characters.
    pub fn render_escaped(&self, buf: &mut String)
        ensures
            final(buf)@ == old(buf)@ + render_value(*self, true),
    {
        self.render_to(buf, true)
    }

    /// Renders self as a variable to the output without any escaping.
    pub fn render_unescaped(&self, buf: &mut String)
        ensures
            final(buf)@ == old(buf)@ + render_value(*self, false),
    {
        self.render_to(buf, false)
    }

    fn render_to(&self, buf: &mut String, escaped: bool)
        ensures
            final(buf)@ == old(buf)@ + render_value(*self, escaped),
    {
        match self {
            Content::Null => (),
            Content::Bool(b) => {
                if *b {
                    buf.append("true");
                } else {
                    buf.append("false");
                }
            },
            Content::Unsigned(n) => push_dec_u64(buf, *n),
            Content::Signed(n) => push_dec_i64(buf, *n),
            Content::Str(s) => {
                if escaped {
                    crate::encoding::write_escaped(buf, s.as_str());
                } else {
                    crate::encoding::write_unescaped(buf, s.as_str());
                }
            },
            Content::List(_) => (),
            Content::Record(_) => (),
        }
    }
}

/// Append one decimal digit to the output.
fn push_digit(buf: &mut String, d: u64)
    requires
        d < 10,
    ensures
        final(buf)@ == old(buf)@ + seq![digit_char(d as nat)],
{
    proof {
        reveal_strlit("0");
        reveal_strlit("1");
        reveal_strlit("2");
        reveal_strlit("3");
        reveal_strlit("4");
        reveal_strlit("5");
        reveal_strlit("6");
        reveal_strlit("7");
        reveal_strlit("8");
        reveal_strlit("9");
    }
    if d == 0 {
        buf.append("0");
    } else if d == 1 {
        buf.append("1");
    } else if d == 2 {
        buf.append("2");
    } else if d == 3 {
        buf.append("3");
    } else if d == 4 {
        buf.append("4");
    } else if d == 5 {
        buf.append("5");
    } else if d == 6 {
        buf.append("6");
    } else if d == 7 {
        buf.append("7");
    } else if d == 8 {
        buf.append("8");
    } else {
        buf.append("9");
    }
    proof {
        assert(final(buf)@ =~= old(buf)@ + seq![digit_char(d as nat)]);
    }
}

/// Append the decimal notation of an unsigned number to the output.
pub fn push_dec_u64(buf: &mut String, n: u64)
    ensures
        final(buf)@ == old(buf)@ + dec_nat(n as nat),
    decreases n,
{
    if n < 10 {
        push_digit(buf, n);
    } else {
        push_dec_u64(buf, n / 10);
        push_digit(buf, n % 10);
    }
}

/// Append the decimal notation of a signed number to the output.
pub fn push_dec_i64(buf: &mut String, n: i64)
    ensures
        final(buf)@ == old(buf)@ + dec_int(n as int),
{
    if n >= 0 {
        push_dec_u64(buf, n as u64);
    } else {
        proof {
            reveal_strlit("-");
        }
        buf.append("-");
        let magnitude: u64 = if n == i64::MIN {
            9223372036854775808u64
        } else {
            (-n) as u64
        };
        push_dec_u64(buf, magnitude);
        proof {
            assert(final(buf)@ =~= old(buf)@ + (seq!['-'] + dec_nat((-(n as int)) as nat)));
        }
    }
}

} // verus!

//! The 64-bit FNV-1a hash over UTF-8 bytes, used as the key for matching a
//! template tag name against a value's field.

use vstd::prelude::*;

verus! {

/// One step of FNV-1a: xor the byte into the accumulator, then multiply by
/// the FNV prime (wrapping on 64 bits).
pub open spec fn fnv1a_step(acc: u64, byte: u8) -> u64 {
    vstd::wrapping::u64_specs::wrapping_mul(acc ^ (byte as u64), 0x100000001b3)
}

/// FNV-1a of a byte sequence: a fold of the step over the bytes, from a
/// fixed offset basis.
pub open spec fn fnv1a(bytes: Seq<u8>) -> u64
    decreases bytes.len(),
{
    if bytes.len() == 0 {
        0xcbf29ce484222325u64
    } else {
        fnv1a_step(fnv1a(bytes.drop_last()), bytes.last())
    }
}

/// FNV-1a hash of the UTF-8 bytes of a string.
pub open spec fn spec_hash(name: Seq<char>) -> u64 {
    fnv1a(vstd::utf8::encode_utf8(name))
}

/// FNV-1a implementation.
pub fn hash(name: &str) -> (h: u64)
    ensures
        h == spec_hash(name@),
{
    let bytes: &[u8] = name.as_bytes();
    hash_bytes(bytes)
}

/// The hash of a tag or field name as the template machinery uses it: the
/// FNV-1a hash of the name's UTF-8 bytes followed by one `0xff` byte, the
/// same convention `std::hash::Hash` uses for strings.
pub open spec fn spec_hash_name(name: Seq<char>) -> u64 {
    fnv1a(vstd::utf8::encode_utf8(name).push(0xff))
}

/// Hash a tag or field name for dispatch.
pub fn hash_name(name: &str) -> (h: u64)
    ensures
        h == spec_hash_name(name@),
{
    let base = hash_bytes(name.as_bytes());
    let h = (base ^ 0xffu64).wrapping_mul(0x100000001b3);
    proof {
        let bs = vstd::utf8::encode_utf8(name@);
        assert(bs.push(0xff).drop_last() =~= bs);
        assert(bs.push(0xff).last() == 0xffu8);
    }
    h
}

/// FNV-1a over a byte slice.
pub fn hash_bytes(bytes: &[u8]) -> (h: u64)
    ensures
        h == fnv1a(bytes@),
{
    let mut h: u64 = 0xcbf29ce484222325;
    let mut i: usize = 0;
    while i < bytes.len()
        invariant
            i <= bytes@.len(),
            h == fnv1a(bytes@.take(i as int)),
        decreases bytes@.len() - i,
    {
        let b = bytes[i];
        h = (h ^ (b as u64)).wrapping_mul(0x100000001b3);
        i = i + 1;
        proof {
            assert(bytes@.take(i as int).drop_last() =~= bytes@.take(i - 1));
            assert(bytes@.take(i as int).last() == b);
        }
    }
    proof {
        assert(bytes@.take(bytes@.len() as int) =~= bytes@);
    }
    h
}

} // verus!

//! A seed for the noise background derived from the artwork's bytes, stable across
//! processes, machines and releases: the 32-bit FNV-1a hash.
use vstd::prelude::*;

verus! {

/// The 32-bit FNV-1a hash of `s`.
pub open spec fn fnv1a(s: Seq<u8>) -> u32
    decreases s.len(),
{
    if s.len() == 0 {
        0x811c_9dc5u32
    } else {
        (fnv1a(s.drop_last()) ^ (s.last() as u32)).wrapping_mul(0x0100_0193u32)
    }
}

/// The seed of the noise background for an artwork with these bytes.
pub fn content_seed(buffer: &Vec<u8>) -> (r: u32)
    ensures
        r == fnv1a(buffer@),
{
    let mut h: u32 = 0x811c_9dc5;
    let mut i: usize = 0;
    while i < buffer.len()
        invariant
            i <= buffer@.len(),
            h == fnv1a(buffer@.take(i as int)),
        decreases buffer@.len() - i,
    {
        assert(buffer@.take(i + 1).drop_last() =~= buffer@.take(i as int));
        h = (h ^ (buffer[i] as u32)).wrapping_mul(0x0100_0193);
        i = i + 1;
    }
    assert(buffer@.take(i as int) =~= buffer@);
    h
}

} // verus!

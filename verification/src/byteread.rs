use vstd::prelude::*;

verus! {

/// The little-endian 16-bit value stored at byte offset `i` of `s`.
pub open spec fn u16_le_at(s: Seq<u8>, i: int) -> u16
    recommends
        0 <= i,
        i + 2 <= s.len(),
{
    (s[i] as int + 256 * (s[i + 1] as int)) as u16
}

/// Read the little-endian 16-bit value stored at byte offset `pos` of `data`.
pub fn read_u16_le(data: &[u8], pos: usize) -> (r: u16)
    requires
        pos + 2 <= data@.len(),
    ensures
        r == u16_le_at(data@, pos as int),
{
    proof {
        vstd::slice::axiom_spec_len(data);
    }
    let lo = *vstd::slice::slice_index_get(data, pos);
    let hi = *vstd::slice::slice_index_get(data, pos + 1);
    lo as u16 + (hi as u16) * 256
}

} // verus!

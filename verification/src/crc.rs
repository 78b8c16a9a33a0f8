//! The 16-bit cyclic redundancy check that derives stable service and call
//! ids from service and method names: reflected polynomial `0xA001`, zero
//! initial value, no final inversion.

use vstd::prelude::*;
use vstd::string::StringSliceAdditionalSpecFns;

verus! {

broadcast use vstd::std_specs::vec::group_vec_axioms, vstd::seq::group_seq_axioms;

/// One shift round: fold the low bit into the reflected polynomial.
pub open spec fn crc_round(crc: u16) -> u16 {
    if crc & 1 == 1 {
        (crc >> 1) ^ 0xA001
    } else {
        crc >> 1
    }
}

/// `n` shift rounds.
pub open spec fn crc_rounds(crc: u16, n: int) -> u16
    decreases n,
{
    if n <= 0 {
        crc
    } else {
        crc_rounds(crc_round(crc), n - 1)
    }
}

/// The checksum of the first `i` bytes.
pub open spec fn crc16_spec(data: Seq<u8>, i: int) -> u16
    decreases i,
{
    if i <= 0 {
        0
    } else {
        crc_rounds(crc16_spec(data, i - 1) ^ (data[i - 1] as u16), 8)
    }
}

/// The checksum of a byte string.
pub fn crc16(data: &[u8]) -> (r: u16)
    ensures
        r == crc16_spec(data@, data@.len() as int),
{
    let mut crc: u16 = 0;
    let mut i: usize = 0;
    while i < data.len()
        invariant
            0 <= i <= data@.len(),
            crc == crc16_spec(data@, i as int),
        decreases data@.len() - i,
    {
        let mut c = crc ^ (data[i] as u16);
        let mut k: usize = 0;
        let ghost start = c;
        while k < 8
            invariant
                0 <= k <= 8,
                c == crc_rounds(start, k as int),
            decreases 8 - k,
        {
            proof {
                lemma_crc_rounds_unfold(start, k as int);
            }
            if c & 1 == 1 {
                c = (c >> 1) ^ 0xA001;
            } else {
                c = c >> 1;
            }
            k += 1;
        }
        crc = c;
        i += 1;
    }
    crc
}

/// Peeling a round off the front or the back of the iteration agrees.
proof fn lemma_crc_rounds_unfold(crc: u16, n: int)
    requires
        n >= 0,
    ensures
        crc_rounds(crc, n + 1) == crc_round(crc_rounds(crc, n)),
    decreases n,
{
    if n == 0 {
        assert(crc_rounds(crc, 1) == crc_rounds(crc_round(crc), 0));
    } else {
        lemma_crc_rounds_unfold(crc_round(crc), n - 1);
        assert(crc_rounds(crc, n + 1) == crc_rounds(crc_round(crc), n));
        assert(crc_rounds(crc, n) == crc_rounds(crc_round(crc), n - 1));
    }
}

/// The stable 16-bit id of a service or method name: the checksum of its
/// bytes.
pub fn hash_str(s: &str) -> (r: u16)
    ensures
        r == crc16_spec(s.spec_bytes(), s.spec_bytes().len() as int),
{
    crc16(s.as_bytes())
}

} // verus!

//! The bit view over a byte image: flag `k` is bit `k % 8` of byte
//! `k / 8`, least-significant bit first. This fixed order is part of the
//! on-disk format and must stay self-consistent across open and close.

use vstd::prelude::*;

verus! {

/// Bit `j` of byte `b`, least-significant bit first.
pub open spec fn spec_byte_bit(b: u8, j: u8) -> bool {
    (b >> j) & 1 == 1
}

/// Flag `k` of a byte image.
pub open spec fn spec_bit_at(bytes: Seq<u8>, k: int) -> bool {
    spec_byte_bit(bytes[k / 8], (k % 8) as u8)
}

/// Reads bit `j` of byte `b`.
pub fn byte_get_bit(b: u8, j: u8) -> (r: bool)
    requires
        j < 8,
    ensures
        r == spec_byte_bit(b, j),
{
    (b >> j) & 1 == 1
}

/// Returns `b` with bit `j` set to `v` and every other bit unchanged.
pub fn byte_set_bit(b: u8, j: u8, v: bool) -> (r: u8)
    requires
        j < 8,
    ensures
        spec_byte_bit(r, j) == v,
        forall|j2: u8| j2 < 8 && j2 != j ==> spec_byte_bit(r, j2) == spec_byte_bit(b, j2),
{
    let r: u8 = if v {
        b | (1u8 << j)
    } else {
        b & !(1u8 << j)
    };
    proof {
        assert(spec_byte_bit(r, j) == v) by (bit_vector)
            requires
                j < 8,
                r == (if v {
                    b | (1u8 << j)
                } else {
                    b & !(1u8 << j)
                }),
        ;
        assert forall|j2: u8| j2 < 8 && j2 != j implies spec_byte_bit(r, j2) == spec_byte_bit(
            b,
            j2,
        ) by {
            assert(spec_byte_bit(r, j2) == spec_byte_bit(b, j2)) by (bit_vector)
                requires
                    j < 8,
                    j2 < 8,
                    j2 != j,
                    r == (if v {
                        b | (1u8 << j)
                    } else {
                        b & !(1u8 << j)
                    }),
            ;
        }
    }
    r
}

/// Every bit of a zero byte is unset.
pub proof fn lemma_byte_zero()
    by (bit_vector)
    ensures
        forall|j: u8| #[trigger] spec_byte_bit(0u8, j) == false,
{
}

/// A byte whose bits at and above position `j` are cleared reads `false`
/// there and keeps the bits below `j`.
pub fn byte_clear_from(b: u8, j: u8) -> (r: u8)
    requires
        j < 8,
    ensures
        forall|j2: u8| j2 < 8 && j2 >= j ==> !spec_byte_bit(r, j2),
        forall|j2: u8| j2 < j ==> spec_byte_bit(r, j2) == spec_byte_bit(b, j2),
{
    proof {
        assert(1u8 << j >= 1) by (bit_vector)
            requires
                j < 8,
        ;
    }
    let r: u8 = b & ((1u8 << j) - 1);
    proof {
        assert forall|j2: u8| j2 < 8 implies ((j2 >= j ==> !spec_byte_bit(r, j2)) && (j2 < j
            ==> spec_byte_bit(r, j2) == spec_byte_bit(b, j2))) by {
            assert((j2 >= j ==> !spec_byte_bit(r, j2)) && (j2 < j ==> spec_byte_bit(r, j2)
                == spec_byte_bit(b, j2))) by (bit_vector)
                requires
                    j < 8,
                    j2 < 8,
                    r == b & (((1u8 << j) - 1) as u8),
            ;
        }
    }
    r
}

} // verus!

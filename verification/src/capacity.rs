//! Sizing rule for the flag files: a flags file always holds
//! `mmap_capacity_bytes(len)` bytes, the smallest power of two at or above
//! the floor `MINIMAL_MMAP_SIZE` that can hold `len` single-bit flags.
//! Every rotation decision derives from this rule, so it is pinned down
//! exactly by the contracts below.

use vstd::arithmetic::power2::is_pow2;
use vstd::prelude::*;

verus! {

/// Capacity floor for a flags file, in bytes (1024 flags).
pub const MINIMAL_MMAP_SIZE: usize = 128;

/// Bytes needed to hold `num_flags` single-bit flags: `ceil(num_flags / 8)`.
pub open spec fn spec_bytes_needed(num_flags: int) -> int {
    (num_flags + 7) / 8
}

/// Doubles `cap` until it reaches `bytes`; the capacity rule applied to the
/// floor is this with `cap = MINIMAL_MMAP_SIZE`.
pub open spec fn spec_cap_grow(cap: int, bytes: int) -> int
    decreases (if cap < bytes {
        bytes - cap
    } else {
        0
    }),
        when 1 <= cap
{
    if cap < bytes {
        spec_cap_grow(2 * cap, bytes)
    } else {
        cap
    }
}

/// Size in bytes of the mmap file backing `num_flags` flags.
pub open spec fn spec_capacity_bytes(num_flags: int) -> int {
    spec_cap_grow(MINIMAL_MMAP_SIZE as int, spec_bytes_needed(num_flags))
}

/// Largest number of flags the current file can hold without resizing.
pub open spec fn spec_max_current_size(len: int) -> int {
    spec_capacity_bytes(len) * 8
}

/// Two powers of two are at least a factor of two apart.
proof fn lemma_pow2_gap(m: int, q: int)
    requires
        is_pow2(m),
        is_pow2(q),
        m < q,
    ensures
        2 * m <= q,
    decreases m,
{
    reveal(is_pow2);
    if m == 1 {
        assert(q > 1 && q % 2 == 0);
    } else {
        lemma_pow2_gap(m / 2, q / 2);
    }
}

/// What the capacity rule returns when grown from `cap`: a power of two
/// (if `cap` is one), at least `cap`, at least `bytes`, and no larger than
/// any power of two that is at least both.
proof fn lemma_cap_grow_props(cap: int, bytes: int)
    requires
        1 <= cap,
    ensures
        spec_cap_grow(cap, bytes) >= cap,
        spec_cap_grow(cap, bytes) >= bytes,
        is_pow2(cap) ==> is_pow2(spec_cap_grow(cap, bytes)),
        is_pow2(cap) ==> forall|m: int|
            is_pow2(m) && m >= cap && m >= bytes ==> m >= spec_cap_grow(cap, bytes),
    decreases (if cap < bytes {
        bytes - cap
    } else {
        0
    }),
{
    reveal(is_pow2);
    if cap < bytes {
        assert(is_pow2(cap) ==> is_pow2(2 * cap));
        lemma_cap_grow_props(2 * cap, bytes);
        if is_pow2(cap) {
            assert forall|m: int| is_pow2(m) && m >= cap && m >= bytes implies m >= spec_cap_grow(
                cap,
                bytes,
            ) by {
                if m < 2 * cap {
                    if cap < m {
                        lemma_pow2_gap(cap, m);
                    }
                    // so `m == cap`, yet `m >= bytes > cap`
                    assert(false);
                }
            }
        }
    }
}

/// The capacity rule is the smallest power of two at or above the floor
/// that can hold `num_flags` flags; this pins `spec_capacity_bytes` down
/// uniquely.
pub proof fn lemma_capacity_bytes_minimal(num_flags: int)
    requires
        0 <= num_flags,
    ensures
        is_pow2(spec_capacity_bytes(num_flags)),
        spec_capacity_bytes(num_flags) >= MINIMAL_MMAP_SIZE as int,
        8 * spec_capacity_bytes(num_flags) >= num_flags,
        forall|m: int|
            is_pow2(m) && m >= MINIMAL_MMAP_SIZE as int && 8 * m >= num_flags ==> m
                >= spec_capacity_bytes(num_flags),
{
    reveal_with_fuel(is_pow2, 9);
    let bytes = spec_bytes_needed(num_flags);
    assert(is_pow2(128));
    lemma_cap_grow_props(128, bytes);
    assert(8 * spec_cap_grow(128, bytes) >= 8 * bytes);
    assert(8 * bytes >= num_flags);
    assert forall|m: int|
        is_pow2(m) && m >= MINIMAL_MMAP_SIZE as int && 8 * m >= num_flags implies m
        >= spec_capacity_bytes(num_flags) by {
        assert(m >= (num_flags + 7) / 8);
    }
}

/// Growth crosses the current capacity exactly when the flag count
/// outgrows eight flags per capacity byte.
pub proof fn lemma_needs_more_bytes(num_flags: int, cap: int)
    requires
        0 <= num_flags,
        0 <= cap,
    ensures
        spec_bytes_needed(num_flags) > cap <==> num_flags > 8 * cap,
{
}

/// Based on the number of flags, determines the size of the mmap file:
/// the smallest power of two able to hold them, floored at
/// `MINIMAL_MMAP_SIZE`.
pub fn mmap_capacity_bytes(num_flags: usize) -> (r: usize)
    ensures
        r == spec_capacity_bytes(num_flags as int),
{
    let bytes_needed: usize = num_flags / 8 + if num_flags % 8 == 0 {
        0
    } else {
        1
    };
    assert(bytes_needed == spec_bytes_needed(num_flags as int));
    let mut cap: usize = MINIMAL_MMAP_SIZE;
    proof {
        assert(bytes_needed <= usize::MAX / 8 + 1);
    }
    while cap < bytes_needed
        invariant
            128 <= cap,
            bytes_needed <= usize::MAX / 8 + 1,
            spec_cap_grow(cap as int, bytes_needed as int) == spec_capacity_bytes(
                num_flags as int,
            ),
        decreases (if cap < bytes_needed {
            bytes_needed - cap
        } else {
            0
        }),
    {
        cap = cap * 2;
    }
    cap
}

/// Based on the current length, determines how many flags fit into the
/// mmap file without resizing it.
pub fn mmap_max_current_size(len: usize) -> (r: usize)
    requires
        spec_max_current_size(len as int) <= usize::MAX,
    ensures
        r == spec_max_current_size(len as int),
{
    let capacity_bytes = mmap_capacity_bytes(len);
    capacity_bytes * 8
}

} // verus!

//! Four-bit connectivity masks: bit 0 is North, bit 1 East, bit 2 South and
//! bit 3 West.

use vstd::prelude::*;

verus! {

pub const NORTH: u8 = 1;

pub const EAST: u8 = 2;

pub const SOUTH: u8 = 4;

pub const WEST: u8 = 8;

/// A single direction bit.
pub open spec fn is_direction(d: u8) -> bool {
    d == NORTH || d == EAST || d == SOUTH || d == WEST
}

/// The direction on the opposite edge: North and South, East and West.
pub open spec fn polar_of(d: u8) -> u8 {
    if d == NORTH {
        SOUTH
    } else if d == EAST {
        WEST
    } else if d == SOUTH {
        NORTH
    } else if d == WEST {
        EAST
    } else {
        0
    }
}

/// One cyclic right-rotation of the low four bits of `m`.
pub open spec fn rot1(m: u8) -> u8 {
    ((m & 15u8) >> 1u8) | ((m & 1u8) << 3u8)
}

/// The low four bits of `m` rotated cyclically to the right `k` times.
pub open spec fn rot_mask(m: u8, k: nat) -> u8
    decreases k,
{
    if k == 0 {
        m & 15u8
    } else {
        rot1(rot_mask(m, (k - 1) as nat))
    }
}

/// The opposite direction of `d`, or 0 where `d` is not a direction.
pub fn polar(d: u8) -> (r: u8)
    ensures
        r == polar_of(d),
{
    if d == NORTH {
        SOUTH
    } else if d == EAST {
        WEST
    } else if d == SOUTH {
        NORTH
    } else if d == WEST {
        EAST
    } else {
        0
    }
}

proof fn lemma_rot1_masked(m: u8)
    ensures
        rot1(m) == rot1(m & 15u8),
        rot1(m) < 16,
{
    assert(((m & 15u8) >> 1u8) | ((m & 1u8) << 3u8) == (((m & 15u8) & 15u8) >> 1u8) | (((m
        & 15u8) & 1u8) << 3u8)) by (bit_vector);
    assert(((m & 15u8) >> 1u8) | ((m & 1u8) << 3u8) < 16) by (bit_vector);
}

/// Every rotation stays within four bits.
pub proof fn lemma_rot_mask_bounded(m: u8, k: nat)
    ensures
        rot_mask(m, k) < 16,
    decreases k,
{
    if k == 0 {
        assert(m & 15u8 < 16) by (bit_vector);
    } else {
        lemma_rot1_masked(rot_mask(m, (k - 1) as nat));
    }
}

/// Rotating by `a` and then by `b` is rotating by `a + b`.
pub proof fn lemma_rot_mask_add(m: u8, a: nat, b: nat)
    ensures
        rot_mask(rot_mask(m, a), b) == rot_mask(m, a + b),
    decreases b,
{
    if b == 0 {
        lemma_rot_mask_bounded(m, a);
        let x = rot_mask(m, a);
        assert(x < 16 ==> x & 15u8 == x) by (bit_vector);
    } else {
        lemma_rot_mask_add(m, a, (b - 1) as nat);
        assert(a + b - 1 == a + (b - 1) as nat);
    }
}

/// Four quarter turns bring a mask back to where it started.
pub proof fn lemma_rot_mask_four(m: u8)
    requires
        m < 16,
    ensures
        rot_mask(m, 4) == m,
{
    reveal_with_fuel(rot_mask, 5);
    let a = rot_mask(m, 1);
    let b = rot_mask(m, 2);
    let c = rot_mask(m, 3);
    let d = rot_mask(m, 4);
    assert(a == ((m & 15u8) >> 1u8) | ((m & 1u8) << 3u8)) by {
        assert(m < 16 ==> m & 15u8 == m) by (bit_vector);
    }
    assert(d == m) by (bit_vector)
        requires
            m < 16,
            a == ((m & 15u8) >> 1u8) | ((m & 1u8) << 3u8),
            b == ((a & 15u8) >> 1u8) | ((a & 1u8) << 3u8),
            c == ((b & 15u8) >> 1u8) | ((b & 1u8) << 3u8),
            d == ((c & 15u8) >> 1u8) | ((c & 1u8) << 3u8),
    ;
}

/// One cyclic right-rotation of the low four bits.
fn rotate_once(m: u8) -> (r: u8)
    ensures
        r == rot1(m),
{
    ((m & 15u8) >> 1u8) | ((m & 1u8) << 3u8)
}

/// The low four bits of `m` rotated cyclically to the right `k` times.
pub fn rotate_mask(m: u8, k: u8) -> (r: u8)
    ensures
        r == rot_mask(m, k as nat),
        r < 16,
{
    let mut r: u8 = m & 15u8;
    let mut i: u8 = 0;
    while i < k
        invariant
            i <= k,
            r == rot_mask(m, i as nat),
        decreases k - i,
    {
        r = rotate_once(r);
        i = i + 1;
    }
    proof {
        lemma_rot_mask_bounded(m, k as nat);
    }
    r
}

} // verus!

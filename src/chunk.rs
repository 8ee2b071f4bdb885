//! Template pieces and their rotation.

use crate::mask::{
    is_direction, lemma_rot_mask_add, lemma_rot_mask_bounded, lemma_rot_mask_four, polar,
    polar_of, rot_mask, rotate_mask,
};
use crate::matrix::{
    copy_matrix, is_square, is_square_matrix, lemma_rot_matrix_add, lemma_rot_matrix_four, lemma_rot_matrix_square,
    rot_matrix, rotate_cw, rows_of,
};
use crate::random::draw_below;
use vstd::prelude::*;

verus! {

/// One placeable piece: a tile matrix with a connector on each edge whose
/// bit is set in `entries`. `spawn` holds a point of interest attached
/// after placement.
#[derive(Clone, Debug)]
pub struct DungeonChunk<S> {
    pub matrix: Vec<Vec<u16>>,
    pub entries: u8,
    pub room: bool,
    pub weight: u16,
    pub spawn: Option<S>,
    pub id: u16,
    pub rotations: u16,
}

/// Rotating the mask right `r` times puts a connector on the edge opposite
/// to `d`.
pub open spec fn valid_rotation(entries: u8, d: u8, r: nat) -> bool {
    rot_mask(entries, r) & polar_of(d) != 0
}

/// The valid rotation counts below `k`, in increasing order.
pub open spec fn choices_below(entries: u8, d: u8, k: nat) -> Seq<u8>
    decreases k,
{
    if k == 0 {
        Seq::empty()
    } else {
        let earlier = choices_below(entries, d, (k - 1) as nat);
        if valid_rotation(entries, d, (k - 1) as nat) {
            earlier.push((k - 1) as u8)
        } else {
            earlier
        }
    }
}

/// The rotation counts in `0..4` that align a piece with direction `d`.
pub open spec fn choices_of(entries: u8, d: u8) -> Seq<u8> {
    choices_below(entries, d, 4)
}

/// The matrix after `r` quarter turns; a matrix that is not square stays as
/// it is.
pub open spec fn turned_rows(m: Seq<Seq<u16>>, r: nat) -> Seq<Seq<u16>> {
    if is_square(m) {
        rot_matrix(m, r)
    } else {
        m
    }
}

proof fn lemma_choices_below(entries: u8, d: u8, k: nat)
    requires
        k <= 4,
    ensures
        forall|i: int|
            0 <= i < choices_below(entries, d, k).len() ==> {
                let c = #[trigger] choices_below(entries, d, k)[i];
                &&& c < k
                &&& valid_rotation(entries, d, c as nat)
            },
        forall|c: nat|
            c < k && valid_rotation(entries, d, c) ==> choices_below(entries, d, k).contains(
                c as u8,
            ),
    decreases k,
{
    if k > 0 {
        lemma_choices_below(entries, d, (k - 1) as nat);
        let earlier = choices_below(entries, d, (k - 1) as nat);
        if valid_rotation(entries, d, (k - 1) as nat) {
            assert(choices_below(entries, d, k) == earlier.push((k - 1) as u8));
            assert(((k - 1) as u8) as nat == k - 1);
            assert forall|c: nat|
                c < k && valid_rotation(entries, d, c) implies choices_below(
                entries,
                d,
                k,
            ).contains(c as u8) by {
                if c < k - 1 {
                    let j = choose|j: int| 0 <= j < earlier.len() && earlier[j] == c as u8;
                    assert(choices_below(entries, d, k)[j] == c as u8);
                } else {
                    assert(choices_below(entries, d, k)[earlier.len() as int] == c as u8);
                }
            }
        }
    }
}

/// A piece with at least one connector can be turned to face back along
/// any direction.
pub proof fn lemma_some_rotation_fits(entries: u8, d: u8)
    requires
        entries & 15u8 != 0,
        is_direction(d),
    ensures
        choices_of(entries, d).len() > 0,
{
    reveal_with_fuel(rot_mask, 4);
    let p = polar_of(d);
    let z = rot_mask(entries, 0);
    let a = rot_mask(entries, 1);
    let b = rot_mask(entries, 2);
    let c = rot_mask(entries, 3);
    assert(z & p != 0 || a & p != 0 || b & p != 0 || c & p != 0) by (bit_vector)
        requires
            z == entries & 15u8,
            z != 0,
            a == ((z & 15u8) >> 1u8) | ((z & 1u8) << 3u8),
            b == ((a & 15u8) >> 1u8) | ((a & 1u8) << 3u8),
            c == ((b & 15u8) >> 1u8) | ((b & 1u8) << 3u8),
            p == 1u8 || p == 2u8 || p == 4u8 || p == 8u8,
    ;
    lemma_choices_below(entries, d, 4);
    if z & p != 0 {
        assert(valid_rotation(entries, d, 0));
        assert(choices_of(entries, d).contains((0nat) as u8));
    } else if a & p != 0 {
        assert(valid_rotation(entries, d, 1));
        assert(choices_of(entries, d).contains((1nat) as u8));
    } else if b & p != 0 {
        assert(valid_rotation(entries, d, 2));
        assert(choices_of(entries, d).contains((2nat) as u8));
    } else {
        assert(valid_rotation(entries, d, 3));
        assert(choices_of(entries, d).contains((3nat) as u8));
    }
}

/// Applying a quarter-turn count four times gives back the mask and the
/// matrix that a template started with, whatever the count.
pub proof fn lemma_rotate_four_times(entries: u8, m: Seq<Seq<u16>>, r: nat)
    requires
        entries < 16,
    ensures
        rot_mask(rot_mask(rot_mask(rot_mask(entries, r), r), r), r) == entries,
        turned_rows(turned_rows(turned_rows(turned_rows(m, r), r), r), r) == m,
{
    lemma_rot_mask_add(entries, r, r);
    lemma_rot_mask_add(entries, r + r, r);
    lemma_rot_mask_add(entries, r + r + r, r);
    lemma_rot_mask_quarters(entries, r);
    assert(r + r + r + r == 4 * r);
    if is_square(m) {
        lemma_rot_matrix_square(m, r);
        lemma_rot_matrix_square(m, r + r);
        lemma_rot_matrix_square(m, r + r + r);
        lemma_rot_matrix_add(m, r, r);
        lemma_rot_matrix_add(m, r + r, r);
        lemma_rot_matrix_add(m, r + r + r, r);
        lemma_rot_matrix_quarters(m, r);
    }
}

proof fn lemma_rot_mask_quarters(entries: u8, r: nat)
    requires
        entries < 16,
    ensures
        rot_mask(entries, 4 * r) == entries,
    decreases r,
{
    if r == 0 {
        assert(entries < 16 ==> entries & 15u8 == entries) by (bit_vector);
    } else {
        lemma_rot_mask_quarters(entries, (r - 1) as nat);
        lemma_rot_mask_four(entries);
        lemma_rot_mask_add(entries, 4, 4 * (r - 1) as nat);
        assert(4 + 4 * (r - 1) as nat == 4 * r);
        lemma_rot_mask_quarters(rot_mask(entries, 4), (r - 1) as nat);
    }
}

proof fn lemma_rot_matrix_quarters(m: Seq<Seq<u16>>, r: nat)
    requires
        is_square(m),
    ensures
        rot_matrix(m, 4 * r) == m,
    decreases r,
{
    if r > 0 {
        lemma_rot_matrix_quarters(m, (r - 1) as nat);
        lemma_rot_matrix_four(m);
        lemma_rot_matrix_add(m, 4, 4 * (r - 1) as nat);
        assert(4 + 4 * (r - 1) as nat == 4 * r);
    }
}

impl<S> DungeonChunk<S> {
    /// The tile matrix as rows of tile indices.
    pub open spec fn rows(&self) -> Seq<Seq<u16>> {
        rows_of(self.matrix@)
    }

    /// A fresh copy of this template, with no point of interest attached.
    pub fn instance(&self) -> (c: DungeonChunk<S>)
        ensures
            c.rows() == self.rows(),
            c.entries == self.entries,
            c.room == self.room,
            c.weight == self.weight,
            c.spawn is None,
            c.id == self.id,
            c.rotations == self.rotations,
    {
        DungeonChunk {
            matrix: copy_matrix(&self.matrix),
            entries: self.entries,
            room: self.room,
            weight: self.weight,
            spawn: None,
            id: self.id,
            rotations: self.rotations,
        }
    }

    /// The rotation counts in `0..4`, in increasing order, after which this
    /// piece has a connector facing back along direction `entries`.
    pub fn rotation_choices(&self, entries: u8) -> (r: Vec<u8>)
        ensures
            r@ == choices_of(self.entries, entries),
    {
        let p = polar(entries);
        let mut r: Vec<u8> = Vec::new();
        let mut i: u8 = 0;
        while i < 4
            invariant
                i <= 4,
                p == polar_of(entries),
                r@ == choices_below(self.entries, entries, i as nat),
            decreases 4 - i,
        {
            if rotate_mask(self.entries, i) & p != 0 {
                r.push(i);
            }
            i = i + 1;
        }
        r
    }

    /// Turns the piece `r` quarters: the mask rotates cyclically to the
    /// right, and a square matrix turns clockwise.
    pub fn rotate_by(&mut self, r: u8)
        requires
            r < 4,
        ensures
            final(self).entries == rot_mask(old(self).entries, r as nat),
            final(self).rows() == turned_rows(old(self).rows(), r as nat),
            final(self).rotations == r,
            final(self).room == old(self).room,
            final(self).weight == old(self).weight,
            final(self).spawn == old(self).spawn,
            final(self).id == old(self).id,
    {
        self.entries = rotate_mask(self.entries, r);
        self.rotations = r as u16;
        let square = is_square_matrix(&self.matrix);
        let ghost start = self.rows();
        if square {
            let mut k: u8 = 0;
            while k < r
                invariant
                    k <= r,
                    is_square(start),
                    self.rows() == rot_matrix(start, k as nat),
                    self.entries == rot_mask(old(self).entries, r as nat),
                    self.rotations == r,
                    self.room == old(self).room,
                    self.weight == old(self).weight,
                    self.spawn == old(self).spawn,
                    self.id == old(self).id,
                decreases r - k,
            {
                proof {
                    lemma_rot_matrix_square(start, k as nat);
                }
                self.matrix = rotate_cw(&self.matrix);
                k = k + 1;
            }
        }
    }

    /// Turns the piece by the rotation count at position `pick` among those
    /// that align it with incoming direction `entries`, and returns that
    /// count.
    pub fn rotate_at(&mut self, entries: u8, pick: usize) -> (k: u8)
        requires
            pick < choices_of(old(self).entries, entries).len(),
        ensures
            k == choices_of(old(self).entries, entries)[pick as int],
            k < 4,
            valid_rotation(old(self).entries, entries, k as nat),
            final(self).entries == rot_mask(old(self).entries, k as nat),
            final(self).rows() == turned_rows(old(self).rows(), k as nat),
            final(self).rotations == k,
            final(self).room == old(self).room,
            final(self).weight == old(self).weight,
            final(self).spawn == old(self).spawn,
            final(self).id == old(self).id,
    {
        let choices = self.rotation_choices(entries);
        let k = choices[pick];
        proof {
            lemma_choices_below(self.entries, entries, 4);
        }
        self.rotate_by(k);
        k
    }

    /// Aligns the piece with an incoming direction: picks one of the valid
    /// rotation counts uniformly at random and turns the piece by it. Where
    /// no count is valid the piece is left as it is and `None` comes back.
    pub fn rotate(&mut self, entries: u8, rng: &mut rand::rngs::StdRng) -> (r: Option<u8>)
        ensures
            r is None <==> choices_of(old(self).entries, entries).len() == 0,
            r is None ==> *final(self) == *old(self),
            r matches Some(k) ==> {
                &&& choices_of(old(self).entries, entries).contains(k)
                &&& valid_rotation(old(self).entries, entries, k as nat)
                &&& k < 4
                &&& final(self).entries == rot_mask(old(self).entries, k as nat)
                &&& final(self).rows() == turned_rows(old(self).rows(), k as nat)
                &&& final(self).rotations == k
                &&& final(self).room == old(self).room
                &&& final(self).weight == old(self).weight
                &&& final(self).spawn == old(self).spawn
                &&& final(self).id == old(self).id
            },
    {
        let n = self.rotation_choices(entries).len();
        if n == 0 {
            return None;
        }
        let pick = draw_below(rng, n);
        let k = self.rotate_at(entries, pick);
        Some(k)
    }
}

} // verus!

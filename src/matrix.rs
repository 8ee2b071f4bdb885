//! Square tile matrices and their quarter turns.

use vstd::prelude::*;

verus! {

/// The rows of a tile matrix as sequences.
pub open spec fn rows_of(m: Seq<Vec<u16>>) -> Seq<Seq<u16>> {
    m.map_values(|r: Vec<u16>| r@)
}

/// Every row is as long as there are rows.
pub open spec fn is_square(m: Seq<Seq<u16>>) -> bool {
    forall|i: int| 0 <= i < m.len() ==> #[trigger] m[i].len() == m.len()
}

/// The matrix turned a quarter clockwise: row `i` of the result is column
/// `i` of `m` read from the bottom up.
pub open spec fn rot_cw(m: Seq<Seq<u16>>) -> Seq<Seq<u16>> {
    Seq::new(m.len(), |i: int| Seq::new(m.len(), |j: int| m[m.len() - 1 - j][i]))
}

/// The matrix turned `k` quarters clockwise.
pub open spec fn rot_matrix(m: Seq<Seq<u16>>, k: nat) -> Seq<Seq<u16>>
    decreases k,
{
    if k == 0 {
        m
    } else {
        rot_cw(rot_matrix(m, (k - 1) as nat))
    }
}

pub proof fn lemma_rot_cw_square(m: Seq<Seq<u16>>)
    ensures
        is_square(rot_cw(m)),
        rot_cw(m).len() == m.len(),
{
}

pub proof fn lemma_rot_matrix_square(m: Seq<Seq<u16>>, k: nat)
    requires
        is_square(m),
    ensures
        is_square(rot_matrix(m, k)),
        rot_matrix(m, k).len() == m.len(),
    decreases k,
{
    if k > 0 {
        lemma_rot_matrix_square(m, (k - 1) as nat);
        lemma_rot_cw_square(rot_matrix(m, (k - 1) as nat));
    }
}

/// Turning by `a` quarters and then by `b` is turning by `a + b`.
pub proof fn lemma_rot_matrix_add(m: Seq<Seq<u16>>, a: nat, b: nat)
    ensures
        rot_matrix(rot_matrix(m, a), b) == rot_matrix(m, a + b),
    decreases b,
{
    if b > 0 {
        lemma_rot_matrix_add(m, a, (b - 1) as nat);
        assert(a + b - 1 == a + (b - 1) as nat);
    }
}

/// Two quarter turns read the matrix backwards in both axes.
proof fn lemma_rot_half(m: Seq<Seq<u16>>)
    requires
        is_square(m),
    ensures
        rot_cw(rot_cw(m)) =~~= Seq::new(
            m.len(),
            |i: int| Seq::new(m.len(), |j: int| m[m.len() - 1 - i][m.len() - 1 - j]),
        ),
{
}

/// Four quarter turns bring a square matrix back to where it started.
pub proof fn lemma_rot_matrix_four(m: Seq<Seq<u16>>)
    requires
        is_square(m),
    ensures
        rot_matrix(m, 4) == m,
{
    reveal_with_fuel(rot_matrix, 5);
    let n = m.len();
    let h = rot_cw(rot_cw(m));
    lemma_rot_half(m);
    lemma_rot_cw_square(m);
    lemma_rot_cw_square(rot_cw(m));
    lemma_rot_half(h);
    assert(rot_cw(rot_cw(h)) =~~= m) by {
        assert forall|i: int| 0 <= i < n implies #[trigger] rot_cw(rot_cw(h))[i] =~= m[i] by {
            assert(m[i].len() == n);
        }
    }
}

/// Whether every row is as long as there are rows.
pub fn is_square_matrix(m: &Vec<Vec<u16>>) -> (r: bool)
    ensures
        r == is_square(rows_of(m@)),
{
    let n = m.len();
    let mut i: usize = 0;
    while i < n
        invariant
            n == m.len(),
            i <= n,
            forall|k: int| 0 <= k < i ==> (#[trigger] m@[k])@.len() == n,
        decreases n - i,
    {
        if m[i].len() != n {
            assert(rows_of(m@)[i as int].len() != n);
            return false;
        }
        i = i + 1;
    }
    assert forall|k: int| 0 <= k < n implies #[trigger] rows_of(m@)[k].len() == n by {
        assert(m@[k]@.len() == n);
    }
    true
}

/// A copy of one row.
fn copy_row(r: &Vec<u16>) -> (c: Vec<u16>)
    ensures
        c@ == r@,
{
    let mut c: Vec<u16> = Vec::new();
    let mut j: usize = 0;
    while j < r.len()
        invariant
            j <= r.len(),
            c@ == r@.subrange(0, j as int),
        decreases r.len() - j,
    {
        c.push(r[j]);
        j = j + 1;
        assert(c@ =~= r@.subrange(0, j as int));
    }
    assert(c@ =~= r@);
    c
}

/// A copy of a whole matrix, square or not.
pub fn copy_matrix(m: &Vec<Vec<u16>>) -> (c: Vec<Vec<u16>>)
    ensures
        rows_of(c@) == rows_of(m@),
{
    let mut c: Vec<Vec<u16>> = Vec::new();
    let mut i: usize = 0;
    while i < m.len()
        invariant
            i <= m.len(),
            c@.len() == i,
            forall|k: int| 0 <= k < i ==> (#[trigger] c@[k])@ == m@[k]@,
        decreases m.len() - i,
    {
        let row = copy_row(&m[i]);
        c.push(row);
        i = i + 1;
    }
    assert(rows_of(c@) =~= rows_of(m@));
    c
}

/// The square matrix `m` turned a quarter clockwise.
pub fn rotate_cw(m: &Vec<Vec<u16>>) -> (r: Vec<Vec<u16>>)
    requires
        is_square(rows_of(m@)),
    ensures
        rows_of(r@) == rot_cw(rows_of(m@)),
{
    let ghost s = rows_of(m@);
    let n = m.len();
    let mut r: Vec<Vec<u16>> = Vec::new();
    let mut i: usize = 0;
    while i < n
        invariant
            n == m.len(),
            s == rows_of(m@),
            is_square(s),
            i <= n,
            r@.len() == i,
            forall|k: int| 0 <= k < i ==> (#[trigger] r@[k])@ == rot_cw(s)[k],
        decreases n - i,
    {
        let mut row: Vec<u16> = Vec::new();
        let mut j: usize = 0;
        while j < n
            invariant
                n == m.len(),
                s == rows_of(m@),
                is_square(s),
                i < n,
                j <= n,
                row@ == rot_cw(s)[i as int].subrange(0, j as int),
            decreases n - j,
        {
            assert(s[n - 1 - j].len() == n);
            row.push(m[n - 1 - j][i]);
            j = j + 1;
            assert(row@ =~= rot_cw(s)[i as int].subrange(0, j as int));
        }
        assert(row@ =~= rot_cw(s)[i as int]);
        r.push(row);
        i = i + 1;
    }
    assert(rows_of(r@) =~= rot_cw(s));
    r
}

} // verus!

//! The grid of placed pieces and the procedure that fills it.

use crate::chunk::{choices_of, lemma_some_rotation_fits, turned_rows, DungeonChunk};
use crate::mask::{is_direction, polar, polar_of, rot_mask, EAST, NORTH, SOUTH, WEST};
use crate::random::draw_below;
use crate::select::{lemma_selection_exists, select_index, selection};
use vstd::prelude::*;

verus! {

/// `(x, y)` lies inside a grid of `w` columns and `h` rows.
pub open spec fn in_grid(x: int, y: int, w: nat, h: nat) -> bool {
    0 <= x < w && 0 <= y < h
}

/// The cell holds a piece that is marked as a room.
pub open spec fn is_room<S>(c: Option<DungeonChunk<S>>) -> bool {
    c matches Some(ch) && ch.room
}

/// Column-major order on coordinates.
pub open spec fn before(a: (u32, u32), b: (u32, u32)) -> bool {
    a.0 < b.0 || (a.0 == b.0 && a.1 < b.1)
}

/// The seed cell of a grid of the given size.
pub open spec fn center_of(size: (u32, u32)) -> (int, int) {
    (size.0 as int / 2, size.1 as int / 2)
}

/// The cell one step from `(x, y)` in direction `d`: North and South move
/// along the row coordinate, East and West along the column coordinate.
pub open spec fn step(x: int, y: int, d: u8) -> (int, int) {
    if d == NORTH {
        (x, y + 1)
    } else if d == EAST {
        (x + 1, y)
    } else if d == SOUTH {
        (x, y - 1)
    } else {
        (x - 1, y)
    }
}

/// Direction `d` is set in `e` and leads to a cell inside the grid.
pub open spec fn usable(e: u8, d: u8, x: int, y: int, w: nat, h: nat) -> bool {
    e & d != 0 && in_grid(step(x, y, d).0, step(x, y, d).1, w, h)
}

/// The first usable direction in the order North, East, South, West; 0
/// where none is.
pub open spec fn open_direction(e: u8, x: int, y: int, w: nat, h: nat) -> u8 {
    if usable(e, NORTH, x, y, w, h) {
        NORTH
    } else if usable(e, EAST, x, y, w, h) {
        EAST
    } else if usable(e, SOUTH, x, y, w, h) {
        SOUTH
    } else if usable(e, WEST, x, y, w, h) {
        WEST
    } else {
        0
    }
}

/// Every template has at least one connector.
pub open spec fn all_connect<S>(options: Seq<DungeonChunk<S>>) -> bool {
    forall|i: int| 0 <= i < options.len() ==> #[trigger] options[i].entries & 15u8 != 0
}

/// Piece `c` is template `t` turned `k` quarters, with some of its
/// connectors used up.
pub open spec fn turned_from<S>(c: DungeonChunk<S>, t: DungeonChunk<S>, k: nat) -> bool {
    &&& k < 4
    &&& c.id == t.id
    &&& c.room == t.room
    &&& c.weight == t.weight
    &&& c.rows() == turned_rows(t.rows(), k)
    &&& c.entries & 15u8 & !rot_mask(t.entries, k) == 0
}

proof fn lemma_turned_after_step(m: u8, p: u8)
    ensures
        (m & !p) & 15u8 & !m == 0,
{
    assert((m & !p) & 15u8 & !m == 0) by (bit_vector);
}

proof fn lemma_turned_after_use(e: u8, m: u8, d: u8)
    requires
        e & 15u8 & !m == 0,
    ensures
        (e & !d) & 15u8 & !m == 0,
{
    assert(e & 15u8 & !m == 0 ==> (e & !d) & 15u8 & !m == 0) by (bit_vector);
}

proof fn lemma_only_cleared(m: u8, p: u8, d: u8)
    requires
        is_direction(d),
        is_direction(p),
        m & d != 0,
        (m & !p) & d == 0,
    ensures
        d == p,
{
    assert(d == p) by (bit_vector)
        requires
            d == 1u8 || d == 2u8 || d == 4u8 || d == 8u8,
            p == 1u8 || p == 2u8 || p == 4u8 || p == 8u8,
            m & d != 0,
            (m & !p) & d == 0,
    ;
}

proof fn lemma_clear_other(e: u8, p: u8, d: u8)
    requires
        is_direction(d),
        is_direction(p),
        d != p,
        (e & !p) & d == 0,
    ensures
        e & d == 0,
{
    assert(e & d == 0) by (bit_vector)
        requires
            d == 1u8 || d == 2u8 || d == 4u8 || d == 8u8,
            p == 1u8 || p == 2u8 || p == 4u8 || p == 8u8,
            d != p,
            (e & !p) & d == 0,
    ;
}

proof fn lemma_seed_unused(e: u8, d: u8)
    requires
        is_direction(d),
    ensures
        !((e & 15u8) & d != 0 && e & d == 0),
{
    assert(!((e & 15u8) & d != 0 && e & d == 0)) by (bit_vector)
        requires
            d == 1u8 || d == 2u8 || d == 4u8 || d == 8u8,
    ;
}

proof fn lemma_step_back(x: int, y: int, d: u8)
    requires
        is_direction(d),
    ensures
        step(step(x, y, d).0, step(x, y, d).1, polar_of(d)) == (x, y),
        is_direction(polar_of(d)),
{
}

proof fn lemma_turned_seed(e: u8)
    ensures
        e & 15u8 & !rot_mask(e, 0) == 0,
{
    assert(e & 15u8 & !(e & 15u8) == 0) by (bit_vector);
}

proof fn lemma_clear_bit(e: u8, d: u8)
    ensures
        (e & !d) & d == 0,
        e & !d <= e,
        d != 0 && e & d != 0 ==> e & !d != e,
{
    assert((e & !d) & d == 0) by (bit_vector);
    assert(e & !d <= e) by (bit_vector);
    assert(d != 0 && e & d != 0 ==> e & !d != e) by (bit_vector);
}

/// Placement steps allowed per cell before generation stops. Pieces may
/// overwrite earlier ones, so without a cap generation could go on for ever.
pub const STEPS_PER_CELL: u64 = 16;

/// The cap on placement steps for a grid of the given size.
pub open spec fn step_limit(size: (u32, u32)) -> nat {
    let cells = size.0 as nat * size.1 as nat;
    if cells > u64::MAX / STEPS_PER_CELL {
        u64::MAX as nat
    } else {
        cells * (STEPS_PER_CELL as nat)
    }
}

/// The flat position of `(x, y)` in row-major order.
pub open spec fn flat(x: int, y: int, w: nat) -> int {
    y * w + x
}

proof fn lemma_flat(x: int, y: int, w: nat, h: nat)
    requires
        in_grid(x, y, w, h),
    ensures
        0 <= flat(x, y, w) < w * h,
{
    assert(0 <= y * w + x < w * h) by (nonlinear_arith)
        requires
            0 <= x < w,
            0 <= y < h,
    ;
}

proof fn lemma_flat_injective(x1: int, y1: int, x2: int, y2: int, w: nat, h: nat)
    requires
        in_grid(x1, y1, w, h),
        in_grid(x2, y2, w, h),
        flat(x1, y1, w) == flat(x2, y2, w),
    ensures
        x1 == x2 && y1 == y2,
{
    assert(y1 == y2) by (nonlinear_arith)
        requires
            0 <= x1 < w,
            0 <= x2 < w,
            y1 * w + x1 == y2 * w + x2,
            0 <= y1,
            0 <= y2,
    ;
}

/// A grid of `width` columns and `height` rows, each cell empty or holding
/// a placed piece.
#[derive(Clone, Debug)]
pub struct Dungeon<S> {
    chunks: Vec<Option<DungeonChunk<S>>>,
    width: u32,
    height: u32,
    net_weight: u16,
    finished: bool,
    steps: u64,
}

impl<S> Dungeon<S> {
    /// Number of columns.
    pub closed spec fn width(&self) -> nat {
        self.width as nat
    }

    /// Number of rows.
    pub closed spec fn height(&self) -> nat {
        self.height as nat
    }

    /// Upper end of the interval that template thresholds partition.
    pub closed spec fn net(&self) -> u16 {
        self.net_weight
    }

    /// What the cell at column `x`, row `y` holds.
    pub closed spec fn cell(&self, x: int, y: int) -> Option<DungeonChunk<S>> {
        self.chunks@[flat(x, y, self.width())]
    }

    /// The cell that generation starts from.
    pub open spec fn seed_cell(&self) -> (int, int) {
        (self.width() as int / 2, self.height() as int / 2)
    }

    /// The flat storage holds exactly one entry per cell.
    pub closed spec fn wf(&self) -> bool {
        &&& self.chunks@.len() == self.width() * self.height()
        &&& self.width() * self.height() <= usize::MAX
    }

    fn index(&self, location: (u32, u32)) -> (i: usize)
        requires
            self.wf(),
            in_grid(location.0 as int, location.1 as int, self.width(), self.height()),
        ensures
            i == flat(location.0 as int, location.1 as int, self.width()),
            i < self.chunks@.len(),
    {
        proof {
            lemma_flat(location.0 as int, location.1 as int, self.width(), self.height());
        }
        location.1 as usize * self.width as usize + location.0 as usize
    }

    /// A grid with every cell empty but the centre `(width/2, height/2)`,
    /// which holds a copy of template `default_chunk` carrying
    /// `default_loc`.
    pub fn seeded(
        size: (u32, u32),
        net_weight: u16,
        default_chunk: u16,
        chunks: &Vec<DungeonChunk<S>>,
        default_loc: S,
    ) -> (d: Dungeon<S>)
        requires
            size.0 > 0,
            size.1 > 0,
            size.0 * size.1 <= usize::MAX,
            default_chunk < chunks.len(),
        ensures
            d.wf(),
            d.width() == size.0,
            d.height() == size.1,
            d.net() == net_weight,
            forall|x: int, y: int|
                in_grid(x, y, size.0 as nat, size.1 as nat) && (x, y) != center_of(size) ==> #[trigger] d.cell(x, y) is None,
            d.cell(center_of(size).0, center_of(size).1) matches Some(c) && {
                let t = chunks@[default_chunk as int];
                &&& c.rows() == t.rows()
                &&& c.entries == t.entries
                &&& c.room == t.room
                &&& c.weight == t.weight
                &&& c.id == t.id
                &&& c.rotations == t.rotations
                &&& c.spawn == Some(default_loc)
            },
    {
        let n = size.0 as usize * size.1 as usize;
        let mut cells: Vec<Option<DungeonChunk<S>>> = Vec::new();
        let mut i: usize = 0;
        while i < n
            invariant
                i <= n,
                cells@.len() == i,
                forall|k: int| 0 <= k < i ==> #[trigger] cells@[k] is None,
            decreases n - i,
        {
            cells.push(None);
            i = i + 1;
        }
        let mut seed = chunks[default_chunk as usize].instance();
        seed.spawn = Some(default_loc);
        let mut d = Dungeon { chunks: cells, width: size.0, height: size.1, net_weight, finished: false, steps: 0 };
        let center = (size.0 / 2, size.1 / 2);
        let c = d.index(center);
        d.chunks.set(c, Some(seed));
        assert forall|x: int, y: int|
            in_grid(x, y, size.0 as nat, size.1 as nat) && (x, y) != center_of(size) implies #[trigger] d.cell(x, y) is None by {
            lemma_flat(x, y, d.width(), d.height());
            if flat(x, y, d.width()) == c {
                lemma_flat_injective(
                    x,
                    y,
                    center.0 as int,
                    center.1 as int,
                    d.width(),
                    d.height(),
                );
            }
        }
        d
    }

    /// The piece at `location`; `None` outside the grid or on an empty cell.
    pub fn get_chunk(&self, location: (u32, u32)) -> (r: Option<&DungeonChunk<S>>)
        requires
            self.wf(),
        ensures
            !in_grid(location.0 as int, location.1 as int, self.width(), self.height())
                ==> r is None,
            in_grid(location.0 as int, location.1 as int, self.width(), self.height()) ==> (
            match r {
                Some(c) => self.cell(location.0 as int, location.1 as int) == Some(*c),
                None => self.cell(location.0 as int, location.1 as int) is None,
            }),
    {
        if location.0 >= self.width || location.1 >= self.height {
            return None;
        }
        let i = self.index(location);
        self.chunks[i].as_ref()
    }

    /// Attaches `loc` to the piece at `pos`. Outside the grid or on an empty
    /// cell nothing changes.
    pub fn add_location(&mut self, pos: (u32, u32), loc: S)
        requires
            old(self).wf(),
        ensures
            final(self).wf(),
            final(self).width() == old(self).width(),
            final(self).height() == old(self).height(),
            final(self).net() == old(self).net(),
            forall|x: int, y: int|
                in_grid(x, y, old(self).width(), old(self).height()) && (x, y) != (
                pos.0 as int,
                pos.1 as int,
                ) ==> #[trigger] final(self).cell(x, y) == old(self).cell(x, y),
            in_grid(pos.0 as int, pos.1 as int, old(self).width(), old(self).height()) ==> (
            match old(self).cell(pos.0 as int, pos.1 as int) {
                Some(c) => final(self).cell(pos.0 as int, pos.1 as int) == Some(
                    DungeonChunk { spawn: Some(loc), ..c },
                ),
                None => final(self).cell(pos.0 as int, pos.1 as int) is None,
            }),
            !in_grid(pos.0 as int, pos.1 as int, old(self).width(), old(self).height())
                ==> *final(self) == *old(self),
    {
        if pos.0 >= self.width || pos.1 >= self.height {
            return;
        }
        let i = self.index(pos);
        let mut slot: Option<DungeonChunk<S>> = None;
        std::mem::swap(&mut self.chunks[i], &mut slot);
        let slot = match slot {
            Some(mut c) => {
                c.spawn = Some(loc);
                Some(c)
            },
            None => None,
        };
        self.chunks.set(i, slot);
        proof {
            assert forall|x: int, y: int|
                in_grid(x, y, old(self).width(), old(self).height()) && (x, y) != (
                pos.0 as int,
                pos.1 as int,
                ) implies #[trigger] self.cell(x, y) == old(self).cell(x, y) by {
                lemma_flat(x, y, self.width(), self.height());
                if flat(x, y, self.width()) == i {
                    lemma_flat_injective(
                        x,
                        y,
                        pos.0 as int,
                        pos.1 as int,
                        self.width(),
                        self.height(),
                    );
                }
            }
        }
    }

    /// The coordinates of every cell that holds a room, each once, in
    /// column-major order.
    pub fn rooms(self) -> (r: Vec<(u32, u32)>)
        requires
            self.wf(),
        ensures
            forall|k: int|
                0 <= k < r@.len() ==> {
                    let p = #[trigger] r@[k];
                    &&& in_grid(p.0 as int, p.1 as int, self.width(), self.height())
                    &&& is_room(self.cell(p.0 as int, p.1 as int))
                },
            forall|x: int, y: int|
                in_grid(x, y, self.width(), self.height()) && is_room(#[trigger] self.cell(x, y))
                    ==> r@.contains((x as u32, y as u32)),
            forall|a: int, b: int| 0 <= a < b < r@.len() ==> before(r@[a], r@[b]),
    {
        let mut rooms: Vec<(u32, u32)> = Vec::new();
        let mut i: u32 = 0;
        while i < self.width
            invariant
                self.wf(),
                i <= self.width(),
                forall|k: int|
                    0 <= k < rooms@.len() ==> {
                        let p = #[trigger] rooms@[k];
                        &&& in_grid(p.0 as int, p.1 as int, self.width(), self.height())
                        &&& is_room(self.cell(p.0 as int, p.1 as int))
                        &&& p.0 < i
                    },
                forall|x: int, y: int|
                    0 <= x < i && 0 <= y < self.height() && is_room(#[trigger] self.cell(x, y))
                        ==> rooms@.contains((x as u32, y as u32)),
                forall|a: int, b: int| 0 <= a < b < rooms@.len() ==> before(rooms@[a], rooms@[b]),
            decreases self.width() - i,
        {
            let mut j: u32 = 0;
            while j < self.height
                invariant
                    self.wf(),
                    i < self.width(),
                    j <= self.height(),
                    forall|k: int|
                        0 <= k < rooms@.len() ==> {
                            let p = #[trigger] rooms@[k];
                            &&& in_grid(p.0 as int, p.1 as int, self.width(), self.height())
                            &&& is_room(self.cell(p.0 as int, p.1 as int))
                            &&& before(p, (i, j))
                        },
                    forall|x: int, y: int|
                        in_grid(x, y, self.width(), self.height()) && (x < i || (x == i && y
                            < j)) && is_room(#[trigger] self.cell(x, y)) ==> rooms@.contains(
                            (x as u32, y as u32),
                        ),
                    forall|a: int, b: int|
                        0 <= a < b < rooms@.len() ==> before(rooms@[a], rooms@[b]),
                decreases self.height() - j,
            {
                let idx = self.index((i, j));
                let here = match &self.chunks[idx] {
                    Some(c) => c.room,
                    None => false,
                };
                let ghost prev = rooms@;
                assert(here == is_room(self.cell(i as int, j as int)));
                if here {
                    rooms.push((i, j));
                    assert(rooms@[rooms@.len() - 1] == (i, j));
                }
                assert forall|x: int, y: int|
                    in_grid(x, y, self.width(), self.height()) && (x < i || (x == i && y < j
                        + 1)) && is_room(#[trigger] self.cell(x, y)) implies rooms@.contains(
                    (x as u32, y as u32),
                ) by {
                    if x == i && y == j {
                        assert(rooms@[rooms@.len() - 1] == (x as u32, y as u32));
                    } else {
                        assert(prev.contains((x as u32, y as u32)));
                        let k = choose|k: int| 0 <= k < prev.len() && prev[k] == (x as u32, y as u32);
                        assert(rooms@[k] == prev[k]);
                    }
                }
                j = j + 1;
            }
            i = i + 1;
        }
        rooms
    }

    /// Every piece on the grid is some template turned by some quarter-turn
    /// count, every connector of that turned template that the piece no
    /// longer has leads to a neighbour holding a piece, and the only point of
    /// interest is `loc`, on the seed cell.
    pub open spec fn placed_from(&self, options: Seq<DungeonChunk<S>>, loc: S) -> bool {
        forall|x: int, y: int|
            in_grid(x, y, self.width(), self.height()) && (#[trigger] self.cell(x, y)) is Some
                ==> {
                let c = self.cell(x, y)->Some_0;
                &&& exists|i: int, k: nat|
                    0 <= i < options.len() && #[trigger] turned_from(c, options[i], k)
                        && self.linked(x, y, rot_mask(options[i].entries, k))
                &&& c.spawn is Some ==> (x, y) == self.seed_cell() && c.spawn == Some(loc)
            }
    }

    /// Every connector in `m` that the piece at `(x, y)` no longer has was
    /// used to reach a neighbour, and that neighbour holds a piece.
    pub open spec fn linked(&self, x: int, y: int, m: u8) -> bool {
        forall|d: u8|
            is_direction(d) && m & d != 0 && self.cell(x, y)->Some_0.entries & d == 0 ==> {
                let (u, v) = #[trigger] step(x, y, d);
                &&& in_grid(u, v, self.width(), self.height())
                &&& self.cell(u, v) is Some
            }
    }

    /// Generation ran until no cell was left to serve, within the cap of
    /// `STEPS_PER_CELL` steps per cell.
    pub closed spec fn finished(&self) -> bool {
        self.finished
    }

    /// Whether generation ran until no cell was left to serve.
    pub fn is_finished(&self) -> (r: bool)
        ensures
            r == self.finished(),
    {
        self.finished
    }

    /// Number of placement steps that generation made.
    pub closed spec fn steps_taken(&self) -> nat {
        self.steps as nat
    }

    /// Number of placement steps that generation made.
    pub fn steps(&self) -> (r: u64)
        ensures
            r == self.steps_taken(),
    {
        self.steps
    }

    /// The seed cell is empty or has no usable connector, so nothing can be
    /// placed from it.
    pub open spec fn seed_blocked(&self) -> bool {
        let (x, y) = self.seed_cell();
        self.cell(x, y) is None || open_direction(
            self.cell(x, y)->Some_0.entries,
            x,
            y,
            self.width(),
            self.height(),
        ) == 0
    }

    /// The direction a placement step from `location` serves: the first
    /// usable connector of the piece there; 0 outside the grid, on an empty
    /// cell, or where no connector is usable.
    pub open spec fn step_dir(&self, location: (u32, u32)) -> u8 {
        let (x, y) = (location.0 as int, location.1 as int);
        if in_grid(x, y, self.width(), self.height()) && self.cell(x, y) is Some {
            open_direction(self.cell(x, y)->Some_0.entries, x, y, self.width(), self.height())
        } else {
            0
        }
    }

    /// The rotation counts that turn the template drawn by `w` to face back
    /// along the direction a step from `location` serves; empty where that
    /// step serves no direction.
    pub open spec fn step_choices(
        &self,
        options: Seq<DungeonChunk<S>>,
        location: (u32, u32),
        w: u16,
    ) -> Seq<u8> {
        if self.step_dir(location) == 0 {
            Seq::empty()
        } else {
            choices_of(options[selection(options, w)].entries, self.step_dir(location))
        }
    }

    /// `after` is this grid after one placement step from `location` with
    /// weight draw `w` and rotation pick `pick`, which returned `r`.
    pub open spec fn stepped(
        &self,
        after: Self,
        options: Seq<DungeonChunk<S>>,
        location: (u32, u32),
        w: u16,
        pick: usize,
        r: Option<(u32, u32)>,
    ) -> bool {
        let (x, y) = (location.0 as int, location.1 as int);
        let d = self.step_dir(location);
        let cs = self.step_choices(options, location, w);
        &&& after.wf()
        &&& after.width() == self.width()
        &&& after.height() == self.height()
        &&& after.net() == self.net()
        &&& after.finished() == self.finished()
        &&& after.steps_taken() == self.steps_taken()
        &&& r is None <==> cs.len() == 0
        &&& r is None ==> after == *self
        &&& r is Some ==> {
            let n = r->Some_0;
            let c = self.cell(x, y)->Some_0;
            let t = options[selection(options, w)];
            let k = cs[pick as int];
            let a = after.cell(n.0 as int, n.1 as int)->Some_0;
            &&& 0 <= selection(options, w) < options.len()
            &&& is_direction(d)
            &&& pick < cs.len()
            &&& k < 4
            &&& (n.0 as int, n.1 as int) == step(x, y, d)
            &&& after.cell(x, y) == Some(DungeonChunk { entries: c.entries & !d, ..c })
            &&& after.cell(x, y)->Some_0.entries & d == 0
            &&& after.cell(n.0 as int, n.1 as int) is Some
            &&& a.id == t.id
            &&& a.room == t.room
            &&& a.weight == t.weight
            &&& a.rows() == turned_rows(t.rows(), k as nat)
            &&& a.entries == rot_mask(t.entries, k as nat) & !polar_of(d)
            &&& a.entries & polar_of(d) == 0
            &&& a.rotations == k
            &&& a.spawn is None
            &&& forall|u: int, v: int|
                in_grid(u, v, self.width(), self.height()) && (u, v) != (x, y) && (u, v) != (
                n.0 as int,
                n.1 as int,
                ) ==> #[trigger] after.cell(u, v) == self.cell(u, v)
        }
    }

    /// The seed cell holds a piece with an open direction, and every
    /// template can be turned to fit it, so the first placement step is
    /// bound to succeed.
    pub open spec fn seeds_first_step(&self, options: Seq<DungeonChunk<S>>) -> bool {
        let (x, y) = self.seed_cell();
        &&& self.cell(x, y) is Some
        &&& open_direction(self.cell(x, y)->Some_0.entries, x, y, self.width(), self.height())
            != 0
        &&& all_connect(options)
    }

    /// The neighbour of the seed cell in its first open direction.
    pub open spec fn first_target(&self) -> (int, int) {
        let (x, y) = self.seed_cell();
        step(
            x,
            y,
            open_direction(self.cell(x, y)->Some_0.entries, x, y, self.width(), self.height()),
        )
    }

    /// Every cell that held a piece in `before` still holds one.
    pub open spec fn keeps(&self, before: &Self) -> bool {
        forall|x: int, y: int|
            in_grid(x, y, self.width(), self.height()) && (#[trigger] before.cell(x, y)) is Some
                ==> self.cell(x, y) is Some
    }

    /// The first direction in the order North, East, South, West that is set
    /// in `e` and leads from `location` to a cell inside the grid; 0 where
    /// there is none.
    fn first_open(&self, e: u8, location: (u32, u32)) -> (d: u8)
        requires
            in_grid(location.0 as int, location.1 as int, self.width(), self.height()),
        ensures
            d == open_direction(
                e,
                location.0 as int,
                location.1 as int,
                self.width(),
                self.height(),
            ),
    {
        if e & NORTH != 0 && location.1 + 1 < self.height {
            NORTH
        } else if e & EAST != 0 && location.0 + 1 < self.width {
            EAST
        } else if e & SOUTH != 0 && location.1 > 0 {
            SOUTH
        } else if e & WEST != 0 && location.0 > 0 {
            WEST
        } else {
            0
        }
    }

    /// Consumes connector `dir` of the piece at `location` and writes
    /// `addition` into the neighbouring cell in that direction, with its
    /// connector facing back cleared too; whatever the neighbour held is
    /// overwritten. Returns the neighbour.
    pub fn attach(&mut self, location: (u32, u32), dir: u8, addition: DungeonChunk<S>) -> (n: (
        u32,
        u32,
    ))
        requires
            old(self).wf(),
            in_grid(location.0 as int, location.1 as int, old(self).width(), old(self).height()),
            old(self).cell(location.0 as int, location.1 as int) is Some,
            is_direction(dir),
            in_grid(
                step(location.0 as int, location.1 as int, dir).0,
                step(location.0 as int, location.1 as int, dir).1,
                old(self).width(),
                old(self).height(),
            ),
        ensures
            final(self).wf(),
            final(self).width() == old(self).width(),
            final(self).height() == old(self).height(),
            final(self).net() == old(self).net(),
            final(self).finished() == old(self).finished(),
            final(self).steps_taken() == old(self).steps_taken(),
            (n.0 as int, n.1 as int) == step(location.0 as int, location.1 as int, dir),
            ({
                let c = old(self).cell(location.0 as int, location.1 as int)->Some_0;
                final(self).cell(location.0 as int, location.1 as int) == Some(
                    DungeonChunk { entries: c.entries & !dir, ..c },
                )
            }),
            final(self).cell(n.0 as int, n.1 as int) == Some(
                DungeonChunk { entries: addition.entries & !polar_of(dir), ..addition },
            ),
            final(self).cell(location.0 as int, location.1 as int)->Some_0.entries & dir == 0,
            final(self).cell(n.0 as int, n.1 as int)->Some_0.entries & polar_of(dir) == 0,
            forall|x: int, y: int|
                in_grid(x, y, old(self).width(), old(self).height()) && (x, y) != (
                location.0 as int,
                location.1 as int,
                ) && (x, y) != (n.0 as int, n.1 as int) ==> #[trigger] final(self).cell(x, y)
                    == old(self).cell(x, y),
    {
        let i = self.index(location);
        let n = if dir == NORTH {
            (location.0, location.1 + 1)
        } else if dir == EAST {
            (location.0 + 1, location.1)
        } else if dir == SOUTH {
            (location.0, location.1 - 1)
        } else {
            (location.0 - 1, location.1)
        };
        let j = self.index(n);
        let mut slot: Option<DungeonChunk<S>> = None;
        std::mem::swap(&mut self.chunks[i], &mut slot);
        let slot = match slot {
            Some(mut c) => {
                c.entries = c.entries & !dir;
                Some(c)
            },
            None => None,
        };
        self.chunks.set(i, slot);
        let mut a = addition;
        a.entries = a.entries & !polar(dir);
        self.chunks.set(j, Some(a));
        proof {
            let w = self.width();
            let h = self.height();
            if i == j {
                lemma_flat_injective(
                    location.0 as int,
                    location.1 as int,
                    n.0 as int,
                    n.1 as int,
                    w,
                    h,
                );
            }
            let c = old(self).cell(location.0 as int, location.1 as int)->Some_0;
            lemma_clear_bit(c.entries, dir);
            lemma_clear_bit(addition.entries, polar_of(dir));
            assert forall|x: int, y: int|
                in_grid(x, y, w, h) && (x, y) != (location.0 as int, location.1 as int) && (x, y)
                    != (n.0 as int, n.1 as int) implies #[trigger] self.cell(x, y) == old(
                self,
            ).cell(x, y) by {
                lemma_flat(x, y, w, h);
                if flat(x, y, w) == i {
                    lemma_flat_injective(x, y, location.0 as int, location.1 as int, w, h);
                }
                if flat(x, y, w) == j {
                    lemma_flat_injective(x, y, n.0 as int, n.1 as int, w, h);
                }
            }
        }
        n
    }

    /// Counts the rotation choices of the step that `place_with` would make.
    fn count_choices(&self, options: &Vec<DungeonChunk<S>>, location: (u32, u32), w: u16) -> (n:
        usize)
        requires
            self.wf(),
            options.len() > 0,
        ensures
            n == self.step_choices(options@, location, w).len(),
    {
        if location.0 >= self.width || location.1 >= self.height {
            return 0;
        }
        let idx = self.index(location);
        let e = match &self.chunks[idx] {
            Some(c) => c.entries,
            None => {
                return 0;
            },
        };
        let d = self.first_open(e, location);
        if d == 0 {
            return 0;
        }
        let i = select_index(options, w);
        options[i].rotation_choices(d).len()
    }

    /// One placement step from `location`, given the weight draw `w` and the
    /// rotation pick `pick`: takes the template that `w` selects, finds the
    /// first usable connector of the piece at `location`, turns the template
    /// by the `pick`-th rotation count that makes it face back along that
    /// connector, consumes the connector on both sides and writes the piece
    /// into the neighbour, which is returned. Nothing changes, and `None`
    /// comes back, where `location` is outside the grid or empty, where no
    /// connector is usable, or where the template cannot be turned to fit.
    pub fn place_with(
        &mut self,
        options: &Vec<DungeonChunk<S>>,
        location: (u32, u32),
        w: u16,
        pick: usize,
    ) -> (r: Option<(u32, u32)>)
        requires
            old(self).wf(),
            options.len() > 0,
            old(self).step_choices(options@, location, w).len() > 0 ==> pick < old(
                self,
            ).step_choices(options@, location, w).len(),
        ensures
            old(self).stepped(*final(self), options@, location, w, pick, r),
    {
        if location.0 >= self.width || location.1 >= self.height {
            return None;
        }
        let idx = self.index(location);
        let e = match &self.chunks[idx] {
            Some(c) => c.entries,
            None => {
                return None;
            },
        };
        let d = self.first_open(e, location);
        if d == 0 {
            return None;
        }
        let i = select_index(options, w);
        let mut addition = options[i].instance();
        if addition.rotation_choices(d).len() == 0 {
            return None;
        }
        let ghost t = options@[i as int];
        addition.rotate_at(d, pick);
        let ghost before = *self;
        let n = self.attach(location, d, addition);
        proof {
            lemma_clear_bit(before.cell(location.0 as int, location.1 as int)->Some_0.entries, d);
        }
        Some(n)
    }

    /// One placement step from `location` with a weight drawn uniformly
    /// from `0..net_weight` and a rotation count drawn uniformly among those
    /// that fit.
    fn place(
        &mut self,
        options: &Vec<DungeonChunk<S>>,
        location: (u32, u32),
        rng: &mut rand::rngs::StdRng,
    ) -> (r: Option<(u32, u32)>)
        requires
            old(self).wf(),
            options.len() > 0,
            old(self).net() > 0,
        ensures
            exists|w: u16, pick: usize|
                w < old(self).net() && old(self).stepped(*final(self), options@, location, w, pick, r),
    {
        let w = draw_below(rng, self.net_weight as usize) as u16;
        let n = self.count_choices(options, location, w);
        let pick = if n > 0 {
            draw_below(rng, n)
        } else {
            0
        };
        let r = self.place_with(options, location, w, pick);
        r
    }

    /// A step keeps every placed cell placed and keeps every piece a turned
    /// template; under `all_connect` it fails only from a cell with no
    /// usable connector.
    proof fn lemma_step(
        &self,
        after: Self,
        options: Seq<DungeonChunk<S>>,
        location: (u32, u32),
        w: u16,
        pick: usize,
        r: Option<(u32, u32)>,
    )
        requires
            self.wf(),
            options.len() > 0,
            self.stepped(after, options, location, w, pick, r),
        ensures
            after.keeps(self),
            forall|loc: S| self.placed_from(options, loc) ==> after.placed_from(options, loc),
            all_connect(options) && r is None ==> self.step_dir(location) == 0,
            r is Some ==> self.step_dir(location) != 0,
    {
        let (x, y) = (location.0 as int, location.1 as int);
        let d = self.step_dir(location);
        if all_connect(options) && r is None && d != 0 {
            lemma_selection_exists(options, w);
            let t = options[selection(options, w)];
            assert(t.entries & 15u8 != 0);
            lemma_some_rotation_fits(t.entries, d);
        }
        if r is Some {
            let n = r->Some_0;
            let c = self.cell(x, y)->Some_0;
            let t = options[selection(options, w)];
            let k = self.step_choices(options, location, w)[pick as int];
            let a = after.cell(n.0 as int, n.1 as int)->Some_0;
            assert forall|u: int, v: int|
                in_grid(u, v, after.width(), after.height()) && (#[trigger] self.cell(u, v)) is Some
                    implies after.cell(u, v) is Some by {
                if (u, v) != (x, y) && (u, v) != (n.0 as int, n.1 as int) {
                    assert(after.cell(u, v) == self.cell(u, v));
                }
            }
            lemma_turned_after_step(rot_mask(t.entries, k as nat), polar_of(d));
            assert(turned_from(a, t, k as nat));
            assert forall|loc: S| self.placed_from(options, loc) implies after.placed_from(
                options,
                loc,
            ) by {
                assert forall|u: int, v: int|
                    in_grid(u, v, after.width(), after.height()) && (#[trigger] after.cell(
                        u,
                        v,
                    )) is Some implies {
                    let e = after.cell(u, v)->Some_0;
                    &&& exists|i: int, k: nat|
                        0 <= i < options.len() && #[trigger] turned_from(e, options[i], k)
                            && after.linked(u, v, rot_mask(options[i].entries, k))
                    &&& e.spawn is Some ==> (u, v) == after.seed_cell() && e.spawn == Some(loc)
                } by {
                    if (u, v) == (n.0 as int, n.1 as int) {
                        let m = rot_mask(t.entries, k as nat);
                        assert forall|dd: u8|
                            is_direction(dd) && m & dd != 0 && after.cell(u, v)->Some_0.entries & dd
                                == 0 implies {
                            let (p, q) = #[trigger] step(u, v, dd);
                            &&& in_grid(p, q, after.width(), after.height())
                            &&& after.cell(p, q) is Some
                        } by {
                            lemma_only_cleared(m, polar_of(d), dd);
                            lemma_step_back(x, y, d);
                        }
                        assert(after.linked(u, v, m));
                        assert(turned_from(a, options[selection(options, w)], k as nat));
                    } else if (u, v) == (x, y) {
                        assert(self.cell(u, v) is Some);
                        let (i, j) = choose|i: int, j: nat|
                            0 <= i < options.len() && #[trigger] turned_from(c, options[i], j)
                                && self.linked(x, y, rot_mask(options[i].entries, j));
                        let m = rot_mask(options[i].entries, j);
                        lemma_turned_after_use(c.entries, m, d);
                        assert forall|dd: u8|
                            is_direction(dd) && m & dd != 0 && after.cell(u, v)->Some_0.entries & dd
                                == 0 implies {
                            let (p, q) = #[trigger] step(u, v, dd);
                            &&& in_grid(p, q, after.width(), after.height())
                            &&& after.cell(p, q) is Some
                        } by {
                            if dd != d {
                                lemma_clear_other(c.entries, d, dd);
                                let (p, q) = step(x, y, dd);
                                assert(self.cell(p, q) is Some);
                            }
                        }
                        assert(after.linked(u, v, m));
                        assert(turned_from(after.cell(u, v)->Some_0, options[i], j));
                    } else {
                        assert(after.cell(u, v) == self.cell(u, v));
                        let e = self.cell(u, v)->Some_0;
                        let (i, j) = choose|i: int, j: nat|
                            0 <= i < options.len() && #[trigger] turned_from(e, options[i], j)
                                && self.linked(u, v, rot_mask(options[i].entries, j));
                        let m = rot_mask(options[i].entries, j);
                        assert forall|dd: u8|
                            is_direction(dd) && m & dd != 0 && after.cell(u, v)->Some_0.entries & dd
                                == 0 implies {
                            let (p, q) = #[trigger] step(u, v, dd);
                            &&& in_grid(p, q, after.width(), after.height())
                            &&& after.cell(p, q) is Some
                        } by {
                            let (p, q) = step(u, v, dd);
                            assert(self.cell(p, q) is Some);
                        }
                        assert(after.linked(u, v, m));
                    }
                }
            }
        }
    }

    /// Fills the grid outward from the seed cell. A work list holds the
    /// cells still to serve, starting with the seed. Each turn takes the
    /// last cell off the list and makes one placement step from it; when the
    /// step places a piece, both that cell and the new neighbour go on the
    /// list, so a cell is served until a step from it fails. Generation ends
    /// when the list is empty, which marks the grid finished, or after
    /// `STEPS_PER_CELL` steps per cell of the grid.
    fn fill(&mut self, options: &Vec<DungeonChunk<S>>, rng: &mut rand::rngs::StdRng)
        requires
            old(self).wf(),
            old(self).width() > 0,
            old(self).height() > 0,
            options.len() > 0,
            old(self).net() > 0,
            forall|x: int, y: int|
                in_grid(x, y, old(self).width(), old(self).height()) && (x, y) != old(
                    self,
                ).seed_cell() ==> #[trigger] old(self).cell(x, y) is None,
        ensures
            final(self).wf(),
            final(self).width() == old(self).width(),
            final(self).height() == old(self).height(),
            final(self).net() == old(self).net(),
            final(self).keeps(old(self)),
            forall|loc: S|
                old(self).placed_from(options@, loc) ==> final(self).placed_from(options@, loc),
            old(self).seeds_first_step(options@) ==> final(self).cell(
                old(self).first_target().0,
                old(self).first_target().1,
            ) is Some,
            old(self).seed_blocked() ==> forall|x: int, y: int| #[trigger]
                final(self).cell(x, y) == old(self).cell(x, y),
            final(self).steps_taken() <= step_limit((old(self).width, old(self).height)),
            final(self).steps_taken() < step_limit((old(self).width, old(self).height))
                ==> final(self).finished(),
            final(self).finished() && all_connect(options@) ==> forall|x: int, y: int|
                in_grid(x, y, final(self).width(), final(self).height())
                    && (#[trigger] final(self).cell(x, y)) is Some ==> open_direction(
                    final(self).cell(x, y)->Some_0.entries,
                    x,
                    y,
                    final(self).width(),
                    final(self).height(),
                ) == 0,
    {
        let center = (self.width / 2, self.height / 2);
        let mut work: Vec<(u32, u32)> = Vec::new();
        work.push(center);
        let cells = self.width as u64 * self.height as u64;
        let limit = if cells > u64::MAX / STEPS_PER_CELL {
            u64::MAX
        } else {
            cells * STEPS_PER_CELL
        };
        let mut steps: u64 = 0;
        let ghost start = *self;
        let ghost first = start.first_target();
        proof {
            assert(cells > 0) by (nonlinear_arith)
                requires
                    cells == self.width as u64 * self.height as u64,
                    self.width > 0,
                    self.height > 0,
            ;
            if start.seeds_first_step(options@) {
                assert(in_grid(first.0, first.1, start.width(), start.height()));
            }
            assert(work@ =~= seq![center]);
            assert forall|x: int, y: int|
                in_grid(x, y, self.width(), self.height()) && (#[trigger] self.cell(x, y)) is Some
                    && open_direction(
                    self.cell(x, y)->Some_0.entries,
                    x,
                    y,
                    self.width(),
                    self.height(),
                ) != 0 implies work@.contains((x as u32, y as u32)) by {
                assert((x, y) == self.seed_cell());
                assert(work@[0] == center);
            }
        }
        while steps < limit && work.len() > 0
            invariant
                self.wf(),
                self.width() == start.width(),
                self.height() == start.height(),
                self.net() == start.net(),
                self.finished() == start.finished(),
                self.net() > 0,
                options.len() > 0,
                limit > 0,
                self.keeps(&start),
                forall|loc: S| start.placed_from(options@, loc) ==> self.placed_from(options@, loc),
                steps <= limit,
                steps == 0 ==> *self == start && work@ == seq![center],
                start.seeds_first_step(options@) ==> in_grid(
                    first.0,
                    first.1,
                    start.width(),
                    start.height(),
                ),
                start.seeds_first_step(options@) && steps > 0 ==> self.cell(first.0, first.1)
                    is Some,
                first == start.first_target(),
                center.0 as int == start.seed_cell().0,
                center.1 as int == start.seed_cell().1,
                start.seed_blocked() ==> *self == start && forall|i: int|
                    0 <= i < work@.len() ==> #[trigger] work@[i] == center,
                all_connect(options@) ==> forall|x: int, y: int|
                    in_grid(x, y, self.width(), self.height()) && (#[trigger] self.cell(x, y))
                        is Some && open_direction(
                        self.cell(x, y)->Some_0.entries,
                        x,
                        y,
                        self.width(),
                        self.height(),
                    ) != 0 ==> work@.contains((x as u32, y as u32)),
            decreases limit - steps,
        {
            let ghost before_pop = work@;
            let cell = work.pop().unwrap();
            let ghost rest = work@;
            let ghost was_first = steps == 0;
            steps = steps + 1;
            let ghost prev = *self;
            let r = self.place(options, cell, rng);
            let ghost (w, pick) = choose|w: u16, pick: usize|
                w < prev.net() && prev.stepped(*self, options@, cell, w, pick, r);
            proof {
                prev.lemma_step(*self, options@, cell, w, pick, r);
                assert(before_pop == rest.push(cell));
                if start.seed_blocked() {
                    assert(cell == center);
                    assert(prev.step_dir(cell) == 0);
                    assert(r is None);
                }
            }
            match r {
                Some(next) => {
                    work.push(cell);
                    work.push(next);
                    proof {
                        assert(work@ == rest.push(cell).push(next));
                        assert forall|x: int, y: int|
                            in_grid(x, y, self.width(), self.height()) && (#[trigger] start.cell(
                                x,
                                y,
                            )) is Some implies self.cell(x, y) is Some by {
                            assert(prev.cell(x, y) is Some);
                        }
                        if start.seeds_first_step(options@) && was_first {
                            assert(cell == center);
                            assert(prev == start);
                            assert((next.0 as int, next.1 as int) == first);
                        }
                        if start.seeds_first_step(options@) && !was_first {
                            assert(prev.cell(first.0, first.1) is Some);
                        }
                        if all_connect(options@) {
                            assert forall|x: int, y: int|
                                in_grid(x, y, self.width(), self.height()) && (#[trigger] self.cell(
                                    x,
                                    y,
                                )) is Some && open_direction(
                                    self.cell(x, y)->Some_0.entries,
                                    x,
                                    y,
                                    self.width(),
                                    self.height(),
                                ) != 0 implies work@.contains((x as u32, y as u32)) by {
                                if (x as u32, y as u32) == cell {
                                    assert(work@[work@.len() - 2] == cell);
                                } else if (x as u32, y as u32) == next {
                                    assert(work@[work@.len() - 1] == next);
                                } else {
                                    assert((x, y) != (cell.0 as int, cell.1 as int));
                                    assert((x, y) != (next.0 as int, next.1 as int));
                                    assert(self.cell(x, y) == prev.cell(x, y));
                                    assert(before_pop.contains((x as u32, y as u32)));
                                    let i = choose|i: int|
                                        0 <= i < before_pop.len() && before_pop[i] == (
                                            x as u32,
                                            y as u32,
                                        );
                                    assert(i < rest.len());
                                    assert(work@[i] == rest[i]);
                                }
                            }
                        }
                    }
                },
                None => {
                    proof {
                        if start.seeds_first_step(options@) && !was_first {
                            assert(prev.cell(first.0, first.1) is Some);
                        }
                        if was_first && start.seeds_first_step(options@) {
                            assert(cell == center);
                            assert(prev == start);
                            assert(prev.step_dir(cell) != 0);
                        }
                        if all_connect(options@) {
                            assert forall|x: int, y: int|
                                in_grid(x, y, self.width(), self.height()) && (#[trigger] self.cell(
                                    x,
                                    y,
                                )) is Some && open_direction(
                                    self.cell(x, y)->Some_0.entries,
                                    x,
                                    y,
                                    self.width(),
                                    self.height(),
                                ) != 0 implies work@.contains((x as u32, y as u32)) by {
                                assert(before_pop.contains((x as u32, y as u32)));
                                if (x as u32, y as u32) == cell {
                                    assert(prev.step_dir(cell) != 0);
                                }
                                let i = choose|i: int|
                                    0 <= i < before_pop.len() && before_pop[i] == (
                                        x as u32,
                                        y as u32,
                                    );
                                assert(i < rest.len());
                                assert(work@[i] == rest[i]);
                            }
                        }
                    }
                },
            }
        }
        let ghost ran = *self;
        self.finished = work.len() == 0;
        self.steps = steps;
        assert(limit == step_limit((self.width, self.height)));
        proof {
            assert forall|x: int, y: int| #[trigger] self.cell(x, y) == ran.cell(x, y) by {}
            assert forall|loc: S| start.placed_from(options@, loc) implies self.placed_from(
                options@,
                loc,
            ) by {
                assert(ran.placed_from(options@, loc));
                assert forall|x: int, y: int|
                    in_grid(x, y, self.width(), self.height()) && (#[trigger] self.cell(x, y))
                        is Some implies {
                    let c = self.cell(x, y)->Some_0;
                    &&& exists|i: int, k: nat|
                        0 <= i < options@.len() && #[trigger] turned_from(c, options@[i], k)
                            && self.linked(x, y, rot_mask(options@[i].entries, k))
                    &&& c.spawn is Some ==> (x, y) == self.seed_cell() && c.spawn == Some(loc)
                } by {
                    assert(ran.cell(x, y) is Some);
                }
            }
            if self.finished && all_connect(options@) {
                assert forall|x: int, y: int|
                    in_grid(x, y, self.width(), self.height()) && (#[trigger] self.cell(x, y))
                        is Some implies open_direction(
                    self.cell(x, y)->Some_0.entries,
                    x,
                    y,
                    self.width(),
                    self.height(),
                ) == 0 by {
                    assert(ran.cell(x, y) is Some);
                    if open_direction(
                        self.cell(x, y)->Some_0.entries,
                        x,
                        y,
                        self.width(),
                        self.height(),
                    ) != 0 {
                        assert(work@.contains((x as u32, y as u32)));
                    }
                }
            }
        }
    }

    /// Builds a grid of `size.0` columns and `size.1` rows: the seed cell
    /// `(width/2, height/2)` gets template `default_chunk` carrying
    /// `default_loc`, and the grid is then filled outward from it with
    /// templates drawn from `chunks` by weight, each turned to face back
    /// along the connector it is reached through. Pieces may overwrite
    /// earlier ones, the seed included. Generation stops after
    /// `STEPS_PER_CELL` placement steps per cell; the grid reports itself
    /// finished where it ran to the end before that.
    pub fn new(
        size: (u32, u32),
        net_weight: u16,
        default_chunk: u16,
        chunks: Vec<DungeonChunk<S>>,
        default_loc: S,
        rng: &mut rand::rngs::StdRng,
    ) -> (d: Dungeon<S>)
        requires
            size.0 > 0,
            size.1 > 0,
            size.0 * size.1 <= usize::MAX,
            default_chunk < chunks.len(),
            net_weight > 0,
        ensures
            d.wf(),
            d.width() == size.0,
            d.height() == size.1,
            d.net() == net_weight,
            d.cell(center_of(size).0, center_of(size).1) is Some,
            d.placed_from(chunks@, default_loc),
            ({
                let (x, y) = center_of(size);
                let dir = open_direction(
                    chunks@[default_chunk as int].entries,
                    x,
                    y,
                    size.0 as nat,
                    size.1 as nat,
                );
                dir != 0 && all_connect(chunks@) ==> d.cell(step(x, y, dir).0, step(x, y, dir).1)
                    is Some
            }),
            ({
                let (cx, cy) = center_of(size);
                let t = chunks@[default_chunk as int];
                open_direction(t.entries, cx, cy, size.0 as nat, size.1 as nat) == 0 ==> {
                    &&& forall|x: int, y: int|
                        in_grid(x, y, size.0 as nat, size.1 as nat) && (x, y) != (cx, cy)
                            ==> #[trigger] d.cell(x, y) is None
                    &&& d.cell(cx, cy) is Some
                    &&& d.cell(cx, cy)->Some_0.rows() == t.rows()
                    &&& d.cell(cx, cy)->Some_0.entries == t.entries
                    &&& d.cell(cx, cy)->Some_0.room == t.room
                    &&& d.cell(cx, cy)->Some_0.weight == t.weight
                    &&& d.cell(cx, cy)->Some_0.id == t.id
                    &&& d.cell(cx, cy)->Some_0.rotations == t.rotations
                    &&& d.cell(cx, cy)->Some_0.spawn == Some(default_loc)
                }
            }),
            d.steps_taken() <= step_limit(size),
            d.steps_taken() < step_limit(size) ==> d.finished(),
            d.finished() && all_connect(chunks@) ==> forall|x: int, y: int|
                in_grid(x, y, size.0 as nat, size.1 as nat) && (#[trigger] d.cell(x, y)) is Some
                    ==> open_direction(d.cell(x, y)->Some_0.entries, x, y, size.0 as nat, size.1 as nat)
                    == 0,
    {
        let mut d = Dungeon::seeded(size, net_weight, default_chunk, &chunks, default_loc);
        proof {
            let (cx, cy) = center_of(size);
            let t = chunks@[default_chunk as int];
            assert(d.seed_cell() == (cx, cy));
            lemma_turned_seed(t.entries);
            assert(turned_from(d.cell(cx, cy)->Some_0, t, 0));
            assert forall|dd: u8|
                is_direction(dd) && rot_mask(t.entries, 0) & dd != 0 && d.cell(cx, cy)->Some_0.entries
                    & dd == 0 implies {
                let (p, q) = #[trigger] step(cx, cy, dd);
                &&& in_grid(p, q, d.width(), d.height())
                &&& d.cell(p, q) is Some
            } by {
                lemma_seed_unused(t.entries, dd);
            }
            assert(d.linked(cx, cy, rot_mask(t.entries, 0)));
            assert forall|x: int, y: int|
                in_grid(x, y, d.width(), d.height()) && (#[trigger] d.cell(x, y)) is Some implies {
                let c = d.cell(x, y)->Some_0;
                &&& exists|i: int, k: nat|
                    0 <= i < chunks@.len() && #[trigger] turned_from(c, chunks@[i], k)
                        && d.linked(x, y, rot_mask(chunks@[i].entries, k))
                &&& c.spawn is Some ==> (x, y) == d.seed_cell() && c.spawn == Some(default_loc)
            } by {
                if (x, y) == (cx, cy) {
                    assert(turned_from(d.cell(x, y)->Some_0, chunks@[default_chunk as int], 0));
                }
            }
        }
        let ghost seeded = d;
        proof {
            let (x, y) = center_of(size);
            assert(seeded.seed_cell() == (x, y));
            assert(seeded.cell(x, y)->Some_0.entries == chunks@[default_chunk as int].entries);
        }
        d.fill(&chunks, rng);
        proof {
            assert(seeded.cell(center_of(size).0, center_of(size).1) is Some);
        }
        d
    }
}

} // verus!

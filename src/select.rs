//! Weighted choice of the next template.

use crate::chunk::DungeonChunk;
use crate::random::draw_below;
use vstd::prelude::*;

verus! {

/// Template `i` is the first whose threshold exceeds `w`, or the last one
/// where none does.
pub open spec fn is_selection<S>(options: Seq<DungeonChunk<S>>, w: u16, i: int) -> bool {
    &&& 0 <= i < options.len()
    &&& forall|j: int| 0 <= j < i ==> #[trigger] options[j].weight <= w
    &&& i < options.len() - 1 ==> options[i].weight > w
}

/// The one index that `w` selects.
pub open spec fn selection<S>(options: Seq<DungeonChunk<S>>, w: u16) -> int {
    choose|i: int| is_selection(options, w, i)
}

/// At most one index is selected by a given draw.
pub proof fn lemma_selection_unique<S>(options: Seq<DungeonChunk<S>>, w: u16, i: int)
    requires
        is_selection(options, w, i),
    ensures
        selection(options, w) == i,
{
    let j = selection(options, w);
    assert(is_selection(options, w, j));
    if j < i {
        assert(options[j].weight <= w);
    } else if i < j {
        assert(options[i].weight <= w);
    }
}

proof fn lemma_selection_from<S>(options: Seq<DungeonChunk<S>>, w: u16, i: int)
    requires
        0 <= i < options.len(),
        forall|j: int| 0 <= j < i ==> #[trigger] options[j].weight <= w,
    ensures
        is_selection(options, w, selection(options, w)),
    decreases options.len() - i,
{
    if i == options.len() - 1 || options[i].weight > w {
        assert(is_selection(options, w, i));
    } else {
        lemma_selection_from(options, w, i + 1);
    }
}

/// Every draw selects an index of a non-empty list.
pub proof fn lemma_selection_exists<S>(options: Seq<DungeonChunk<S>>, w: u16)
    requires
        options.len() > 0,
    ensures
        is_selection(options, w, selection(options, w)),
{
    lemma_selection_from(options, w, 0);
}

/// The index of the first template whose threshold exceeds `w`; the last
/// index where none does.
pub fn select_index<S>(options: &Vec<DungeonChunk<S>>, w: u16) -> (i: usize)
    requires
        options.len() > 0,
    ensures
        is_selection(options@, w, i as int),
        i == selection(options@, w),
{
    let last = options.len() - 1;
    let mut i: usize = 0;
    while i < last
        invariant
            last == options.len() - 1,
            i <= last,
            forall|j: int| 0 <= j < i ==> #[trigger] options@[j].weight <= w,
        decreases last - i,
    {
        if options[i].weight > w {
            proof {
                lemma_selection_unique(options@, w, i as int);
            }
            return i;
        }
        i = i + 1;
    }
    proof {
        lemma_selection_unique(options@, w, i as int);
    }
    i
}

/// Draws `w` uniformly from `0..net_weight` and returns the template that
/// `w` falls on.
pub fn select<S>(options: &Vec<DungeonChunk<S>>, net_weight: u16, rng: &mut rand::rngs::StdRng) -> (i: usize)
    requires
        options.len() > 0,
        net_weight > 0,
    ensures
        exists|w: u16| w < net_weight && i == selection(options@, w),
{
    let w = draw_below(rng, net_weight as usize) as u16;
    let i = select_index(options, w);
    assert(w < net_weight && i == selection(options@, w));
    i
}

} // verus!

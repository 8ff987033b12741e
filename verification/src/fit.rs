//! Where a piece comes to stand when it is put on a field of a given size:
//! the search that nudges it inwards, and what the search guarantees.
use vstd::prelude::*;
use crate::block::{BlockView, PieceView};

verus! {

/// How often the search looks at a piece before it gives up.
pub const FIT_ATTEMPTS: usize = 6;

/// The step that brings a cell at column `x`, row `y` closer to a field of
/// `w` columns and `h` rows, or nothing where the cell lies on the field.
/// The left edge is tested first, then the right, the top and the bottom.
pub open spec fn nudge_at(x: int, y: int, w: int, h: int) -> Option<(int, int)> {
    if x < 0 {
        Some((1, 0))
    } else if x >= w {
        Some((-1, 0))
    } else if y < 0 {
        Some((0, 1))
    } else if y >= h {
        Some((0, -1))
    } else {
        None
    }
}

/// Whether column `x`, row `y` lies on a field of `w` columns and `h` rows.
pub open spec fn on_field(c: (int, int), w: int, h: int) -> bool {
    0 <= c.0 < w && 0 <= c.1 < h
}

/// Whether every cell of the piece lies on the field.
pub open spec fn within(p: PieceView, w: int, h: int) -> bool {
    forall|i: int| 0 <= i < p.cells().len() ==> on_field(#[trigger] p.cell(i), w, h)
}

/// The nudge asked for by the first cell, from the `from`-th on, that lies
/// off the field.
pub open spec fn first_nudge(p: PieceView, w: int, h: int, from: int) -> Option<(int, int)>
    decreases p.cells().len() - from,
{
    if 0 <= from < p.cells().len() {
        match nudge_at(p.cell(from).0, p.cell(from).1, w, h) {
            Some(d) => Some(d),
            None => first_nudge(p, w, h, from + 1),
        }
    } else {
        None
    }
}

/// The search with `attempts` looks left: a piece that lies on the field
/// stays; otherwise it is nudged once and looked at again.
pub open spec fn fit_within(p: PieceView, w: int, h: int, attempts: nat) -> Option<PieceView>
    decreases attempts,
{
    if attempts == 0 {
        None
    } else {
        match first_nudge(p, w, h, 0) {
            None => Some(p),
            Some(d) => fit_within(p.shifted(d), w, h, (attempts - 1) as nat),
        }
    }
}

/// Where the piece comes to stand, if the search finds a place in time.
pub open spec fn fitted(p: PieceView, w: int, h: int) -> Option<PieceView> {
    fit_within(p, w, h, FIT_ATTEMPTS as nat)
}

/// Where a block that enters the field comes to stand: the search starts in
/// the middle of the top row.
pub open spec fn spawned(block: BlockView, w: int, h: int) -> Option<PieceView> {
    fitted(PieceView { block, x: w / 2, y: 0 }, w, h)
}

/// No cell from the `from`-th on asks for a nudge exactly when all of them
/// lie on the field.
pub proof fn lemma_first_nudge(p: PieceView, w: int, h: int, from: int)
    requires
        0 <= from,
    ensures
        first_nudge(p, w, h, from) is None <==> forall|i: int|
            from <= i < p.cells().len() ==> on_field(#[trigger] p.cell(i), w, h),
    decreases p.cells().len() - from,
{
    if from < p.cells().len() {
        lemma_first_nudge(p, w, h, from + 1);
        if nudge_at(p.cell(from).0, p.cell(from).1, w, h) is Some {
            assert(!on_field(p.cell(from), w, h));
        }
    }
}

/// A search that ends with a place ends with the same block, wholly on the
/// field.
pub proof fn lemma_fit_within(p: PieceView, w: int, h: int, attempts: nat)
    ensures
        fit_within(p, w, h, attempts) matches Some(q) ==> q.block == p.block && within(q, w, h),
    decreases attempts,
{
    if attempts > 0 {
        lemma_first_nudge(p, w, h, 0);
        match first_nudge(p, w, h, 0) {
            None => {},
            Some(d) => {
                lemma_fit_within(p.shifted(d), w, h, (attempts - 1) as nat);
            },
        }
    }
}

} // verus!

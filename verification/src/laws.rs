//! What holds of every game, whatever is played: each statement here is
//! proved for all fields and all pieces.
use vstd::prelude::*;
use crate::block::{default_block, PieceView};
use crate::field::Field;
use crate::fit::{
    first_nudge, fit_within, fitted, lemma_first_nudge, lemma_fit_within, on_field, spawned,
    within, FIT_ATTEMPTS,
};
use crate::lrd::LRD;
use crate::state::GridView;

verus! {

/// A cell holds a locked block exactly when its colour is none of the two
/// background colours and not the warning colour.
pub proof fn occupied_means_not_reserved(f: Field, x: int, y: int)
    ensures
        !f.occupied(x, y) <==> (f.cells[y][x] == f.background.0 || f.cells[y][x]
            == f.background.1 || f.cells[y][x] == f.warning),
{
}

/// The search for a place never hands out a piece with a cell off the
/// field, and never another block than the one it was given.
pub proof fn fit_stays_on_the_field(p: PieceView, w: int, h: int)
    ensures
        fitted(p, w, h) matches Some(q) ==> q.block == p.block && within(q, w, h),
{
    lemma_fit_within(p, w, h, FIT_ATTEMPTS as nat);
}

/// A block that lies on the field at no anchor at all, as on a field that is
/// narrower or lower than the block, is refused.
pub proof fn fit_refuses_what_fits_nowhere(p: PieceView, w: int, h: int)
    requires
        forall|q: PieceView| q.block == p.block ==> !#[trigger] within(q, w, h),
    ensures
        fitted(p, w, h) is None,
{
    lemma_fit_within(p, w, h, FIT_ATTEMPTS as nat);
}

/// A piece that lies on the field is fitted where it stands.
pub proof fn fit_leaves_a_fitting_piece(p: PieceView, w: int, h: int)
    requires
        within(p, w, h),
    ensures
        fitted(p, w, h) == Some(p),
{
    lemma_first_nudge(p, w, h, 0);
}

/// The default block enters every field that has three columns and two rows
/// for it, and no smaller one. It comes to stand in the second row, its
/// anchor in the middle column.
pub proof fn default_block_enters(w: int, h: int)
    ensures
        spawned(default_block(), w, h) is Some <==> w >= 3 && h >= 2,
        w >= 3 && h >= 2 ==> spawned(default_block(), w, h) == Some(
            PieceView { block: default_block(), x: w / 2, y: 1 },
        ),
{
    let p = PieceView { block: default_block(), x: w / 2, y: 0 };
    if w >= 3 && h >= 2 {
        let q = PieceView { block: default_block(), x: w / 2, y: 1 };
        reveal_with_fuel(first_nudge, 5);
        reveal_with_fuel(fit_within, 3);
        assert(first_nudge(p, w, h, 0) == Some((0int, 1int)));
        assert(p.shifted((0int, 1int)) == q);
        assert(first_nudge(q, w, h, 0) is None);
    } else {
        lemma_fit_within(p, w, h, FIT_ATTEMPTS as nat);
        if spawned(default_block(), w, h) is Some {
            let q = spawned(default_block(), w, h).unwrap();
            assert(q.cells() == default_block().cells());
            assert(on_field(q.cell(0), w, h));
            assert(on_field(q.cell(2), w, h));
            assert(on_field(q.cell(3), w, h));
        }
    }
}

/// A falling piece comes to rest straight below where it stands, as far
/// down as it can go: it lies on the field there, every step on the way can
/// be taken, and the next one cannot. So the resting place of a piece that
/// rests is where it is.
pub proof fn rest_is_final(f: Field, p: PieceView)
    requires
        p.cells().len() > 0,
        within(p, f.width(), f.height()),
    ensures
        f.rest(p).y >= p.y,
        f.rest(p) == p.lowered(f.rest(p).y - p.y),
        within(f.rest(p), f.width(), f.height()),
        forall|rows: int|
            0 <= rows < f.rest(p).y - p.y ==> f.can_move(
                #[trigger] p.lowered(rows),
                LRD::Down.step(),
            ),
        !f.can_move(f.rest(p), LRD::Down.step()),
        f.rest(f.rest(p)) == f.rest(p),
    decreases f.height() - p.y - p.cells()[0].1,
{
    let d = LRD::Down.step();
    let q = p.shifted(d);
    assert(on_field(p.cell(0), f.width(), f.height()));
    assert(p.lowered(0) == p);
    assert(p.lowered(1) == q);
    if f.can_move(p, d) {
        assert(f.free(q.cell(0)));
        assert forall|i: int| 0 <= i < q.cells().len() implies on_field(
            #[trigger] q.cell(i),
            f.width(),
            f.height(),
        ) by {
            assert(f.free(q.cell(i)));
        }
        if f.touches(p, d) {
            let i = choose|i: int| 0 <= i < p.cells().len() && f.grounded(#[trigger] q.cell(i));
            assert(!f.free(q.shifted(d).cell(i)));
        } else {
            rest_is_final(f, q);
            assert forall|rows: int| 0 <= rows < f.rest(p).y - p.y implies f.can_move(
                #[trigger] p.lowered(rows),
                d,
            ) by {
                if rows > 0 {
                    assert(q.lowered(rows - 1) == p.lowered(rows));
                }
            }
        }
    }
}

/// The hint is a place where the falling piece can stand, and a piece that
/// stands where the hint shows has that place for its hint.
pub proof fn hint_of_a_landed_piece(g: GridView)
    requires
        g.wf(),
    ensures
        (GridView { field: g.field, piece: g.hint() }).wf(),
        (GridView { field: g.field, piece: g.hint() }).hint() == g.hint(),
{
    rest_is_final(g.field, g.piece);
}

/// A renewed game is a new game on a field of the same size and colours,
/// whatever the field held before; so renewing twice gives what renewing
/// once gives.
pub proof fn renew_forgets(g: GridView)
    requires
        g.wf(),
    ensures
        g.renewed() == GridView::fresh(
            g.field.background,
            g.field.warning,
            g.width(),
            g.height(),
        ),
        g.renewed().wf(),
        g.renewed().renewed() == g.renewed(),
{
    let fresh = GridView::fresh(g.field.background, g.field.warning, g.width(), g.height());
    assert(g.renewed().field.cells =~~= fresh.field.cells);
    assert(g.renewed().field.cells[0].len() == g.width());
    lemma_fit_within(
        PieceView { block: default_block(), x: g.width() / 2, y: 0 },
        g.width(),
        g.height(),
        FIT_ATTEMPTS as nat,
    );
    assert(g.renewed().renewed().field.cells =~~= g.renewed().field.cells);
}

/// Clearing the full rows leaves the field as large as it was, and
/// `full_rows` is the number of rows that are full.
pub proof fn clearing_keeps_the_size(f: Field)
    requires
        f.wf(),
    ensures
        f.compacted().wf(),
        f.compacted().height() == f.height(),
        f.compacted().width() == f.width(),
        f.full_set(f.height()).finite(),
        f.full_set(f.height()).len() == f.full_rows(),
        0 <= f.full_rows() <= f.height(),
{
    lemma_full_rows_counted(f, f.height());
    f.lemma_kept(f.height());
    lemma_compacted_rows(f);
    let t = f.compacted();
    assert forall|y: int| 0 <= y < t.height() implies (#[trigger] t.cells[y]).len()
        == f.width() by {}
    assert(t.cells[0].len() == f.width());
}

/// After the full rows are cleared, as many rows at the top as were full
/// hold nothing but the background.
pub proof fn cleared_rows_come_in_at_the_top(f: Field, y: int)
    requires
        f.wf(),
        0 <= y < f.full_rows(),
    ensures
        f.compacted().cells[y] == f.checker_row(y),
{
    f.lemma_kept(f.height());
}

/// After the full rows are cleared, the rows that were not full follow
/// below the new top rows in the order they had. The `j`-th of them, row
/// `from` before, is row `full_rows() + j` after: it has not moved up, and
/// has moved down by `full_rows()` rows at most. Its locked blocks are where
/// they were in the row and have their colours; its other cells are empty.
pub proof fn kept_rows_slide_down(f: Field, j: int)
    requires
        f.wf(),
        0 <= j < f.height() - f.full_rows(),
    ensures
        ({
            let from = f.kept(f.height())[j];
            let to = f.full_rows() + j;
            &&& 0 <= from <= to < f.height()
            &&& to - from <= f.full_rows()
            &&& !f.row_full(from)
            &&& forall|i: int| 0 <= i < j ==> #[trigger] f.kept(f.height())[i] < from
            &&& forall|x: int|
                0 <= x < f.width() ==> (#[trigger] f.compacted().occupied(x, to) == f.occupied(
                    x,
                    from,
                ))
            &&& forall|x: int|
                0 <= x < f.width() && #[trigger] f.occupied(x, from) ==> f.compacted().cells[to][x]
                    == f.cells[from][x]
        }),
{
    f.lemma_kept(f.height());
    lemma_kept_from_the_top(f, f.height(), j);
    let from = f.kept(f.height())[j];
    let to = f.full_rows() + j;
    let t = f.compacted();
    assert(f.cells[from].len() == f.width());
    assert forall|x: int| 0 <= x < f.width() implies (#[trigger] t.occupied(x, to) == f.occupied(
        x,
        from,
    )) by {
        if from != to && !f.occupied(x, from) {
            assert(t.cells[to][x] == f.checker(x, to));
        }
    }
}

/// Every row that is not full is one of the rows that are kept.
pub proof fn rows_that_are_not_full_are_kept(f: Field, y: int)
    requires
        0 <= y < f.height(),
        !f.row_full(y),
    ensures
        exists|j: int| 0 <= j < f.kept(f.height()).len() && #[trigger] f.kept(f.height())[j] == y,
{
    f.lemma_kept_prefix(y + 1, f.height());
    let j = f.kept(y + 1).len() - 1;
    assert(f.kept(y + 1) == f.kept(y).push(y));
    assert(f.kept(f.height())[j] == y);
}

/// A row that has no full row above it moves down by exactly as many rows
/// as are full; a row that has no full row below it stays where it is.
pub proof fn rows_above_and_below_the_full_rows(f: Field, y: int)
    requires
        f.wf(),
        0 <= y < f.height(),
        !f.row_full(y),
    ensures
        (forall|v: int| 0 <= v < y ==> !#[trigger] f.row_full(v)) ==> f.kept(f.height())[y] == y,
        (forall|v: int| y < v < f.height() ==> !#[trigger] f.row_full(v)) ==> f.compacted().cells[y]
            == f.cells[y],
{
    let h = f.height();
    f.lemma_kept(h);
    if forall|v: int| 0 <= v < y ==> !#[trigger] f.row_full(v) {
        f.lemma_kept_all(y + 1);
        f.lemma_kept_prefix(y + 1, h);
    }
    if forall|v: int| y < v < h ==> !#[trigger] f.row_full(v) {
        lemma_kept_tail(f, y, h);
    }
}

/// Locking a piece that clears no row: no row moves, and the locked blocks
/// on the field become more by the cells of the piece. For that the cells
/// of the piece have to differ from each other and from the locked blocks,
/// and the colour of the piece has to be the colour of a block.
pub proof fn lock_without_full_rows(g: GridView)
    requires
        g.wf(),
        forall|i: int, j: int|
            0 <= i < j < g.piece.cells().len() ==> #[trigger] g.piece.cell(i)
                != #[trigger] g.piece.cell(j),
        forall|i: int| 0 <= i < g.piece.cells().len() ==> g.field.free(#[trigger] g.piece.cell(i)),
        !g.field.reserved(g.piece.block.color),
        forall|y: int| 0 <= y < g.height() ==> !#[trigger] g.field.painted(g.piece).row_full(y),
    ensures
        g.cleared_by_lock() == 0,
        g.locked().field == g.field.painted(g.piece),
        g.locked().field.occupied_cells() == g.field.occupied_cells() + g.piece.cells().len(),
{
    let painted = g.field.painted(g.piece);
    assert(painted.cells[0].len() == g.width());
    assert forall|y: int| 0 <= y < painted.height() implies (#[trigger] painted.cells[y]).len()
        == painted.width() by {}
    painted.lemma_nothing_to_clear();
    lemma_paint_count(g.field, g.piece, g.piece.cells().len() as int);
}

/// `full_rows`, counted above row `upto`, is the number of full rows there.
proof fn lemma_full_rows_counted(f: Field, upto: int)
    requires
        0 <= upto,
    ensures
        f.full_set(upto).finite(),
        f.full_set(upto).len() == upto - f.kept(upto).len(),
    decreases upto,
{
    if upto == 0 {
        assert(f.full_set(0) =~= Set::empty());
    } else {
        lemma_full_rows_counted(f, upto - 1);
        if f.row_full(upto - 1) {
            assert(f.full_set(upto) =~= f.full_set(upto - 1).insert(upto - 1));
        } else {
            assert(f.full_set(upto) =~= f.full_set(upto - 1));
        }
    }
}

/// Every row of the cleared field is as wide as the field.
proof fn lemma_compacted_rows(f: Field)
    requires
        f.wf(),
    ensures
        f.compacted().cells.len() == f.height(),
        forall|y: int|
            0 <= y < f.height() ==> (#[trigger] f.compacted().cells[y]).len() == f.width(),
{
    f.lemma_kept(f.height());
    let kept = f.kept(f.height());
    let gone = f.full_rows();
    assert forall|y: int| 0 <= y < f.height() implies (#[trigger] f.compacted().cells[y]).len()
        == f.width() by {
        if y >= gone {
            assert(0 <= kept[y - gone] < f.height());
            assert(f.cells[y].len() == f.width());
        }
    }
}

/// The `j`-th kept row lies no higher than row `j`, and no lower than the
/// full rows above row `upto` allow.
proof fn lemma_kept_from_the_top(f: Field, upto: int, j: int)
    requires
        0 <= upto,
        0 <= j < f.kept(upto).len(),
    ensures
        j <= f.kept(upto)[j] <= j + (upto - f.kept(upto).len()),
    decreases upto,
{
    f.lemma_kept(upto);
    if upto > 0 {
        f.lemma_kept(upto - 1);
        if j < f.kept(upto - 1).len() {
            lemma_kept_from_the_top(f, upto - 1, j);
        }
    }
}

/// Where no row from row `y` down to row `upto` is full, the kept rows end
/// with these rows, each of which keeps its place.
proof fn lemma_kept_tail(f: Field, y: int, upto: int)
    requires
        0 <= y < upto <= f.height(),
        forall|v: int| y <= v < upto ==> !#[trigger] f.row_full(v),
    ensures
        f.kept(upto).len() >= upto - y,
        f.kept(upto)[f.kept(upto).len() - (upto - y)] == y,
        upto == f.height() ==> f.compacted().cells[y] == f.cells[y],
    decreases upto - y,
{
    f.lemma_kept(upto);
    if y + 1 < upto {
        lemma_kept_tail(f, y, upto - 1);
        assert(f.kept(upto) == f.kept(upto - 1).push(upto - 1));
    } else {
        assert(f.kept(upto) == f.kept(upto - 1).push(upto - 1));
    }
}

/// Two rows that hold locked blocks in the same places hold equally many.
proof fn lemma_row_count_same(a: Field, b: Field, y: int, upto: int)
    requires
        forall|x: int| 0 <= x < upto ==> #[trigger] a.occupied(x, y) == b.occupied(x, y),
    ensures
        a.occupied_in_row(y, upto) == b.occupied_in_row(y, upto),
    decreases upto,
{
    if upto > 0 {
        lemma_row_count_same(a, b, y, upto - 1);
    }
}

/// A row that gains a locked block in one place holds one more.
proof fn lemma_row_count_gain(a: Field, b: Field, y: int, at: int, upto: int)
    requires
        0 <= at < upto,
        !a.occupied(at, y),
        b.occupied(at, y),
        forall|x: int| 0 <= x < upto && x != at ==> #[trigger] a.occupied(x, y) == b.occupied(x, y),
    ensures
        b.occupied_in_row(y, upto) == a.occupied_in_row(y, upto) + 1,
    decreases upto,
{
    if upto - 1 == at {
        lemma_row_count_same(a, b, y, upto - 1);
    } else {
        lemma_row_count_gain(a, b, y, at, upto - 1);
    }
}

/// Two fields that hold locked blocks in the same places hold equally many.
proof fn lemma_count_same(a: Field, b: Field, upto: int)
    requires
        a.width() == b.width(),
        forall|x: int, y: int|
            0 <= x < a.width() && 0 <= y < upto ==> #[trigger] a.occupied(x, y) == b.occupied(x, y),
    ensures
        a.occupied_above(upto) == b.occupied_above(upto),
    decreases upto,
{
    if upto > 0 {
        lemma_count_same(a, b, upto - 1);
        lemma_row_count_same(a, b, upto - 1, a.width());
    }
}

/// A field that gains a locked block in one place holds one more.
proof fn lemma_count_gain(a: Field, b: Field, at: (int, int), upto: int)
    requires
        a.width() == b.width(),
        0 <= at.0 < a.width(),
        0 <= at.1 < upto,
        !a.occupied(at.0, at.1),
        b.occupied(at.0, at.1),
        forall|x: int, y: int|
            0 <= x < a.width() && 0 <= y < upto && (x, y) != at ==> #[trigger] a.occupied(x, y)
                == b.occupied(x, y),
    ensures
        b.occupied_above(upto) == a.occupied_above(upto) + 1,
    decreases upto,
{
    if upto - 1 == at.1 {
        lemma_count_same(a, b, upto - 1);
        lemma_row_count_gain(a, b, upto - 1, at.0, a.width());
    } else {
        lemma_count_gain(a, b, at, upto - 1);
        lemma_row_count_same(a, b, upto - 1, a.width());
    }
}

/// Writing the first `n` cells of a piece into empty cells, in the colour
/// of a block, makes `n` more locked blocks.
proof fn lemma_paint_count(f: Field, p: PieceView, n: int)
    requires
        f.wf(),
        0 <= n <= p.cells().len(),
        forall|i: int, j: int|
            0 <= i < j < p.cells().len() ==> #[trigger] p.cell(i) != #[trigger] p.cell(j),
        forall|i: int| 0 <= i < p.cells().len() ==> f.free(#[trigger] p.cell(i)),
        !f.reserved(p.block.color),
    ensures
        f.painted_upto(p, n).occupied_cells() == f.occupied_cells() + n,
    decreases n,
{
    let h = f.height();
    let w = f.width();
    if n == 0 {
        let a = f.painted_upto(p, 0);
        assert(a.cells[0].len() == w);
        assert forall|x: int, y: int| 0 <= x < w && 0 <= y < h implies #[trigger] a.occupied(x, y)
            == f.occupied(x, y) by {
            assert(f.cells[y].len() == w);
            assert(!p.covers_upto(0, x, y));
        }
        lemma_count_same(a, f, h);
    } else {
        lemma_paint_count(f, p, n - 1);
        let a = f.painted_upto(p, n - 1);
        let b = f.painted_upto(p, n);
        let at = p.cell(n - 1);
        assert(f.free(at));
        assert(a.cells[0].len() == w);
        assert(b.cells[0].len() == w);
        assert(f.cells[at.1].len() == w);
        assert(p.covers_upto(n, at.0, at.1));
        assert(!p.covers_upto(n - 1, at.0, at.1));
        assert forall|x: int, y: int|
            0 <= x < w && 0 <= y < h && (x, y) != at implies #[trigger] a.occupied(x, y)
            == b.occupied(x, y) by {
            assert(f.cells[y].len() == w);
            if p.covers_upto(n, x, y) {
                let i = choose|i: int| 0 <= i < n && #[trigger] p.cell(i) == (x, y);
                assert(p.covers_upto(n - 1, x, y));
            }
            if p.covers_upto(n - 1, x, y) {
                let i = choose|i: int| 0 <= i < n - 1 && #[trigger] p.cell(i) == (x, y);
                assert(p.covers_upto(n, x, y));
            }
        }
        lemma_count_gain(a, b, at, h);
    }
}

} // verus!

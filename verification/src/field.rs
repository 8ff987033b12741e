//! The cells of the field as a mathematical value, and the rules of the game
//! stated over it.
use cursive::style::ColorStyle;
use vstd::prelude::*;
use crate::block::PieceView;
use crate::fit::on_field;
use crate::lrd::LRD;

verus! {

/// The most columns, and the most rows, that a field can have: cell offsets
/// are 32-bit numbers, and every cell of the field has to be in their reach.
pub const MAX_SIDE: usize = 0x7fff_ffff;

/// The field: rows of cell colours, top row first, and the three colours
/// that mark a cell as empty.
pub struct Field {
    pub cells: Seq<Seq<ColorStyle>>,
    pub background: (ColorStyle, ColorStyle),
    pub warning: ColorStyle,
}

impl Field {
    pub open spec fn height(self) -> int {
        self.cells.len() as int
    }

    pub open spec fn width(self) -> int {
        self.cells[0].len() as int
    }

    /// The field has a row and a column, no more than `MAX_SIDE` of either,
    /// and all rows are equally long.
    pub open spec fn wf(self) -> bool {
        &&& 0 < self.height() <= MAX_SIDE
        &&& 0 < self.width() <= MAX_SIDE
        &&& forall|y: int|
            0 <= y < self.height() ==> (#[trigger] self.cells[y]).len() == self.width()
    }

    /// The background colour of column `x`, row `y`: the two alternate like
    /// the squares of a checkerboard.
    pub open spec fn checker(self, x: int, y: int) -> ColorStyle {
        if (x + y) % 2 == 0 {
            self.background.0
        } else {
            self.background.1
        }
    }

    /// Whether a colour marks a cell as empty: the two background colours
    /// and the warning colour do.
    pub open spec fn reserved(self, color: ColorStyle) -> bool {
        color == self.background.0 || color == self.background.1 || color == self.warning
    }

    /// Whether the cell at column `x`, row `y` holds a locked block.
    pub open spec fn occupied(self, x: int, y: int) -> bool {
        !self.reserved(self.cells[y][x])
    }

    /// Whether a cell lies on the field and is empty.
    pub open spec fn free(self, c: (int, int)) -> bool {
        on_field(c, self.width(), self.height()) && !self.occupied(c.0, c.1)
    }

    /// Whether a piece that stood at `c` would rest there: the cell below
    /// is past the last row, or occupied.
    pub open spec fn grounded(self, c: (int, int)) -> bool {
        c.1 + 1 == self.height() || self.occupied(c.0, c.1 + 1)
    }

    /// Whether the piece may take the step `d`: every cell comes to lie on
    /// the field, on an empty cell.
    pub open spec fn can_move(self, p: PieceView, d: (int, int)) -> bool {
        forall|i: int| 0 <= i < p.cells().len() ==> self.free(#[trigger] p.shifted(d).cell(i))
    }

    /// Whether the piece may take the step `d` and then rests on the floor
    /// or on a locked block.
    pub open spec fn touches(self, p: PieceView, d: (int, int)) -> bool {
        &&& self.can_move(p, d)
        &&& exists|i: int|
            0 <= i < p.cells().len() && self.grounded(#[trigger] p.shifted(d).cell(i))
    }

    /// Where the piece comes to rest when it falls: it goes down row by row
    /// until a step leaves it resting, or cannot be taken.
    pub open spec fn rest(self, p: PieceView) -> PieceView
        decreases self.height() - p.y - p.cells()[0].1,
        when p.cells().len() > 0
    {
        if self.can_move(p, LRD::Down.step()) {
            if self.touches(p, LRD::Down.step()) {
                p.shifted(LRD::Down.step())
            } else {
                proof {
                    assert(self.free(p.shifted(LRD::Down.step()).cell(0)));
                }
                self.rest(p.shifted(LRD::Down.step()))
            }
        } else {
            p
        }
    }

    /// The field with the piece's colour written into every cell that the
    /// piece covers.
    pub open spec fn painted(self, p: PieceView) -> Field {
        self.painted_upto(p, p.cells().len() as int)
    }

    /// The field with the first `n` cells of the piece written into it.
    pub open spec fn painted_upto(self, p: PieceView, n: int) -> Field {
        Field {
            cells: Seq::new(
                self.cells.len(),
                |y: int|
                    Seq::new(
                        self.cells[y].len(),
                        |x: int|
                            if p.covers_upto(n, x, y) {
                                p.block.color
                            } else {
                                self.cells[y][x]
                            },
                    ),
            ),
            background: self.background,
            warning: self.warning,
        }
    }

    /// Whether every cell of row `y` holds a locked block.
    pub open spec fn row_full(self, y: int) -> bool {
        forall|x: int| 0 <= x < self.width() ==> #[trigger] self.occupied(x, y)
    }

    /// The rows above row `upto` that are not full, top row first.
    pub open spec fn kept(self, upto: int) -> Seq<int>
        decreases upto,
    {
        if upto <= 0 {
            Seq::empty()
        } else if self.row_full(upto - 1) {
            self.kept(upto - 1)
        } else {
            self.kept(upto - 1).push(upto - 1)
        }
    }

    /// How many rows are full.
    pub open spec fn full_rows(self) -> int {
        self.height() - self.kept(self.height()).len()
    }

    /// The full rows above row `upto`.
    pub open spec fn full_set(self, upto: int) -> Set<int> {
        Set::new(|y: int| 0 <= y < upto && self.row_full(y))
    }

    /// How many of the first `upto` cells of row `y` hold a locked block.
    pub open spec fn occupied_in_row(self, y: int, upto: int) -> int
        decreases upto,
    {
        if upto <= 0 {
            0
        } else {
            self.occupied_in_row(y, upto - 1) + if self.occupied(upto - 1, y) {
                1int
            } else {
                0int
            }
        }
    }

    /// How many cells of the rows above row `upto` hold a locked block.
    pub open spec fn occupied_above(self, upto: int) -> int
        decreases upto,
    {
        if upto <= 0 {
            0
        } else {
            self.occupied_above(upto - 1) + self.occupied_in_row(upto - 1, self.width())
        }
    }

    /// How many cells of the field hold a locked block.
    pub open spec fn occupied_cells(self) -> int {
        self.occupied_above(self.height())
    }

    /// Whether `rows` names the full rows from row `from` on, each once, the
    /// lowest row first.
    pub open spec fn lists_full_rows(self, rows: Seq<usize>, from: int) -> bool {
        &&& forall|i: int|
            0 <= i < rows.len() ==> from <= #[trigger] rows[i] < self.height() && self.row_full(
                rows[i] as int,
            )
        &&& forall|i: int, j: int| 0 <= i < j < rows.len() ==> rows[i] > rows[j]
        &&& forall|y: int|
            from <= y < self.height() && #[trigger] self.row_full(y) ==> exists|i: int|
                0 <= i < rows.len() && #[trigger] rows[i] == y
    }

    /// Row `y` as the background paints it.
    pub open spec fn checker_row(self, y: int) -> Seq<ColorStyle> {
        Seq::new(self.width() as nat, |x: int| self.checker(x, y))
    }

    /// Row `from` as it looks after it has slid down to row `to`: locked
    /// blocks keep their colour, every other cell takes the background of
    /// its new place.
    pub open spec fn slid_row(self, from: int, to: int) -> Seq<ColorStyle> {
        Seq::new(
            self.width() as nat,
            |x: int|
                if self.occupied(x, from) {
                    self.cells[from][x]
                } else {
                    self.checker(x, to)
                },
        )
    }

    /// The field without its full rows: the rows that are kept slide down
    /// in their order, a row that does not move stays as it is, and as many
    /// background rows as were full come in at the top.
    pub open spec fn compacted(self) -> Field {
        let kept = self.kept(self.height());
        let gone = self.height() - kept.len();
        Field {
            cells: Seq::new(
                self.cells.len(),
                |y: int|
                    if y < gone {
                        self.checker_row(y)
                    } else if kept[y - gone] == y {
                        self.cells[y]
                    } else {
                        self.slid_row(kept[y - gone], y)
                    },
            ),
            background: self.background,
            warning: self.warning,
        }
    }

    /// The field after the piece has been locked into it and the full rows
    /// are gone.
    pub open spec fn merged(self, p: PieceView) -> Field {
        self.painted(p).compacted()
    }

    /// The field with every cell back to its background colour.
    pub open spec fn cleared(self) -> Field {
        Field {
            cells: Seq::new(self.cells.len(), |y: int| self.checker_row(y)),
            background: self.background,
            warning: self.warning,
        }
    }

    /// An empty field of `w` columns and `h` rows.
    pub open spec fn blank(
        background: (ColorStyle, ColorStyle),
        warning: ColorStyle,
        w: int,
        h: int,
    ) -> Field {
        Field {
            cells: Seq::new(
                h as nat,
                |y: int| Seq::new(w as nat, |x: int| if (x + y) % 2 == 0 {
                    background.0
                } else {
                    background.1
                }),
            ),
            background,
            warning,
        }
    }

    /// A piece that went down a row and does not rest there can go down
    /// another row.
    pub proof fn lemma_falls_on(self, p: PieceView)
        requires
            self.can_move(p, LRD::Down.step()),
            !self.touches(p, LRD::Down.step()),
        ensures
            self.can_move(p.shifted(LRD::Down.step()), LRD::Down.step()),
    {
        let d = LRD::Down.step();
        let q = p.shifted(d);
        assert forall|i: int| 0 <= i < q.cells().len() implies self.free(
            #[trigger] q.shifted(d).cell(i),
        ) by {
            assert(self.free(q.cell(i)));
            assert(!self.grounded(q.cell(i)));
        }
    }

    /// The rows that `kept` lists lie above row `upto`, are not full, and
    /// come in ascending order.
    pub proof fn lemma_kept(self, upto: int)
        requires
            0 <= upto,
        ensures
            self.kept(upto).len() <= upto,
            forall|j: int|
                0 <= j < self.kept(upto).len() ==> 0 <= #[trigger] self.kept(upto)[j] < upto
                    && !self.row_full(self.kept(upto)[j]),
            forall|i: int, j: int|
                0 <= i < j < self.kept(upto).len() ==> self.kept(upto)[i] < self.kept(upto)[j],
        decreases upto,
    {
        if upto > 0 {
            self.lemma_kept(upto - 1);
        }
    }

    /// The rows kept above row `upto` stand first among those kept above a
    /// later row.
    pub proof fn lemma_kept_prefix(self, upto: int, later: int)
        requires
            0 <= upto <= later,
        ensures
            self.kept(upto).len() <= self.kept(later).len(),
            forall|j: int|
                0 <= j < self.kept(upto).len() ==> #[trigger] self.kept(later)[j] == self.kept(
                    upto,
                )[j],
        decreases later - upto,
    {
        if upto < later {
            self.lemma_kept_prefix(upto, later - 1);
        }
    }

    /// Where no row above row `upto` is full, all of them are kept.
    pub proof fn lemma_kept_all(self, upto: int)
        requires
            0 <= upto,
            forall|y: int| 0 <= y < upto ==> !#[trigger] self.row_full(y),
        ensures
            self.kept(upto).len() == upto,
            forall|j: int| 0 <= j < upto ==> #[trigger] self.kept(upto)[j] == j,
        decreases upto,
    {
        if upto > 0 {
            self.lemma_kept_all(upto - 1);
        }
    }

    /// A field without full rows is left as it is.
    pub proof fn lemma_nothing_to_clear(self)
        requires
            self.wf(),
            forall|y: int| 0 <= y < self.height() ==> !#[trigger] self.row_full(y),
        ensures
            self.full_rows() == 0,
            self.compacted() == self,
    {
        self.lemma_kept_all(self.height());
        assert(self.compacted().cells =~= self.cells);
    }

    /// One step of clearing, seen from below: rows from `fill` on are
    /// settled, rows above `check` are still to be looked at, and row
    /// `check - 1` is not full. Then that row settles in row `fill - 1`.
    pub proof fn lemma_row_settles(self, fill: int, check: int)
        requires
            0 < check <= fill <= self.height(),
            !self.row_full(check - 1),
            fill - self.kept(check).len() == self.full_rows(),
        ensures
            self.full_rows() <= fill - 1,
            fill - 1 - self.kept(check - 1).len() == self.full_rows(),
            fill == check ==> self.compacted().cells[fill - 1] == self.cells[fill - 1],
            fill != check ==> self.compacted().cells[fill - 1] == self.slid_row(
                check - 1,
                fill - 1,
            ),
    {
        self.lemma_kept_prefix(check, self.height());
        let last = self.kept(check).len() - 1;
        assert(self.kept(check) == self.kept(check - 1).push(check - 1));
        assert(self.kept(check)[last] == check - 1);
        assert(self.kept(self.height())[last] == check - 1);
    }
}

} // verus!

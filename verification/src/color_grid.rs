//! The field in memory, and the commands of the game.
use cursive::style::ColorStyle;
use vstd::prelude::*;
use crate::block::{default_block, Block, BlockWithPos, PieceView, Pos};
use crate::color::same_color;
use crate::field::{Field, MAX_SIDE};
use crate::fit::{first_nudge, fit_within, fitted, lemma_fit_within, spawned, within, FIT_ATTEMPTS};
use crate::lrd::{LR, LRD};
use crate::state::GridView;

verus! {

/// The field of a game and the piece that falls through it.
pub struct ColorGrid {
    block: BlockWithPos,
    colors: Vec<Vec<ColorStyle>>,
    background_color: (ColorStyle, ColorStyle),
    warning_color: ColorStyle,
}

impl View for ColorGrid {
    type V = GridView;

    closed spec fn view(&self) -> GridView {
        GridView {
            field: Field {
                cells: Seq::new(self.colors@.len(), |y: int| self.colors@[y]@),
                background: self.background_color,
                warning: self.warning_color,
            },
            piece: self.block@,
        }
    }
}

impl ColorGrid {
    /// What holds of every grid that this module hands out.
    pub open spec fn wf(&self) -> bool {
        self@.wf()
    }

    /// How the rows in memory and the rows of the view go together.
    proof fn lemma_rows(&self)
        requires
            self.wf(),
        ensures
            self.colors@.len() == self@.height(),
            forall|y: int|
                0 <= y < self.colors@.len() ==> (#[trigger] self.colors@[y])@
                    == self@.field.cells[y] && self.colors@[y]@.len() == self@.width(),
    {
        assert forall|y: int| 0 <= y < self.colors@.len() implies (#[trigger] self.colors@[y])@
            == self@.field.cells[y] && self.colors@[y]@.len() == self@.width() by {
            assert(self@.field.cells[y].len() == self@.width());
        }
    }

    /// An empty field of `width` columns and `height` rows, with the default
    /// block where it enters.
    pub fn new(
        background_color: (ColorStyle, ColorStyle),
        warning_color: ColorStyle,
        width: usize,
        height: usize,
    ) -> (grid: Self)
        requires
            width <= MAX_SIDE,
            height <= MAX_SIDE,
            spawned(default_block(), width as int, height as int) is Some,
        ensures
            grid.wf(),
            grid@ == GridView::fresh(background_color, warning_color, width as int, height as int),
    {
        let mut colors: Vec<Vec<ColorStyle>> = Vec::with_capacity(height);
        let mut h: usize = 0;
        while h < height
            invariant
                h <= height <= MAX_SIDE,
                width <= MAX_SIDE,
                colors@.len() == h,
                forall|y: int| 0 <= y < h ==> (#[trigger] colors@[y])@ == Field::blank(
                    background_color,
                    warning_color,
                    width as int,
                    height as int,
                ).cells[y],
            decreases height - h,
        {
            let mut row: Vec<ColorStyle> = Vec::with_capacity(width);
            let mut w: usize = 0;
            while w < width
                invariant
                    w <= width <= MAX_SIDE,
                    h < height <= MAX_SIDE,
                    row@.len() == w,
                    forall|x: int| 0 <= x < w ==> #[trigger] row@[x] == Field::blank(
                        background_color,
                        warning_color,
                        width as int,
                        height as int,
                    ).cells[h as int][x],
                decreases width - w,
            {
                let color = if (w + h) % 2 == 0 {
                    background_color.0
                } else {
                    background_color.1
                };
                row.push(color);
                w += 1;
            }
            assert(row@ =~= Field::blank(
                background_color,
                warning_color,
                width as int,
                height as int,
            ).cells[h as int]);
            colors.push(row);
            h += 1;
        }
        let block = Self::insert_new_block(Block::default(), width, height);
        let grid = Self { block, colors, background_color, warning_color };
        proof {
            let fresh = GridView::fresh(
                background_color,
                warning_color,
                width as int,
                height as int,
            );
            lemma_fit_within(
                PieceView { block: default_block(), x: width as int / 2, y: 0 },
                width as int,
                height as int,
                FIT_ATTEMPTS as nat,
            );
            assert(fresh.piece.cells().len() > 0);
            assert(crate::fit::on_field(fresh.piece.cell(0), width as int, height as int));
            assert(grid@.field.cells =~= fresh.field.cells);
        }
        grid
    }

    /// Puts `block` on the field in place of the falling piece.
    pub fn insert(&mut self, block: Block)
        requires
            old(self).wf(),
            spawned(block@, old(self)@.width(), old(self)@.height()) is Some,
        ensures
            final(self).wf(),
            final(self)@ == old(self)@.inserted(block@),
    {
        proof {
            use_type_invariant(&block);
            lemma_fit_within(
                PieceView { block: block@, x: self@.width() / 2, y: 0 },
                self@.width(),
                self@.height(),
                FIT_ATTEMPTS as nat,
            );
        }
        self.block = ColorGrid::insert_new_block(block, self.width(), self.height());
    }

    /// Whether `block` finds a place where it enters a field of the given
    /// size. Nothing is changed.
    pub fn can_enter(block: &Block, width: usize, height: usize) -> (enters: bool)
        ensures
            enters == spawned(block@, width as int, height as int) is Some,
    {
        ColorGrid::fit(block.clone(), Pos::new((width / 2) as i64, 0), width, height).is_some()
    }

    /// The piece that `block` becomes where it enters a field of the given
    /// size.
    fn insert_new_block(block: Block, width: usize, height: usize) -> (piece: BlockWithPos)
        requires
            spawned(block@, width as int, height as int) is Some,
        ensures
            piece@ == spawned(block@, width as int, height as int).unwrap(),
    {
        ColorGrid::fit(block, Pos::new((width / 2) as i64, 0), width, height).unwrap()
    }

    /// Looks for a place for `block` on a field of the given size, starting
    /// with its anchor at `pos`. A piece that lies on the field stays where
    /// it is. Otherwise the first cell that lies off the field pushes the
    /// anchor one step inwards, and the piece is looked at again, up to
    /// `FIT_ATTEMPTS` times in all. Locked blocks play no part in this.
    pub fn fit(block: Block, pos: Pos, width: usize, height: usize) -> (fit: Option<BlockWithPos>)
        ensures
            fit matches Some(piece) ==> fitted(
                PieceView { block: block@, x: pos.x as int, y: pos.y as int },
                width as int,
                height as int,
            ) == Some(piece@) && within(piece@, width as int, height as int),
            fit is None ==> fitted(
                PieceView { block: block@, x: pos.x as int, y: pos.y as int },
                width as int,
                height as int,
            ) is None,
    {
        let ghost start = PieceView { block: block@, x: pos.x as int, y: pos.y as int };
        let ghost w = width as int;
        let ghost h = height as int;
        let mut anchor = pos;
        let mut attempt: usize = 0;
        while attempt < FIT_ATTEMPTS
            invariant
                attempt <= FIT_ATTEMPTS,
                w == width,
                h == height,
                start == (PieceView { block: block@, x: pos.x as int, y: pos.y as int }),
                fit_within(
                    PieceView { block: block@, x: anchor.x as int, y: anchor.y as int },
                    w,
                    h,
                    (FIT_ATTEMPTS - attempt) as nat,
                ) == fitted(start, w, h),
            decreases FIT_ATTEMPTS - attempt,
        {
            let ghost here = PieceView { block: block@, x: anchor.x as int, y: anchor.y as int };
            let ghost before = anchor;
            let cells = block.cells();
            let mut possible = true;
            let mut i: usize = 0;
            while i < cells.len()
                invariant_except_break
                    i <= cells.len(),
                    possible,
                    anchor == before,
                    first_nudge(here, w, h, i as int) == first_nudge(here, w, h, 0),
                invariant
                    cells@ == here.cells(),
                    here.x == before.x,
                    here.y == before.y,
                    w == width,
                    h == height,
                ensures
                    possible ==> first_nudge(here, w, h, 0) is None && anchor == before,
                    !possible ==> (first_nudge(here, w, h, 0) matches Some(d) && anchor.x
                        == before.x + d.0 && anchor.y == before.y + d.1),
                decreases cells.len() - i,
            {
                let x: i128 = anchor.x as i128 + cells[i].0 as i128;
                let y: i128 = anchor.y as i128 + cells[i].1 as i128;
                if x < 0 {
                    anchor.x += 1;
                    possible = false;
                    break ;
                } else if x >= width as i128 {
                    anchor.x -= 1;
                    possible = false;
                    break ;
                } else if y < 0 {
                    anchor.y += 1;
                    possible = false;
                    break ;
                } else if y >= height as i128 {
                    anchor.y -= 1;
                    possible = false;
                    break ;
                }
                i += 1;
            }
            if possible {
                proof {
                    assert(fit_within(here, w, h, (FIT_ATTEMPTS - attempt) as nat) == Some(here));
                    lemma_fit_within(start, w, h, FIT_ATTEMPTS as nat);
                }
                return Some(BlockWithPos::new(block, anchor));
            }
            attempt += 1;
        }
        None
    }

    /// What a step of `block` in direction `lrd` gives: the piece at its new
    /// place and whether it rests there, or nothing where a cell would leave
    /// the field or meet a locked block.
    pub fn move_block_lrd(&self, block: &BlockWithPos, lrd: LRD) -> (moved: (
        Option<BlockWithPos>,
        bool,
    ))
        requires
            self.wf(),
        ensures
            moved.1 == self@.moved(block@, lrd).1,
            match moved.0 {
                Some(piece) => self@.moved(block@, lrd).0 == Some(piece@),
                None => self@.moved(block@, lrd).0 is None,
            },
    {
        let (can_move, stop) = self.can_move(block, &lrd);
        if !can_move {
            return (None, stop);
        }
        let delta = lrd.delta();
        proof {
            use_type_invariant(&block.block);
            assert(self@.field.free(block@.shifted(lrd.step()).cell(0)));
        }
        let x: i64 = block.pos.x + delta.0 as i64;
        let y: i64 = block.pos.y + delta.1 as i64;
        let bwp = BlockWithPos::new(block.block.clone(), Pos::new(x, y));
        (Some(bwp), stop)
    }

    /// Whether `block` may take a step in direction `lrd`, and whether it
    /// then rests on the floor or on a locked block.
    fn can_move(&self, block: &BlockWithPos, lrd: &LRD) -> (verdict: (bool, bool))
        requires
            self.wf(),
        ensures
            verdict.0 == self@.field.can_move(block@, lrd.step()),
            verdict.1 == self@.field.touches(block@, lrd.step()),
    {
        let delta = lrd.delta();
        let mut stop = false;
        let board_width: i128 = self.width() as i128;
        let board_height: i128 = self.height() as i128;
        let cells = block.block.cells();
        let ghost next = block@.shifted(lrd.step());
        let mut i: usize = 0;
        while i < cells.len()
            invariant
                self.wf(),
                i <= cells.len(),
                cells@ == block@.cells(),
                board_width == self@.width(),
                board_height == self@.height(),
                (delta.0 as int, delta.1 as int) == lrd.step(),
                next == block@.shifted(lrd.step()),
                forall|j: int| 0 <= j < i ==> self@.field.free(#[trigger] next.cell(j)),
                stop == exists|j: int| 0 <= j < i && self@.field.grounded(#[trigger] next.cell(j)),
            decreases cells.len() - i,
        {
            let next_x: i128 = block.pos.x as i128 + cells[i].0 as i128 + delta.0 as i128;
            let next_y: i128 = block.pos.y as i128 + cells[i].1 as i128 + delta.1 as i128;
            assert(next.cell(i as int) == (next_x as int, next_y as int));
            if next_x < 0 || next_x >= board_width || next_y < 0 || next_y >= board_height
                || self.is_occupied(next_x as usize, next_y as usize) {
                assert(!self@.field.free(next.cell(i as int)));
                return (false, false);
            }
            if next_y + 1 == board_height || self.is_occupied(
                next_x as usize,
                next_y as usize + 1,
            ) {
                assert(self@.field.grounded(next.cell(i as int)));
                stop = true;
            }
            i += 1;
        }
        (true, stop)
    }

    /// Where the falling piece would come to rest if it fell from where it
    /// stands. Nothing is changed.
    pub fn hint(&self) -> (hint: BlockWithPos)
        requires
            self.wf(),
        ensures
            hint@ == self@.hint(),
            within(hint@, self@.width(), self@.height()),
    {
        let mut hint = self.block.clone();
        let mut stopped = false;
        while !stopped
            invariant
                self.wf(),
                hint@.block == self@.piece.block,
                within(hint@, self@.width(), self@.height()),
                stopped ==> hint@ == self@.hint(),
                !stopped ==> self@.field.rest(hint@) == self@.hint(),
            decreases
                self@.height() - hint@.y - hint@.cells()[0].1 + if stopped {
                    0int
                } else {
                    1int
                },
        {
            assert(crate::fit::on_field(hint@.cell(0), self@.width(), self@.height()));
            let (block, hit_bottom) = self.move_block_lrd(&hint, LRD::Down);
            stopped = hit_bottom || block.is_none();
            match block {
                Some(lower) => {
                    assert(self@.field.free(lower@.cell(0)));
                    hint = lower;
                },
                None => {},
            }
        }
        hint
    }

    /// Lets the falling piece fall: one row, or, for a drop, as far as it
    /// goes. A piece that cannot go down at all ends the game: the report is
    /// `(true, true, 0)` and nothing is changed. Otherwise the report says
    /// that the game goes on, whether the piece has landed, and how many
    /// rows were cleared; a piece that has landed is locked into the field.
    pub fn on_down(&mut self, is_drop: bool) -> (report: (bool, bool, usize))
        requires
            old(self).wf(),
        ensures
            final(self).wf(),
            final(self)@ == old(self)@.after_down(is_drop),
            (report.0, report.1, report.2 as int) == old(self)@.down_report(is_drop),
    {
        let ghost start = self@;
        let ghost down = LRD::Down.step();
        let ghost mut first = true;
        let mut stopped = false;
        let mut hit_bottom = is_drop;
        while !stopped
            invariant
                self.wf(),
                start == old(self)@,
                start.wf(),
                down == LRD::Down.step(),
                self@.field == start.field,
                self@.piece.block == start.piece.block,
                first ==> !stopped && self@ == start,
                !first ==> !start.stuck(),
                !first && !is_drop ==> stopped && self@.piece == start.piece.shifted(down)
                    && hit_bottom == start.field.touches(start.piece, down),
                !first && is_drop && stopped ==> hit_bottom && self@.piece == start.field.rest(
                    start.piece,
                ),
                !first && is_drop && !stopped ==> start.field.can_move(self@.piece, down)
                    && start.field.rest(self@.piece) == start.field.rest(start.piece),
            decreases
                start.height() - self@.piece.y - self@.piece.cells()[0].1 + if stopped {
                    0int
                } else {
                    1int
                },
        {
            let ghost here = self@.piece;
            assert(crate::fit::on_field(here.cell(0), start.width(), start.height()));
            let (current, touched) = self.move_block_lrd(&self.block, LRD::Down);
            hit_bottom = touched;
            match current {
                Some(b) => {
                    proof {
                        assert(start.field.free(b@.cell(0)));
                        if !touched {
                            start.field.lemma_falls_on(here);
                        }
                    }
                    self.block = b;
                },
                None => {
                    return (true, true, 0);
                },
            }
            stopped = hit_bottom || !is_drop;
            proof {
                first = false;
            }
        }
        let score = if hit_bottom {
            self.merge_block()
        } else {
            0
        };
        (false, hit_bottom, score)
    }

    /// Pushes the falling piece one column sideways if it can go there.
    pub fn handle_lr(&mut self, lr: LR)
        requires
            old(self).wf(),
        ensures
            final(self).wf(),
            final(self)@ == old(self)@.pushed(lr),
    {
        let (block, _) = self.move_block_lrd(&self.block, lr.to_lrd());
        if block.is_some() {
            self.block = block.unwrap();
        }
    }

    /// Turns the falling piece into its next orientation if that can be
    /// fitted on the field from where the piece stands.
    pub fn rotate(&mut self)
        requires
            old(self).wf(),
        ensures
            final(self).wf(),
            final(self)@ == old(self)@.turned(),
    {
        let next_block = self.block.block.rotate();
        match ColorGrid::fit(next_block, self.block.pos, self.width(), self.height()) {
            Some(b) => {
                proof {
                    use_type_invariant(&b.block);
                }
                self.block = b;
            },
            None => {},
        }
    }

    /// The number of columns.
    pub fn width(&self) -> (width: usize)
        requires
            self.wf(),
        ensures
            width == self@.width(),
    {
        self.colors[0].len()
    }

    /// The number of rows.
    pub fn height(&self) -> (height: usize)
        requires
            self.wf(),
        ensures
            height == self@.height(),
    {
        self.colors.len()
    }

    /// The falling piece.
    pub fn block(&self) -> (piece: &BlockWithPos)
        ensures
            piece@ == self@.piece,
    {
        &self.block
    }

    /// The colour that marks a cell without locking it.
    pub fn warning_color(&self) -> (color: ColorStyle)
        ensures
            color == self@.field.warning,
    {
        self.warning_color
    }

    /// Gives the cell at column `x`, row `y` its background colour.
    fn set_background(&mut self, x: usize, y: usize)
        requires
            old(self).wf(),
            x < old(self)@.width(),
            y < old(self)@.height(),
        ensures
            final(self).wf(),
            final(self)@.piece == old(self)@.piece,
            final(self)@.field == (Field {
                cells: old(self)@.field.cells.update(
                    y as int,
                    old(self)@.field.cells[y as int].update(
                        x as int,
                        old(self)@.field.checker(x as int, y as int),
                    ),
                ),
                ..old(self)@.field
            }),
    {
        proof {
            self.lemma_rows();
        }
        let color = if (x + y) % 2 == 0 {
            self.background_color.0
        } else {
            self.background_color.1
        };
        self.colors[y][x] = color;
        assert(self@.field.cells =~= old(self)@.field.cells.update(
            y as int,
            old(self)@.field.cells[y as int].update(
                x as int,
                old(self)@.field.checker(x as int, y as int),
            ),
        ));
    }

    /// Starts a new game on the same field: every cell takes its background
    /// colour again, and the default block enters.
    pub fn renew(&mut self)
        requires
            old(self).wf(),
        ensures
            final(self).wf(),
            final(self)@ == old(self)@.renewed(),
    {
        let width = self.width();
        let height = self.height();
        let mut x: usize = 0;
        while x < width
            invariant
                self.wf(),
                x <= width == self@.width() == old(self)@.width(),
                height == self@.height() == old(self)@.height(),
                self@.piece == old(self)@.piece,
                self@.field.background == old(self)@.field.background,
                self@.field.warning == old(self)@.field.warning,
                forall|u: int, v: int|
                    0 <= u < x && 0 <= v < height ==> #[trigger] self@.field.cells[v][u]
                        == self@.field.checker(u, v),
            decreases width - x,
        {
            let mut y: usize = 0;
            while y < height
                invariant
                    self.wf(),
                    x < width == self@.width() == old(self)@.width(),
                    y <= height == self@.height() == old(self)@.height(),
                    self@.piece == old(self)@.piece,
                    self@.field.background == old(self)@.field.background,
                    self@.field.warning == old(self)@.field.warning,
                    forall|u: int, v: int|
                        0 <= u < x && 0 <= v < height ==> #[trigger] self@.field.cells[v][u]
                            == self@.field.checker(u, v),
                    forall|v: int|
                        0 <= v < y ==> #[trigger] self@.field.cells[v][x as int]
                            == self@.field.checker(x as int, v),
                decreases height - y,
            {
                self.set_background(x, y);
                y += 1;
            }
            x += 1;
        }
        proof {
            assert forall|v: int| 0 <= v < height implies #[trigger] self@.field.cells[v]
                == old(self)@.field.checker_row(v) by {
                assert(self@.field.cells[v].len() == width);
                assert forall|u: int| 0 <= u < width implies self@.field.cells[v][u] == old(
                    self,
                )@.field.checker_row(v)[u] by {
                    assert(self@.field.cells[v][u] == self@.field.checker(u, v));
                }
                assert(self@.field.cells[v] =~= old(self)@.field.checker_row(v));
            }
            assert(self@.field.cells =~= old(self)@.field.cleared().cells);
        }
        self.insert(Block::default());
    }

    /// Whether the cell at column `x`, row `y` holds a locked block: its
    /// colour is neither a background colour nor the warning colour.
    pub fn is_occupied(&self, x: usize, y: usize) -> (occupied: bool)
        requires
            self.wf(),
            x < self@.width(),
            y < self@.height(),
        ensures
            occupied == self@.field.occupied(x as int, y as int),
    {
        proof {
            self.lemma_rows();
        }
        !same_color(&self.colors[y][x], &self.background_color.0) && !same_color(
            &self.colors[y][x],
            &self.background_color.1,
        ) && !same_color(&self.colors[y][x], &self.warning_color)
    }

    /// Locks the falling piece into the field and clears the rows that are
    /// full then. Returns how many rows were cleared.
    pub fn merge_block(&mut self) -> (score: usize)
        requires
            old(self).wf(),
        ensures
            final(self).wf(),
            final(self)@ == old(self)@.locked(),
            score == old(self)@.cleared_by_lock(),
    {
        self.fill_board_with_block();
        self.remove_rows_if_possible()
    }

    /// Writes the colour of the falling piece into every cell it covers.
    fn fill_board_with_block(&mut self)
        requires
            old(self).wf(),
        ensures
            final(self).wf(),
            final(self)@.piece == old(self)@.piece,
            final(self)@.field == old(self)@.field.painted(old(self)@.piece),
    {
        let color = self.block.color();
        let cells = self.block.cells();
        let ghost piece = self@.piece;
        let ghost orig = self@.field;
        proof {
            assert(self@.field.cells =~~= orig.painted_upto(piece, 0).cells);
        }
        let mut i: usize = 0;
        while i < cells.len()
            invariant
                self.wf(),
                orig.wf(),
                i <= cells.len() == piece.cells().len(),
                color == piece.block.color,
                self@.piece == piece,
                within(piece, orig.width(), orig.height()),
                forall|j: int|
                    0 <= j < cells@.len() ==> (#[trigger] cells@[j].0 as int, cells@[j].1 as int)
                        == piece.cell(j),
                self@.field == orig.painted_upto(piece, i as int),
            decreases cells.len() - i,
        {
            proof {
                self.lemma_rows();
                assert(crate::fit::on_field(piece.cell(i as int), orig.width(), orig.height()));
                assert((cells@[i as int].0 as int, cells@[i as int].1 as int) == piece.cell(
                    i as int,
                ));
            }
            let x: usize = cells[i].0 as usize;
            let y: usize = cells[i].1 as usize;
            let ghost before = self@.field;
            self.colors[y][x] = color;
            proof {
                let after = orig.painted_upto(piece, i as int + 1);
                assert forall|v: int| 0 <= v < orig.height() implies #[trigger] self@.field.cells[v]
                    =~= after.cells[v] by {
                    assert(before.cells[v] == orig.painted_upto(piece, i as int).cells[v]);
                    assert forall|u: int| 0 <= u < orig.width() implies self@.field.cells[v][u]
                        == after.cells[v][u] by {
                        if piece.covers_upto(i as int + 1, u, v) {
                            let j = choose|j: int|
                                0 <= j < i as int + 1 && #[trigger] piece.cell(j) == (u, v);
                            if j < i {
                                assert(piece.covers_upto(i as int, u, v));
                            }
                        }
                        if piece.covers_upto(i as int, u, v) {
                            let j = choose|j: int|
                                0 <= j < i as int && #[trigger] piece.cell(j) == (u, v);
                            assert(piece.covers_upto(i as int + 1, u, v));
                        }
                        if (u, v) == (x as int, y as int) {
                            assert(piece.cell(i as int) == (u, v));
                            assert(piece.covers_upto(i as int + 1, u, v));
                        }
                    }
                }
                assert(self@.field.cells =~= after.cells);
            }
            i += 1;
        }
    }

    /// Looks through the rows from the bottom up, clears those that are
    /// full, and returns how many there were.
    fn remove_rows_if_possible(&mut self) -> (score: usize)
        requires
            old(self).wf(),
        ensures
            final(self).wf(),
            final(self)@.piece == old(self)@.piece,
            final(self)@.field == old(self)@.field.compacted(),
            score == old(self)@.field.full_rows(),
    {
        let mut rows_to_remove: Vec<usize> = Vec::new();
        let height = self.height();
        let width = self.width();
        let mut seen: usize = 0;
        while seen < height
            invariant
                self.wf(),
                self@ == old(self)@,
                seen <= height == self@.height(),
                width == self@.width(),
                self@.field.lists_full_rows(rows_to_remove@, height - seen),
            decreases height - seen,
        {
            let y: usize = height - seen - 1;
            let mut remove = true;
            let mut x: usize = 0;
            while x < width
                invariant_except_break
                    remove,
                    forall|u: int| 0 <= u < x ==> #[trigger] self@.field.occupied(u, y as int),
                invariant
                    self.wf(),
                    x <= width == self@.width(),
                    y < self@.height(),
                ensures
                    remove == self@.field.row_full(y as int),
                decreases width - x,
            {
                if !self.is_occupied(x, y) {
                    remove = false;
                    break ;
                }
                x += 1;
            }
            if remove {
                let ghost listed = rows_to_remove@;
                rows_to_remove.push(y);
                proof {
                    let last = listed.len() as int;
                    assert(rows_to_remove@[last] == y);
                    assert forall|r: int|
                        y <= r < self@.height() && #[trigger] self@.field.row_full(
                            r,
                        ) implies exists|i: int|
                        0 <= i < rows_to_remove@.len() && #[trigger] rows_to_remove@[i] == r by {
                        if r > y {
                            let i = choose|i: int|
                                0 <= i < listed.len() && #[trigger] listed[i] == r;
                            assert(rows_to_remove@[i] == r);
                        }
                    }
                }
            }
            seen += 1;
        }
        let score = rows_to_remove.len();
        self.remove_rows(rows_to_remove);
        score
    }

    /// Lets row `from` slide down into row `to`.
    fn move_row(&mut self, from: usize, to: usize)
        requires
            old(self).wf(),
            from < to < old(self)@.height(),
        ensures
            final(self).wf(),
            final(self)@.piece == old(self)@.piece,
            final(self)@.field == (Field {
                cells: old(self)@.field.cells.update(
                    to as int,
                    old(self)@.field.slid_row(from as int, to as int),
                ),
                ..old(self)@.field
            }),
    {
        let row = self.background_row(from, to);
        self.colors[to] = row;
        assert(self@.field.cells =~= old(self)@.field.cells.update(
            to as int,
            old(self)@.field.slid_row(from as int, to as int),
        ));
    }

    /// Clears the rows that `rows_to_remove` names. Two marks start below
    /// the last row and go up: the rows from `fill_y` down are settled, the
    /// rows above `check_y` are still to be looked at. A row that is kept
    /// slides down to the row above the settled ones, unless it is there
    /// already; a row that is cleared is passed over. What is left at the top
    /// once all rows have been looked at takes the background colours.
    fn remove_rows(&mut self, rows_to_remove: Vec<usize>)
        requires
            old(self).wf(),
            old(self)@.field.lists_full_rows(rows_to_remove@, 0),
        ensures
            final(self).wf(),
            final(self)@.piece == old(self)@.piece,
            final(self)@.field == old(self)@.field.compacted(),
            rows_to_remove@.len() == old(self)@.field.full_rows(),
    {
        let ghost orig = self@.field;
        let ghost target = orig.compacted();
        if rows_to_remove.is_empty() {
            proof {
                orig.lemma_nothing_to_clear();
            }
            return ;
        }
        let height = self.height();
        let mut fill_y: usize = height;
        let mut check_y: usize = height;
        let mut i: usize = 0;
        while i < rows_to_remove.len()
            invariant
                self.wf(),
                orig.wf(),
                orig == old(self)@.field,
                target == orig.compacted(),
                self@.piece == old(self)@.piece,
                self@.field.background == orig.background,
                self@.field.warning == orig.warning,
                self@.width() == orig.width(),
                height == self@.height() == orig.height(),
                orig.lists_full_rows(rows_to_remove@, 0),
                i <= rows_to_remove.len(),
                check_y <= fill_y <= height,
                fill_y - check_y == i,
                fill_y - orig.kept(check_y as int).len() == orig.full_rows(),
                forall|j: int|
                    i <= j < rows_to_remove@.len() ==> #[trigger] rows_to_remove@[j] < check_y,
                forall|j: int| 0 <= j < i ==> #[trigger] rows_to_remove@[j] >= check_y,
                forall|y: int|
                    0 <= y < check_y ==> #[trigger] self@.field.cells[y] == orig.cells[y],
                forall|y: int|
                    fill_y <= y < height ==> #[trigger] self@.field.cells[y] == target.cells[y],
            decreases rows_to_remove.len() - i,
        {
            let row = rows_to_remove[i];
            while check_y > row + 1
                invariant
                    self.wf(),
                    orig.wf(),
                    target == orig.compacted(),
                    self@.piece == old(self)@.piece,
                    self@.field.background == orig.background,
                    self@.field.warning == orig.warning,
                    self@.width() == orig.width(),
                    height == self@.height() == orig.height(),
                    orig.lists_full_rows(rows_to_remove@, 0),
                    i < rows_to_remove.len(),
                    row == rows_to_remove@[i as int],
                    row < check_y <= fill_y <= height,
                    forall|j: int| 0 <= j < i ==> #[trigger] rows_to_remove@[j] >= check_y,
                    fill_y - check_y == i,
                    fill_y - orig.kept(check_y as int).len() == orig.full_rows(),
                    forall|y: int|
                        0 <= y < check_y ==> #[trigger] self@.field.cells[y] == orig.cells[y],
                    forall|y: int|
                        fill_y <= y < height ==> #[trigger] self@.field.cells[y] == target.cells[y],
                decreases check_y,
            {
                proof {
                    if orig.row_full(check_y - 1) {
                        let j = choose|j: int|
                            0 <= j < rows_to_remove@.len() && #[trigger] rows_to_remove@[j]
                                == check_y - 1;
                        assert(false);
                    }
                    orig.lemma_row_settles(fill_y as int, check_y as int);
                }
                if fill_y != check_y {
                    let ghost before = self@.field;
                    self.move_row(check_y - 1, fill_y - 1);
                    proof {
                        assert(before.cells[check_y - 1] == orig.cells[check_y - 1]);
                        assert(before.slid_row(check_y - 1, fill_y - 1) =~= orig.slid_row(
                            check_y - 1,
                            fill_y - 1,
                        ));
                    }
                }
                fill_y -= 1;
                check_y -= 1;
            }
            check_y = row;
            i += 1;
        }
        proof {
            assert forall|y: int| 0 <= y < check_y implies !#[trigger] orig.row_full(y) by {
                if orig.row_full(y) {
                    let j = choose|j: int|
                        0 <= j < rows_to_remove@.len() && #[trigger] rows_to_remove@[j] == y;
                    assert(false);
                }
            }
        }
        while check_y > 0
            invariant
                self.wf(),
                orig.wf(),
                target == orig.compacted(),
                self@.piece == old(self)@.piece,
                self@.field.background == orig.background,
                self@.field.warning == orig.warning,
                self@.width() == orig.width(),
                height == self@.height() == orig.height(),
                check_y < fill_y <= height,
                fill_y - check_y == rows_to_remove@.len(),
                fill_y - orig.kept(check_y as int).len() == orig.full_rows(),
                forall|y: int| 0 <= y < check_y ==> !#[trigger] orig.row_full(y),
                forall|y: int|
                    0 <= y < check_y ==> #[trigger] self@.field.cells[y] == orig.cells[y],
                forall|y: int|
                    fill_y <= y < height ==> #[trigger] self@.field.cells[y] == target.cells[y],
            decreases check_y,
        {
            proof {
                orig.lemma_row_settles(fill_y as int, check_y as int);
            }
            let ghost before = self@.field;
            self.move_row(check_y - 1, fill_y - 1);
            proof {
                assert(before.cells[check_y - 1] == orig.cells[check_y - 1]);
                assert(before.slid_row(check_y - 1, fill_y - 1) =~= orig.slid_row(
                    check_y - 1,
                    fill_y - 1,
                ));
            }
            fill_y -= 1;
            check_y -= 1;
        }
        let width = self.width();
        while fill_y > 0
            invariant
                self.wf(),
                orig.wf(),
                target == orig.compacted(),
                self@.piece == old(self)@.piece,
                self@.field.background == orig.background,
                self@.field.warning == orig.warning,
                width == self@.width() == orig.width(),
                height == self@.height() == orig.height(),
                fill_y <= orig.full_rows() == rows_to_remove@.len(),
                fill_y <= height,
                forall|y: int|
                    fill_y <= y < height ==> #[trigger] self@.field.cells[y] == target.cells[y],
            decreases fill_y,
        {
            let y: usize = fill_y - 1;
            let mut x: usize = 0;
            while x < width
                invariant
                    self.wf(),
                    self@.piece == old(self)@.piece,
                    self@.field.background == orig.background,
                    self@.field.warning == orig.warning,
                    x <= width == self@.width() == orig.width(),
                    y < height == self@.height() == orig.height(),
                    y + 1 == fill_y,
                    target == orig.compacted(),
                    forall|u: int|
                        0 <= u < x ==> #[trigger] self@.field.cells[y as int][u] == orig.checker(
                            u,
                            y as int,
                        ),
                    forall|v: int|
                        fill_y <= v < height ==> #[trigger] self@.field.cells[v] == target.cells[v],
                decreases width - x,
            {
                self.set_background(x, y);
                x += 1;
            }
            proof {
                assert(self@.field.cells[y as int].len() == width);
                assert(self@.field.cells[y as int] =~= orig.checker_row(y as int));
            }
            fill_y -= 1;
        }
        proof {
            assert(self@.field.cells =~= target.cells);
        }
    }

    /// Row `from` as it looks once it has slid down to row `to`.
    fn background_row(&self, from: usize, to: usize) -> (row: Vec<ColorStyle>)
        requires
            self.wf(),
            from < self@.height(),
            to < self@.height(),
        ensures
            row@ == self@.field.slid_row(from as int, to as int),
    {
        let width = self.width();
        let mut row: Vec<ColorStyle> = Vec::new();
        let mut w: usize = 0;
        while w < width
            invariant
                self.wf(),
                from < self@.height(),
                to < self@.height(),
                w <= width == self@.width(),
                row@.len() == w,
                forall|x: int|
                    0 <= x < w ==> #[trigger] row@[x] == self@.field.slid_row(
                        from as int,
                        to as int,
                    )[x],
            decreases width - w,
        {
            proof {
                self.lemma_rows();
            }
            if self.is_occupied(w, from) {
                row.push(self.colors[from][w]);
            } else {
                let color = if (w + to) % 2 == 0 {
                    self.background_color.0
                } else {
                    self.background_color.1
                };
                row.push(color);
            }
            w += 1;
        }
        assert(row@ =~= self@.field.slid_row(from as int, to as int));
        row
    }
}

/// The rows of the field can be read by their number, top row first. The
/// number of a row that the field does not have is not accepted.
impl core::ops::Index<usize> for ColorGrid {
    type Output = Vec<ColorStyle>;

    fn index(&self, index: usize) -> (row: &Vec<ColorStyle>)
        ensures
            row@ == self@.field.cells[index as int],
    {
        &self.colors[index]
    }
}

impl vstd::std_specs::core::IndexSpecImpl<usize> for ColorGrid {
    open spec fn index_req(&self, index: &usize) -> bool {
        *index < self@.height()
    }
}

} // verus!

//! A game as a mathematical value: the field and the piece that falls
//! through it, and what each command makes of them.
use cursive::style::ColorStyle;
use vstd::prelude::*;
use crate::block::{default_block, BlockView, PieceView};
use crate::field::Field;
use crate::fit::{fitted, spawned, within};
use crate::lrd::{LR, LRD};

verus! {

/// What a game is at any moment: the field and the falling piece.
pub struct GridView {
    pub field: Field,
    pub piece: PieceView,
}

impl GridView {
    pub open spec fn width(self) -> int {
        self.field.width()
    }

    pub open spec fn height(self) -> int {
        self.field.height()
    }

    /// The field is well formed, the piece has cells and lies wholly on the
    /// field, and a new game can be started on a field of this size.
    pub open spec fn wf(self) -> bool {
        &&& self.field.wf()
        &&& self.piece.block.wf()
        &&& within(self.piece, self.width(), self.height())
        &&& spawned(default_block(), self.width(), self.height()) is Some
    }

    /// A new game: an empty field, and the default block where it enters.
    pub open spec fn fresh(
        background: (ColorStyle, ColorStyle),
        warning: ColorStyle,
        w: int,
        h: int,
    ) -> GridView {
        GridView {
            field: Field::blank(background, warning, w, h),
            piece: spawned(default_block(), w, h).unwrap(),
        }
    }

    /// What a step of piece `p` in direction `d` gives: the piece at its
    /// new place and whether it rests there, or nothing where the step
    /// cannot be taken.
    pub open spec fn moved(self, p: PieceView, d: LRD) -> (Option<PieceView>, bool) {
        if self.field.can_move(p, d.step()) {
            (Some(p.shifted(d.step())), self.field.touches(p, d.step()))
        } else {
            (None, false)
        }
    }

    /// Where the falling piece would come to rest.
    pub open spec fn hint(self) -> PieceView {
        self.field.rest(self.piece)
    }

    /// The game after `block` has entered in place of the falling piece.
    pub open spec fn inserted(self, block: BlockView) -> GridView {
        GridView { field: self.field, piece: spawned(block, self.width(), self.height()).unwrap() }
    }

    /// The game after a sideways push: the piece takes the step if it can.
    pub open spec fn pushed(self, lr: LR) -> GridView {
        match self.moved(self.piece, lr.lrd()).0 {
            Some(p) => GridView { field: self.field, piece: p },
            None => self,
        }
    }

    /// The game after a turn: the piece takes its next orientation if that
    /// can be fitted on the field from where the piece stands.
    pub open spec fn turned(self) -> GridView {
        match fitted(self.piece.rotated(), self.width(), self.height()) {
            Some(p) => GridView { field: self.field, piece: p },
            None => self,
        }
    }

    /// The game after the falling piece has been locked into the field.
    pub open spec fn locked(self) -> GridView {
        GridView { field: self.field.merged(self.piece), piece: self.piece }
    }

    /// How many rows locking the falling piece clears.
    pub open spec fn cleared_by_lock(self) -> int {
        self.field.painted(self.piece).full_rows()
    }

    /// Whether the falling piece cannot go down at all.
    pub open spec fn stuck(self) -> bool {
        !self.field.can_move(self.piece, LRD::Down.step())
    }

    /// Where a fall takes the piece: one row down, or, for a drop, to where
    /// it rests.
    pub open spec fn fallen(self, is_drop: bool) -> PieceView {
        if is_drop {
            self.field.rest(self.piece)
        } else {
            self.piece.shifted(LRD::Down.step())
        }
    }

    /// Whether a fall ends with the piece at rest: a drop always does, one
    /// row down does if the piece then touches the floor or a locked block.
    pub open spec fn lands(self, is_drop: bool) -> bool {
        is_drop || self.field.touches(self.piece, LRD::Down.step())
    }

    /// The game after a fall. A piece that is stuck stays, and so does the
    /// field. Otherwise the piece falls, and is locked if it lands.
    pub open spec fn after_down(self, is_drop: bool) -> GridView {
        if self.stuck() {
            self
        } else {
            let fallen = GridView { field: self.field, piece: self.fallen(is_drop) };
            if self.lands(is_drop) {
                fallen.locked()
            } else {
                fallen
            }
        }
    }

    /// What a fall reports: whether the game is over, whether the piece
    /// landed, and how many rows were cleared.
    pub open spec fn down_report(self, is_drop: bool) -> (bool, bool, int) {
        if self.stuck() {
            (true, true, 0)
        } else if self.lands(is_drop) {
            let fallen = GridView { field: self.field, piece: self.fallen(is_drop) };
            (false, true, fallen.cleared_by_lock())
        } else {
            (false, false, 0)
        }
    }

    /// A new game on the same field: every cell back to its background
    /// colour, and the default block where it enters.
    pub open spec fn renewed(self) -> GridView {
        GridView {
            field: self.field.cleared(),
            piece: spawned(default_block(), self.width(), self.height()).unwrap(),
        }
    }
}

} // verus!

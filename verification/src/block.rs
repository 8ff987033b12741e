//! Pieces: a shape in each of its orientations, a colour, and a place on the
//! field.
use cursive::style::ColorStyle;
use vstd::prelude::*;
use crate::color::{make_rgb_style, rgb_style};

verus! {

/// A column and a row. An anchor may lie off the field, so both are signed.
#[derive(Clone, Copy, Debug, PartialEq, Eq, Structural)]
pub struct Pos {
    pub x: i64,
    pub y: i64,
}

impl Pos {
    pub fn new(x: i64, y: i64) -> (p: Pos)
        ensures
            p.x == x,
            p.y == y,
    {
        Pos { x, y }
    }
}

/// What a [`Block`] is: the cell offsets of each orientation, the orientation
/// it is in, and its colour.
pub struct BlockView {
    pub shapes: Seq<Seq<(i32, i32)>>,
    pub turn: int,
    pub color: ColorStyle,
}

impl BlockView {
    /// There is at least one orientation, every orientation has a cell, and
    /// `turn` names one of them.
    pub open spec fn wf(self) -> bool {
        &&& 0 <= self.turn < self.shapes.len()
        &&& forall|i: int| 0 <= i < self.shapes.len() ==> (#[trigger] self.shapes[i]).len() > 0
    }

    /// The offsets of the cells in the present orientation.
    pub open spec fn cells(self) -> Seq<(i32, i32)> {
        self.shapes[self.turn]
    }

    /// The same block in its next orientation; after the last comes the first.
    pub open spec fn rotated(self) -> BlockView {
        BlockView {
            shapes: self.shapes,
            turn: if self.turn + 1 < self.shapes.len() { self.turn + 1 } else { 0 },
            color: self.color,
        }
    }
}

/// The orientations held by nested vectors.
pub open spec fn shapes_of(shapes: Vec<Vec<(i32, i32)>>) -> Seq<Seq<(i32, i32)>> {
    Seq::new(shapes@.len(), |i: int| shapes@[i]@)
}

/// The orientations of the block that a new game starts with: a T, turning
/// about its middle cell.
pub open spec fn default_shapes() -> Seq<Seq<(i32, i32)>> {
    seq![
        seq![(-1i32, 0i32), (0i32, 0i32), (1i32, 0i32), (0i32, -1i32)],
        seq![(0i32, -1i32), (0i32, 0i32), (0i32, 1i32), (1i32, 0i32)],
        seq![(-1i32, 0i32), (0i32, 0i32), (1i32, 0i32), (0i32, 1i32)],
        seq![(0i32, -1i32), (0i32, 0i32), (0i32, 1i32), (-1i32, 0i32)],
    ]
}

/// The block that a new game starts with.
pub open spec fn default_block() -> BlockView {
    BlockView { shapes: default_shapes(), turn: 0, color: rgb_style(0, 0, 0, 160, 0, 240) }
}

/// A piece without a place: its cells are offsets from an anchor.
#[derive(Debug, PartialEq, Eq)]
pub struct Block {
    shapes: Vec<Vec<(i32, i32)>>,
    turn: usize,
    color: ColorStyle,
}

impl View for Block {
    type V = BlockView;

    closed spec fn view(&self) -> BlockView {
        BlockView { shapes: shapes_of(self.shapes), turn: self.turn as int, color: self.color }
    }
}

fn copy_cells(cells: &Vec<(i32, i32)>) -> (copy: Vec<(i32, i32)>)
    ensures
        copy@ == cells@,
{
    let mut copy: Vec<(i32, i32)> = Vec::with_capacity(cells.len());
    let mut i: usize = 0;
    while i < cells.len()
        invariant
            i <= cells.len(),
            copy@ == cells@.take(i as int),
        decreases cells.len() - i,
    {
        copy.push(cells[i]);
        i += 1;
    }
    copy
}

fn copy_shapes(shapes: &Vec<Vec<(i32, i32)>>) -> (copy: Vec<Vec<(i32, i32)>>)
    ensures
        shapes_of(copy) == shapes_of(*shapes),
{
    let mut copy: Vec<Vec<(i32, i32)>> = Vec::with_capacity(shapes.len());
    let mut i: usize = 0;
    while i < shapes.len()
        invariant
            i <= shapes.len(),
            copy@.len() == i,
            forall|j: int| 0 <= j < i ==> (#[trigger] copy@[j])@ == shapes@[j]@,
        decreases shapes.len() - i,
    {
        copy.push(copy_cells(&shapes[i]));
        i += 1;
    }
    assert(shapes_of(copy) =~= shapes_of(*shapes));
    copy
}

impl Block {
    #[verifier::type_invariant]
    pub open spec fn inv(self) -> bool {
        self@.wf()
    }

    /// A block in its first orientation, or nothing where `shapes` holds no
    /// orientation or an orientation without cells.
    pub fn new(shapes: Vec<Vec<(i32, i32)>>, color: ColorStyle) -> (made: Option<Block>)
        ensures
            made is Some <==> (BlockView { shapes: shapes_of(shapes), turn: 0, color }).wf(),
            made matches Some(b) ==> b@ == (BlockView {
                shapes: shapes_of(shapes),
                turn: 0,
                color,
            }),
    {
        if shapes.len() == 0 {
            return None;
        }
        let mut i: usize = 0;
        while i < shapes.len()
            invariant
                i <= shapes.len(),
                forall|j: int| 0 <= j < i ==> (#[trigger] shapes_of(shapes)[j]).len() > 0,
            decreases shapes.len() - i,
        {
            if shapes[i].len() == 0 {
                assert(shapes_of(shapes)[i as int].len() == 0);
                return None;
            }
            i += 1;
        }
        Some(Block { shapes, turn: 0, color })
    }

    /// The offsets of the cells in the present orientation.
    pub fn cells(&self) -> (cells: &Vec<(i32, i32)>)
        ensures
            cells@ == self@.cells(),
    {
        proof {
            use_type_invariant(self);
        }
        &self.shapes[self.turn]
    }

    pub fn color(&self) -> (color: ColorStyle)
        ensures
            color == self@.color,
    {
        self.color
    }

    /// The block in its next orientation.
    pub fn rotate(&self) -> (turned: Block)
        ensures
            turned@ == self@.rotated(),
    {
        proof {
            use_type_invariant(self);
        }
        let count = self.shapes.len();
        let turn: usize = if self.turn + 1 < count { self.turn + 1 } else { 0 };
        Block { shapes: copy_shapes(&self.shapes), turn, color: self.color }
    }
}

impl Clone for Block {
    fn clone(&self) -> (copy: Block)
        ensures
            copy@ == self@,
    {
        proof {
            use_type_invariant(self);
        }
        Block { shapes: copy_shapes(&self.shapes), turn: self.turn, color: self.color }
    }
}

impl Default for Block {
    fn default() -> (block: Block)
        ensures
            block@ == default_block(),
    {
        let mut shapes: Vec<Vec<(i32, i32)>> = Vec::with_capacity(4);
        shapes.push(vec![(-1, 0), (0, 0), (1, 0), (0, -1)]);
        shapes.push(vec![(0, -1), (0, 0), (0, 1), (1, 0)]);
        shapes.push(vec![(-1, 0), (0, 0), (1, 0), (0, 1)]);
        shapes.push(vec![(0, -1), (0, 0), (0, 1), (-1, 0)]);
        assert(shapes_of(shapes) =~~= default_shapes());
        Block { shapes, turn: 0, color: make_rgb_style(0, 0, 0, 160, 0, 240) }
    }
}

/// What a [`BlockWithPos`] is: a block and the column and row of its anchor.
pub struct PieceView {
    pub block: BlockView,
    pub x: int,
    pub y: int,
}

impl PieceView {
    /// The offsets of the cells in the present orientation.
    pub open spec fn cells(self) -> Seq<(i32, i32)> {
        self.block.cells()
    }

    /// Column and row of the `i`-th cell: the anchor plus the cell's offset.
    pub open spec fn cell(self, i: int) -> (int, int) {
        (self.x + self.cells()[i].0, self.y + self.cells()[i].1)
    }

    /// Whether one of the first `n` cells lies at column `x`, row `y`.
    pub open spec fn covers_upto(self, n: int, x: int, y: int) -> bool {
        exists|i: int| 0 <= i < n && #[trigger] self.cell(i) == (x, y)
    }

    /// Whether one of the cells lies at column `x`, row `y`.
    pub open spec fn covers(self, x: int, y: int) -> bool {
        self.covers_upto(self.cells().len() as int, x, y)
    }

    /// The piece with its anchor moved by `d`.
    pub open spec fn shifted(self, d: (int, int)) -> PieceView {
        PieceView { block: self.block, x: self.x + d.0, y: self.y + d.1 }
    }

    /// The piece `rows` rows further down.
    pub open spec fn lowered(self, rows: int) -> PieceView {
        PieceView { block: self.block, x: self.x, y: self.y + rows }
    }

    /// The piece in its next orientation, anchor unchanged.
    pub open spec fn rotated(self) -> PieceView {
        PieceView { block: self.block.rotated(), x: self.x, y: self.y }
    }
}

/// A piece at a place: a block and the position of its anchor. It is never
/// changed; a move or a turn makes a new one.
#[derive(Debug, PartialEq, Eq)]
pub struct BlockWithPos {
    pub block: Block,
    pub pos: Pos,
}

impl View for BlockWithPos {
    type V = PieceView;

    open spec fn view(&self) -> PieceView {
        PieceView { block: self.block@, x: self.pos.x as int, y: self.pos.y as int }
    }
}

impl BlockWithPos {
    pub fn new(block: Block, pos: Pos) -> (piece: BlockWithPos)
        ensures
            piece.block == block,
            piece.pos == pos,
    {
        BlockWithPos { block, pos }
    }

    /// Column and row of every cell, in the order of the block's offsets.
    pub fn cells(&self) -> (cells: Vec<(i128, i128)>)
        ensures
            cells@.len() == self@.cells().len(),
            forall|i: int|
                0 <= i < cells@.len() ==> (#[trigger] cells@[i].0 as int, cells@[i].1 as int)
                    == self@.cell(i),
    {
        let offsets = self.block.cells();
        let mut cells: Vec<(i128, i128)> = Vec::with_capacity(offsets.len());
        let mut i: usize = 0;
        while i < offsets.len()
            invariant
                i <= offsets.len(),
                offsets@ == self@.cells(),
                cells@.len() == i,
                forall|j: int|
                    0 <= j < i ==> (#[trigger] cells@[j].0 as int, cells@[j].1 as int)
                        == self@.cell(j),
            decreases offsets.len() - i,
        {
            let c = offsets[i];
            cells.push((self.pos.x as i128 + c.0 as i128, self.pos.y as i128 + c.1 as i128));
            i += 1;
        }
        cells
    }

    pub fn color(&self) -> (color: ColorStyle)
        ensures
            color == self@.block.color,
    {
        self.block.color()
    }
}

impl Clone for BlockWithPos {
    fn clone(&self) -> (copy: BlockWithPos)
        ensures
            copy@ == self@,
    {
        BlockWithPos { block: self.block.clone(), pos: self.pos }
    }
}

} // verus!

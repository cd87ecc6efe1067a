//! The board, its cells and the catalog of pieces.

use crate::model::{
    can_be_drawn, catalog, empty_grid, empty_row, glyph, grid_text, repainted, row_glyphs,
    shape_type_of_index, BoardView, Pos, ShapeView,
};
use rand::Rng;
use vstd::prelude::*;
use vstd::string::StringExecFns;

verus! {

/// What can go wrong at the library's surface.
#[derive(Debug, PartialEq, Eq, Structural)]
pub enum TetrisError {
    /// A board was asked for with a width outside 5..=20 or a height
    /// outside 10..=100.
    InvalidParam,
    /// A cell was asked for outside the grid.
    InvalidIndex,
}

/// State of one grid position.
#[derive(Debug, Copy, Clone, PartialEq, Eq, Structural)]
pub enum Cell {
    Empty,
    /// Part of the piece that is falling.
    Running,
    /// Settled for good.
    Placed,
}

/// The seven pieces, and `Random`, which stands for a draw among them.
#[derive(Debug, Copy, Clone, PartialEq, Eq, Structural)]
pub enum ShapeType {
    Square,
    S,
    Z,
    T,
    L,
    Line,
    MirroredL,
    Random,
}

/// Positions as the model sees them.
pub open spec fn pos_view(v: Seq<(usize, usize)>) -> Seq<Pos> {
    Seq::new(v.len(), |i: int| (v[i].0 as int, v[i].1 as int))
}

/// Offsets as the model sees them.
pub open spec fn offsets_view(v: Seq<(i32, i32)>) -> Seq<Pos> {
    Seq::new(v.len(), |i: int| (v[i].0 as int, v[i].1 as int))
}

/// A grid as the model sees it.
pub open spec fn grid_view(v: Seq<Vec<Cell>>) -> Seq<Seq<Cell>> {
    Seq::new(v.len(), |r: int| v[r]@)
}

/// A piece: its catalog data, and the grid positions it occupies while it
/// is the running piece of a board.
#[derive(Debug, Clone)]
pub struct Shape {
    data: Vec<(i32, i32)>,
    pub(crate) shape_type: ShapeType,
    pub(crate) height: usize,
    pub(crate) running_cells: Vec<(usize, usize)>,
    pub(crate) top_left_offset: Vec<(i32, i32)>,
}

impl View for Shape {
    type V = ShapeView;

    closed spec fn view(&self) -> ShapeView {
        ShapeView {
            data: offsets_view(self.data@),
            shape_type: self.shape_type,
            height: self.height as int,
            running_cells: pos_view(self.running_cells@),
            top_left_offset: offsets_view(self.top_left_offset@),
        }
    }
}

impl Shape {
    /// Whether the piece has the form of a catalog piece.
    pub fn is_valid(&self) -> (ok: bool)
        ensures
            ok == self@.valid(),
    {
        if self.data.len() != 4 || self.height < 2 || self.height > 4
            || self.top_left_offset.len() < 1 {
            return false;
        }
        let mut i: usize = 0;
        while i < self.data.len()
            invariant
                i <= self.data.len(),
                self.data.len() == 4,
                forall|k: int|
                    0 <= k < i ==> 0 <= (#[trigger] self@.data[k]).0 <= 3 && -2 <= self@.data[k].1
                        <= 2,
                forall|k: int, l: int| 0 <= k < l < i ==> self@.data[k] != self@.data[l],
            decreases self.data.len() - i,
        {
            let d = self.data[i];
            assert(self@.data[i as int] == (d.0 as int, d.1 as int));
            if d.0 < 0 || d.0 > 3 || d.1 < -2 || d.1 > 2 {
                return false;
            }
            let mut j: usize = 0;
            while j < i
                invariant
                    j <= i < self.data.len(),
                    self@.data[i as int] == (d.0 as int, d.1 as int),
                    forall|k: int| 0 <= k < j ==> self@.data[k] != self@.data[i as int],
                decreases i - j,
            {
                let e = self.data[j];
                assert(self@.data[j as int] == (e.0 as int, e.1 as int));
                if e.0 == d.0 && e.1 == d.1 {
                    return false;
                }
                j += 1;
            }
            i += 1;
        }
        let mut i: usize = 0;
        while i < self.top_left_offset.len()
            invariant
                i <= self.top_left_offset.len(),
                forall|k: int|
                    0 <= k < i ==> -4 <= (#[trigger] self@.top_left_offset[k]).0 <= 0 && -4
                        <= self@.top_left_offset[k].1 <= 0,
            decreases self.top_left_offset.len() - i,
        {
            let o = self.top_left_offset[i];
            assert(self@.top_left_offset[i as int] == (o.0 as int, o.1 as int));
            if o.0 < -4 || o.0 > 0 || o.1 < -4 || o.1 > 0 {
                return false;
            }
            i += 1;
        }
        true
    }

    /// The type of the piece.
    pub fn get_shape_type(&self) -> (t: ShapeType)
        ensures
            t == self@.shape_type,
    {
        self.shape_type
    }

    /// Side of the square window in which the piece turns.
    pub fn get_height(&self) -> (h: usize)
        ensures
            h == self@.height,
    {
        self.height
    }

    /// Offsets of the piece's cells from the spawn anchor.
    pub fn get_data(&self) -> (data: &Vec<(i32, i32)>)
        ensures
            offsets_view(data@) == self@.data,
    {
        &self.data
    }

    /// The offset corrections, the one in force first.
    pub fn get_top_left_offset(&self) -> (offsets: &Vec<(i32, i32)>)
        ensures
            offsets_view(offsets@) == self@.top_left_offset,
    {
        &self.top_left_offset
    }
}

/// A piece with the given catalog data that occupies no cell.
fn build_shape(
    data: Vec<(i32, i32)>,
    height: usize,
    shape_type: ShapeType,
    top_left_offset: Vec<(i32, i32)>,
) -> (shape: Shape)
    ensures
        shape@ == (ShapeView {
            data: offsets_view(data@),
            shape_type,
            height: height as int,
            running_cells: Seq::empty(),
            top_left_offset: offsets_view(top_left_offset@),
        }),
{
    let shape = Shape { data, height, shape_type, running_cells: Vec::new(), top_left_offset };
    assert(shape@.running_cells =~= Seq::empty());
    shape
}

/// Draws a number with `rand::Rng::gen_range` on the thread's generator
/// (`rand::thread_rng`). Claimed of it, and not proved: the number lies in
/// `low..high`. Which number comes is not stated. The outside function
/// panics unless `low < high`, which is therefore required.
#[verifier::external_body]
fn random_in_range(low: i32, high: i32) -> (n: i32)
    requires
        low < high,
    ensures
        low <= n < high,
{
    rand::thread_rng().gen_range(low, high)
}

/// The piece type behind the number of a draw; numbers beyond the pieces
/// stand for the square.
pub fn shape_type_from_index(n: i32) -> (t: ShapeType)
    ensures
        t == shape_type_of_index(n as int),
{
    match n {
        1 => ShapeType::S,
        2 => ShapeType::Z,
        3 => ShapeType::T,
        4 => ShapeType::L,
        5 => ShapeType::Line,
        6 => ShapeType::MirroredL,
        _ => ShapeType::Square,
    }
}

/// Draws a concrete piece type.
pub fn random_shape_type() -> (t: ShapeType)
    ensures
        can_be_drawn(t),
{
    let n: i32 = random_in_range(0, 6);
    shape_type_from_index(n)
}

/// The catalog entry of a piece type; for `Random`, that of a drawn type.
pub fn generate_shape(shape_type: ShapeType) -> (shape: Shape)
    ensures
        shape@.valid(),
        shape_type != ShapeType::Random ==> shape@ == catalog(shape_type),
        shape_type == ShapeType::Random ==> exists|t: ShapeType|
            can_be_drawn(t) && shape@ == catalog(t),
{
    let concrete = match shape_type {
        ShapeType::Random => random_shape_type(),
        _ => shape_type,
    };
    let shape = match concrete {
        ShapeType::S => build_shape(
            vec![(0, 0), (0, 1), (1, -1), (1, 0)],
            3,
            ShapeType::S,
            vec![(-1, -1), (0, -1), (0, -1), (0, 0)],
        ),
        ShapeType::Z => build_shape(
            vec![(0, 0), (0, -1), (1, 0), (1, 1)],
            3,
            ShapeType::Z,
            vec![(-1, 0), (0, -2), (0, 0), (0, -1)],
        ),
        ShapeType::T => build_shape(
            vec![(0, 0), (0, -1), (0, 1), (1, 0)],
            3,
            ShapeType::T,
            vec![(-1, 0), (0, -1), (0, -1), (0, -1)],
        ),
        ShapeType::L => build_shape(
            vec![(0, -1), (1, -1), (1, 0), (1, 1)],
            3,
            ShapeType::L,
            vec![(0, 0), (0, -1), (-1, 0), (0, -1)],
        ),
        ShapeType::Line => build_shape(
            vec![(0, 0), (1, 0), (2, 0), (3, 0)],
            4,
            ShapeType::Line,
            vec![(0, -2), (-2, 0), (0, -1), (-1, 0)],
        ),
        ShapeType::MirroredL => build_shape(
            vec![(0, 1), (1, 1), (1, 0), (1, -1)],
            3,
            ShapeType::MirroredL,
            vec![(0, -2), (0, 0), (-1, 0), (0, -1)],
        ),
        _ => build_shape(vec![(0, 0), (0, 1), (1, 0), (1, 1)], 2, ShapeType::Square, vec![(0, 0)]),
    };
    assert(shape@.data =~= catalog(concrete).data);
    assert(shape@.top_left_offset =~= catalog(concrete).top_left_offset);
    shape
}

/// Whether `piece` holds the position `(row, col)`.
pub fn holds_position(piece: &Vec<(usize, usize)>, row: usize, col: usize) -> (found: bool)
    ensures
        found == pos_view(piece@).contains((row as int, col as int)),
{
    let mut i: usize = 0;
    while i < piece.len()
        invariant
            i <= piece.len(),
            forall|k: int| 0 <= k < i ==> pos_view(piece@)[k] != (row as int, col as int),
        decreases piece.len() - i,
    {
        if piece[i].0 == row && piece[i].1 == col {
            assert(pos_view(piece@)[i as int] == (row as int, col as int));
            return true;
        }
        i += 1;
    }
    false
}

/// A row of `width` empty cells.
pub fn new_empty_row(width: usize) -> (row: Vec<Cell>)
    ensures
        row@ == empty_row(width as int),
{
    let mut row: Vec<Cell> = Vec::new();
    let mut c: usize = 0;
    while c < width
        invariant
            c <= width,
            row@ == empty_row(c as int),
        decreases width - c,
    {
        row.push(Cell::Empty);
        c += 1;
        assert(row@ =~= empty_row(c as int));
    }
    row
}

/// The grid with `piece` drawn on it as `Running` and every other
/// `Running` cell turned into `stale`.
pub fn repaint(cells: &Vec<Vec<Cell>>, piece: &Vec<(usize, usize)>, stale: Cell) -> (next: Vec<
    Vec<Cell>,
>)
    ensures
        grid_view(next@) == repainted(grid_view(cells@), pos_view(piece@), stale),
{
    let ghost goal = repainted(grid_view(cells@), pos_view(piece@), stale);
    let mut next: Vec<Vec<Cell>> = Vec::new();
    let mut r: usize = 0;
    while r < cells.len()
        invariant
            r <= cells.len(),
            next.len() == r,
            goal == repainted(grid_view(cells@), pos_view(piece@), stale),
            forall|i: int| 0 <= i < r ==> (#[trigger] next@[i])@ == goal[i],
        decreases cells.len() - r,
    {
        let row = &cells[r];
        let mut line: Vec<Cell> = Vec::new();
        let mut c: usize = 0;
        while c < row.len()
            invariant
                r < cells.len(),
                row@ == cells@[r as int]@,
                c <= row.len(),
                line.len() == c,
                goal == repainted(grid_view(cells@), pos_view(piece@), stale),
                forall|j: int| 0 <= j < c ==> #[trigger] line@[j] == goal[r as int][j],
            decreases row.len() - c,
        {
            let cell = if holds_position(piece, r, c) {
                Cell::Running
            } else if row[c] == Cell::Running {
                stale
            } else {
                row[c]
            };
            line.push(cell);
            c += 1;
        }
        assert(line@ =~= goal[r as int]);
        next.push(line);
        r += 1;
    }
    assert(grid_view(next@) =~= goal);
    next
}

/// Where `shape` appears on a grid of the given width: its offsets applied
/// to the anchor in the top row, at column `(width - 1) / 2`.
pub fn spawn_positions(width: usize, shape: &Shape) -> (cells: Vec<(usize, usize)>)
    requires
        5 <= width <= 20,
        shape@.valid(),
    ensures
        pos_view(cells@) == Seq::new(
            shape@.data.len(),
            |i: int| (shape@.data[i].0, (width as int - 1) / 2 + shape@.data[i].1),
        ),
{
    let ghost goal = Seq::new(
        shape@.data.len(),
        |i: int| (shape@.data[i].0, (width as int - 1) / 2 + shape@.data[i].1),
    );
    let mut cells: Vec<(usize, usize)> = Vec::new();
    let anchor: i32 = (width as i32 - 1) / 2;
    let mut i: usize = 0;
    while i < shape.data.len()
        invariant
            i <= shape.data.len(),
            shape@.valid(),
            5 <= width <= 20,
            anchor == (width as int - 1) / 2,
            goal == Seq::new(
                shape@.data.len(),
                |i: int| (shape@.data[i].0, (width as int - 1) / 2 + shape@.data[i].1),
            ),
            cells.len() == i,
            forall|k: int|
                0 <= k < i ==> ((#[trigger] cells@[k]).0 as int, cells@[k].1 as int) == goal[k],
        decreases shape.data.len() - i,
    {
        let delta = shape.data[i];
        assert(shape@.data[i as int] == (delta.0 as int, delta.1 as int));
        let x: usize = delta.0 as usize;
        let y: usize = (anchor + delta.1) as usize;
        cells.push((x, y));
        i += 1;
    }
    assert(pos_view(cells@) =~= goal);
    cells
}

/// The board: a grid of cells, the running piece, the score.
pub struct Board {
    width: usize,
    height: usize,
    cells: Vec<Vec<Cell>>,
    running_shape: Shape,
    next_shape_type: ShapeType,
    score: i32,
}

impl View for Board {
    type V = BoardView;

    closed spec fn view(&self) -> BoardView {
        BoardView {
            width: self.width as int,
            height: self.height as int,
            cells: grid_view(self.cells@),
            running_shape: self.running_shape@,
            next_shape_type: self.next_shape_type,
            score: self.score as int,
        }
    }
}

impl Board {
    /// A board of the given size on which a piece of the given type has
    /// appeared (for `Random`, of a drawn type). The width must lie in
    /// 5..=20 and the height in 10..=100.
    pub fn new_with(width: usize, height: usize, shape_type: ShapeType) -> (made: Result<
        Board,
        TetrisError,
    >)
        ensures
            made is Ok <==> 5 <= width <= 20 && 10 <= height <= 100,
            made is Err ==> made == Err::<Board, TetrisError>(TetrisError::InvalidParam),
            made is Ok ==> made->Ok_0@.wf(),
            made is Ok && shape_type != ShapeType::Random ==> made->Ok_0@ == BoardView::opening(
                width as int,
                height as int,
                shape_type,
            ),
            made is Ok && shape_type == ShapeType::Random ==> exists|t: ShapeType|
                can_be_drawn(t) && made->Ok_0@ == BoardView::opening(
                    width as int,
                    height as int,
                    t,
                ),
    {
        if width < 5 || width > 20 || height < 10 || height > 100 {
            return Err(TetrisError::InvalidParam);
        }
        let mut cells: Vec<Vec<Cell>> = Vec::new();
        let mut r: usize = 0;
        while r < height
            invariant
                r <= height,
                cells.len() == r,
                grid_view(cells@) == empty_grid(width as int, r as int),
            decreases height - r,
        {
            let ghost before = cells@;
            let row = new_empty_row(width);
            cells.push(row);
            r += 1;
            assert forall|i: int| 0 <= i < r implies grid_view(cells@)[i] == empty_row(
                width as int,
            ) by {
                if i < r - 1 {
                    assert(grid_view(before)[i] == empty_grid(width as int, r - 1)[i]);
                }
            }
            assert(grid_view(cells@) =~= empty_grid(width as int, r as int));
        }
        let mut shape = generate_shape(shape_type);
        let ghost entry = shape@;
        let running = spawn_positions(width, &shape);
        let painted = repaint(&cells, &running, Cell::Empty);
        shape.running_cells = running;
        let board = Board {
            width,
            height,
            cells: painted,
            running_shape: shape,
            next_shape_type: ShapeType::Random,
            score: 0,
        };
        proof {
            let start = BoardView {
                width: width as int,
                height: height as int,
                cells: empty_grid(width as int, height as int),
                running_shape: catalog(entry.shape_type),
                next_shape_type: ShapeType::Random,
                score: 0,
            };
            assert(entry == catalog(entry.shape_type));
            assert(board@ == start.spawned(entry));
            assert forall|i: int| 0 <= i < height implies (#[trigger] start.cells[i]).len()
                == width by {
                assert(start.cells[i] == empty_row(width as int));
            }
            crate::invariants::lemma_spawned_is_wf(start, entry);
        }
        Ok(board)
    }

    /// A board of the given size on which a piece of a drawn type has
    /// appeared. The width must lie in 5..=20 and the height in 10..=100.
    pub fn new(width: usize, height: usize) -> (made: Result<Board, TetrisError>)
        ensures
            made is Ok <==> 5 <= width <= 20 && 10 <= height <= 100,
            made is Err ==> made == Err::<Board, TetrisError>(TetrisError::InvalidParam),
            made is Ok ==> made->Ok_0@.wf(),
            made is Ok ==> exists|t: ShapeType|
                can_be_drawn(t) && made->Ok_0@ == BoardView::opening(
                    width as int,
                    height as int,
                    t,
                ),
    {
        Board::new_with(width, height, ShapeType::Random)
    }

    /// Number of columns.
    pub fn get_width(&self) -> (width: usize)
        ensures
            width == self@.width,
    {
        self.width
    }

    /// Number of rows.
    pub fn get_height(&self) -> (height: usize)
        ensures
            height == self@.height,
    {
        self.height
    }

    /// Points so far: one for each row cleared.
    pub fn get_score(&self) -> (score: i32)
        ensures
            score == self@.score,
    {
        self.score
    }

    /// The hint for the piece to come; `Random` until a caller sets it.
    pub fn get_next_shape_type(&self) -> (t: ShapeType)
        ensures
            t == self@.next_shape_type,
    {
        self.next_shape_type
    }

    /// The grid, row by row from the top.
    pub fn get_cells(&self) -> (cells: &Vec<Vec<Cell>>)
        ensures
            grid_view(cells@) == self@.cells,
    {
        &self.cells
    }

    /// Replaces the whole grid. Nothing else changes, so the board is
    /// valid afterwards only if the new grid has the board's dimensions.
    pub fn set_cells(&mut self, new_cells: Vec<Vec<Cell>>)
        ensures
            final(self)@ == (BoardView { cells: grid_view(new_cells@), ..old(self)@ }),
    {
        self.cells = new_cells;
    }

    /// The cell in row `x`, column `y`.
    pub fn get_cell(&self, x: usize, y: usize) -> (cell: Result<Cell, TetrisError>)
        requires
            self@.valid(),
        ensures
            cell == if x < self@.height && y < self@.width {
                Ok::<Cell, TetrisError>(self@.cells[x as int][y as int])
            } else {
                Err::<Cell, TetrisError>(TetrisError::InvalidIndex)
            },
    {
        if x < self.height && y < self.width {
            assert(self@.cells[x as int].len() == self.width);
            Ok(self.cells[x][y])
        } else {
            Err(TetrisError::InvalidIndex)
        }
    }

    /// Writes the cell in row `x`, column `y`. Nothing else changes.
    pub fn set_cell(&mut self, x: usize, y: usize, val: Cell) -> (done: Result<(), TetrisError>)
        requires
            old(self)@.valid(),
        ensures
            done == if x < old(self)@.height && y < old(self)@.width {
                Ok::<(), TetrisError>(())
            } else {
                Err::<(), TetrisError>(TetrisError::InvalidIndex)
            },
            done is Ok ==> final(self)@ == (BoardView {
                cells: old(self)@.cells.update(
                    x as int,
                    old(self)@.cells[x as int].update(y as int, val),
                ),
                ..old(self)@
            }),
            done is Err ==> final(self)@ == old(self)@,
    {
        if x < self.height && y < self.width {
            assert(self@.cells[x as int].len() == self.width);
            self.cells[x][y] = val;
            assert(grid_view(self.cells@) =~= old(self)@.cells.update(
                x as int,
                old(self)@.cells[x as int].update(y as int, val),
            ));
            Ok(())
        } else {
            Err(TetrisError::InvalidIndex)
        }
    }

    /// Replaces the score.
    pub fn set_score(&mut self, score: i32)
        ensures
            final(self)@ == (BoardView { score: score as int, ..old(self)@ }),
    {
        self.score = score;
    }

    /// The running piece.
    pub fn get_running_shape(&self) -> (shape: &Shape)
        ensures
            shape@ == self@.running_shape,
    {
        &self.running_shape
    }

    /// Replaces the running piece, its occupied cells included. The grid
    /// is left as it is.
    pub fn set_running_shape(&mut self, new_running_shape: Shape)
        ensures
            final(self)@ == (BoardView { running_shape: new_running_shape@, ..old(self)@ }),
    {
        self.running_shape = new_running_shape;
    }

    /// The cells that the running piece occupies.
    pub fn get_running_cells(&self) -> (cells: &Vec<(usize, usize)>)
        ensures
            pos_view(cells@) == self@.running_shape.running_cells,
    {
        &self.running_shape.running_cells
    }

    /// Replaces the list of occupied cells. The grid is left as it is.
    pub fn set_running_cells(&mut self, new_running_cells: Vec<(usize, usize)>)
        ensures
            final(self)@ == (BoardView {
                running_shape: ShapeView {
                    running_cells: pos_view(new_running_cells@),
                    ..old(self)@.running_shape
                },
                ..old(self)@
            }),
    {
        self.running_shape.running_cells = new_running_cells;
    }

    /// Replaces the hint for the piece to come.
    pub fn set_next_shape_type(&mut self, new_next_shape_type: ShapeType)
        ensures
            final(self)@ == (BoardView { next_shape_type: new_next_shape_type, ..old(self)@ }),
    {
        self.next_shape_type = new_next_shape_type;
    }

    /// Puts the next offset correction in force: the first moves to the
    /// back of the list.
    pub fn move_top_left_offset_array(&mut self)
        requires
            old(self)@.running_shape.top_left_offset.len() > 0,
        ensures
            final(self)@ == (BoardView {
                running_shape: ShapeView {
                    top_left_offset: crate::model::cycled(old(self)@.running_shape.top_left_offset),
                    ..old(self)@.running_shape
                },
                ..old(self)@
            }),
    {
        let first = self.running_shape.top_left_offset.remove(0);
        self.running_shape.top_left_offset.push(first);
        assert(offsets_view(self.running_shape.top_left_offset@) =~= crate::model::cycled(
            old(self)@.running_shape.top_left_offset,
        ));
    }

    /// Makes `shape` the running piece and lets it appear at the top of the
    /// grid, centred. The piece that was running leaves the grid; a
    /// settled cell under the new piece is overwritten.
    pub fn add_shape(&mut self, shape: Shape)
        requires
            old(self)@.valid(),
            shape@.valid(),
        ensures
            final(self)@ == old(self)@.spawned(shape@),
            final(self)@.wf(),
    {
        let next_running_cells = spawn_positions(self.width, &shape);
        let next = repaint(&self.cells, &next_running_cells, Cell::Empty);
        self.running_shape = shape;
        self.running_shape.running_cells = next_running_cells;
        self.cells = next;
        proof {
            crate::invariants::lemma_spawned_is_wf(old(self)@, shape@);
        }
    }

    /// Whether every cell of the `i`-th line of the grid, counted from the
    /// top, is in the given state.
    pub fn is_ith_column_all(&self, i: usize, state: Cell) -> (all: bool)
        requires
            self@.valid(),
            i < self@.height,
        ensures
            all == forall|c: int| 0 <= c < self@.width ==> self@.cells[i as int][c] == state,
    {
        assert(self@.cells[i as int].len() == self.width);
        let line = &self.cells[i];
        let mut c: usize = 0;
        while c < line.len()
            invariant
                c <= line.len(),
                line@ == self@.cells[i as int],
                line.len() == self@.width,
                forall|k: int| 0 <= k < c ==> line@[k] == state,
            decreases line.len() - c,
        {
            if line[c] != state {
                assert(self@.cells[i as int][c as int] != state);
                return false;
            }
            c += 1;
        }
        true
    }

    /// Whether no cell of the `i`-th line of the grid, counted from the
    /// top, is in the given state.
    pub fn is_ith_column_none(&self, i: usize, state: Cell) -> (none: bool)
        requires
            self@.valid(),
            i < self@.height,
        ensures
            none == forall|c: int| 0 <= c < self@.width ==> self@.cells[i as int][c] != state,
    {
        assert(self@.cells[i as int].len() == self.width);
        let line = &self.cells[i];
        let mut c: usize = 0;
        while c < line.len()
            invariant
                c <= line.len(),
                line@ == self@.cells[i as int],
                line.len() == self@.width,
                forall|k: int| 0 <= k < c ==> line@[k] != state,
            decreases line.len() - c,
        {
            if line[c] == state {
                assert(self@.cells[i as int][c as int] == state);
                return false;
            }
            c += 1;
        }
        true
    }

    /// Whether the `i`-th cell of every line of the grid, counted from the
    /// left, is in the given state.
    pub fn is_ith_row_all(&self, i: usize, state: Cell) -> (all: bool)
        requires
            self@.valid(),
            i < self@.width,
        ensures
            all == forall|r: int| 0 <= r < self@.height ==> self@.cells[r][i as int] == state,
    {
        let mut r: usize = 0;
        while r < self.cells.len()
            invariant
                self@.valid(),
                i < self@.width,
                r <= self.cells.len(),
                forall|k: int| 0 <= k < r ==> self@.cells[k][i as int] == state,
            decreases self.cells.len() - r,
        {
            assert(self@.cells[r as int].len() == self.width);
            if self.cells[r][i] != state {
                return false;
            }
            r += 1;
        }
        true
    }

    /// Whether the `i`-th cell of no line of the grid, counted from the
    /// left, is in the given state.
    pub fn is_ith_row_none(&self, i: usize, state: Cell) -> (none: bool)
        requires
            self@.valid(),
            i < self@.width,
        ensures
            none == forall|r: int| 0 <= r < self@.height ==> self@.cells[r][i as int] != state,
    {
        let mut r: usize = 0;
        while r < self.cells.len()
            invariant
                self@.valid(),
                i < self@.width,
                r <= self.cells.len(),
                forall|k: int| 0 <= k < r ==> self@.cells[k][i as int] != state,
            decreases self.cells.len() - r,
        {
            assert(self@.cells[r as int].len() == self.width);
            if self.cells[r][i] == state {
                return false;
            }
            r += 1;
        }
        true
    }

    /// The grid as text: one line per row, three characters per cell.
    pub fn render(&self) -> (text: String)
        ensures
            text@ == grid_text(self@.cells),
    {
        let mut text = String::new();
        let mut r: usize = 0;
        while r < self.cells.len()
            invariant
                r <= self.cells.len(),
                text@ == grid_text(self@.cells.take(r as int)),
            decreases self.cells.len() - r,
        {
            let line = &self.cells[r];
            let ghost before = text@;
            let mut c: usize = 0;
            while c < line.len()
                invariant
                    c <= line.len(),
                    text@ == before + row_glyphs(line@.take(c as int)),
                decreases line.len() - c,
            {
                proof {
                    reveal_strlit("|x|");
                    reveal_strlit("|*|");
                    reveal_strlit("| |");
                }
                let symbol = match line[c] {
                    Cell::Placed => "|x|",
                    Cell::Running => "|*|",
                    Cell::Empty => "| |",
                };
                assert(symbol@ =~= glyph(line@[c as int]));
                text.append(symbol);
                c += 1;
                assert(line@.take(c as int).drop_last() =~= line@.take(c - 1));
            }
            proof {
                reveal_strlit("\n");
            }
            text.append("\n");
            r += 1;
            assert(line@.take(c as int) =~= line@);
            assert(self@.cells.take(r as int).drop_last() =~= self@.cells.take(r - 1));
            assert("\n"@ =~= seq!['\n']);
        }
        assert(self@.cells.take(r as int) =~= self@.cells);
        text
    }

    /// Whether the board is valid: the dimensions lie in the accepted
    /// range, the grid has them, the running piece has the form of a
    /// catalog piece.
    pub fn is_valid(&self) -> (ok: bool)
        ensures
            ok == self@.valid(),
    {
        if self.width < 5 || self.width > 20 || self.height < 10 || self.height > 100
            || self.cells.len() != self.height {
            return false;
        }
        let mut r: usize = 0;
        while r < self.cells.len()
            invariant
                r <= self.cells.len(),
                self.cells.len() == self.height,
                forall|k: int| 0 <= k < r ==> (#[trigger] self@.cells[k]).len() == self.width,
            decreases self.cells.len() - r,
        {
            if self.cells[r].len() != self.width {
                assert(self@.cells[r as int].len() != self.width);
                return false;
            }
            r += 1;
        }
        self.running_shape.is_valid()
    }

    /// Whether the engine can work on the board: it is valid and the
    /// running piece lies on the grid.
    pub fn is_playable(&self) -> (ok: bool)
        ensures
            ok == self@.playable(),
    {
        if !self.is_valid() {
            return false;
        }
        let running = &self.running_shape.running_cells;
        let mut i: usize = 0;
        while i < running.len()
            invariant
                i <= running.len(),
                pos_view(running@) == self@.occupied(),
                forall|k: int| 0 <= k < i ==> self@.in_grid(#[trigger] self@.occupied()[k]),
            decreases running.len() - i,
        {
            let p = running[i];
            assert(self@.occupied()[i as int] == (p.0 as int, p.1 as int));
            if p.0 >= self.height || p.1 >= self.width {
                return false;
            }
            i += 1;
        }
        true
    }

    /// Whether the board is in a state of the game: it is playable, no
    /// piece is running or all four cells of one are, the occupied cells
    /// are distinct, and they are exactly the `Running` cells of the grid.
    pub fn is_well_formed(&self) -> (ok: bool)
        ensures
            ok == self@.wf(),
    {
        if !self.is_playable() {
            return false;
        }
        let running = &self.running_shape.running_cells;
        assert(self@.occupied().len() == running.len());
        assert(self@.running_shape.data.len() == self.running_shape.data.len());
        if running.len() != 0 && running.len() != self.running_shape.data.len() {
            return false;
        }
        let mut i: usize = 0;
        while i < running.len()
            invariant
                i <= running.len(),
                pos_view(running@) == self@.occupied(),
                forall|k: int, l: int|
                    0 <= k < l < i ==> self@.occupied()[k] != self@.occupied()[l],
            decreases running.len() - i,
        {
            let p = running[i];
            assert(self@.occupied()[i as int] == (p.0 as int, p.1 as int));
            let mut j: usize = 0;
            while j < i
                invariant
                    j <= i < running.len(),
                    pos_view(running@) == self@.occupied(),
                    self@.occupied()[i as int] == (p.0 as int, p.1 as int),
                    forall|k: int| 0 <= k < j ==> self@.occupied()[k] != self@.occupied()[i as int],
                decreases i - j,
            {
                let q = running[j];
                assert(self@.occupied()[j as int] == (q.0 as int, q.1 as int));
                if q.0 == p.0 && q.1 == p.1 {
                    return false;
                }
                j += 1;
            }
            i += 1;
        }
        assert(self@.occupied().no_duplicates());
        let mut r: usize = 0;
        while r < self.height
            invariant
                r <= self.height,
                self@.playable(),
                pos_view(running@) == self@.occupied(),
                forall|k: int, c: int|
                    0 <= k < r && 0 <= c < self.width ==> (#[trigger] self@.cells[k][c]
                        == Cell::Running <==> self@.occupied().contains((k, c))),
            decreases self.height - r,
        {
            assert(self@.cells[r as int].len() == self.width);
            let mut c: usize = 0;
            while c < self.width
                invariant
                    r < self.height,
                    c <= self.width,
                    self@.playable(),
                    self@.cells[r as int].len() == self.width,
                    pos_view(running@) == self@.occupied(),
                    forall|k: int, c: int|
                        0 <= k < r && 0 <= c < self.width ==> (#[trigger] self@.cells[k][c]
                            == Cell::Running <==> self@.occupied().contains((k, c))),
                    forall|d: int|
                        0 <= d < c ==> (#[trigger] self@.cells[r as int][d] == Cell::Running
                            <==> self@.occupied().contains((r as int, d))),
                decreases self.width - c,
            {
                let marked = self.cells[r][c] == Cell::Running;
                if marked != holds_position(running, r, c) {
                    assert(!(self@.cells[r as int][c as int] == Cell::Running
                        <==> self@.occupied().contains((r as int, c as int))));
                    return false;
                }
                c += 1;
            }
            r += 1;
        }
        true
    }
}

} // verus!

//! The mathematical model of the game: what a board is, and what each
//! operation of the engine makes of it.

use crate::tetris::{Cell, ShapeType};
use vstd::prelude::*;

verus! {

/// A grid position or an offset between positions: `(row, column)`.
/// Row 0 is the top of the grid.
pub type Pos = (int, int);

/// Model of a piece: its catalog data and the grid positions it occupies.
pub struct ShapeView {
    /// Offsets of the piece's cells from the spawn anchor (top row, centre).
    pub data: Seq<Pos>,
    pub shape_type: ShapeType,
    /// Side of the square window in which the piece turns.
    pub height: int,
    /// Grid positions that the piece occupies at the moment.
    pub running_cells: Seq<Pos>,
    /// Corrections from the least occupied cell to the window's top-left
    /// corner, one per quarter turn; the first is the one in force.
    pub top_left_offset: Seq<Pos>,
}

/// Model of a board.
pub struct BoardView {
    pub width: int,
    pub height: int,
    /// `cells[row][column]`.
    pub cells: Seq<Seq<Cell>>,
    pub running_shape: ShapeView,
    pub next_shape_type: ShapeType,
    pub score: int,
}

/// Row-major order on positions.
pub open spec fn pos_before(a: Pos, b: Pos) -> bool {
    a.0 < b.0 || (a.0 == b.0 && a.1 < b.1)
}

/// The sequence lists its positions in strictly increasing row-major order.
pub open spec fn row_major(s: Seq<Pos>) -> bool {
    forall|i: int, j: int| 0 <= i < j < s.len() ==> pos_before(#[trigger] s[i], #[trigger] s[j])
}

/// A row of `width` empty cells.
pub open spec fn empty_row(width: int) -> Seq<Cell> {
    Seq::new(width as nat, |c: int| Cell::Empty)
}

/// `rows` rows of `width` empty cells.
pub open spec fn empty_grid(width: int, rows: int) -> Seq<Seq<Cell>> {
    Seq::new(rows as nat, |r: int| empty_row(width))
}

/// Every cell of the row is `Placed`.
pub open spec fn row_is_full(row: Seq<Cell>) -> bool {
    forall|c: int| 0 <= c < row.len() ==> row[c] == Cell::Placed
}

/// The rows that are not full, in their order.
pub open spec fn rows_to_keep(cells: Seq<Seq<Cell>>) -> Seq<Seq<Cell>> {
    cells.filter(|row: Seq<Cell>| !row_is_full(row))
}

/// The grid with `piece` drawn on it as `Running` and every other
/// `Running` cell turned into `stale`.
pub open spec fn repainted(cells: Seq<Seq<Cell>>, piece: Seq<Pos>, stale: Cell) -> Seq<Seq<Cell>> {
    Seq::new(
        cells.len(),
        |r: int|
            Seq::new(
                cells[r].len(),
                |c: int|
                    if piece.contains((r, c)) {
                        Cell::Running
                    } else if cells[r][c] == Cell::Running {
                        stale
                    } else {
                        cells[r][c]
                    },
            ),
    )
}

/// The three characters that show a cell.
pub open spec fn glyph(cell: Cell) -> Seq<char> {
    match cell {
        Cell::Placed => seq!['|', 'x', '|'],
        Cell::Running => seq!['|', '*', '|'],
        Cell::Empty => seq!['|', ' ', '|'],
    }
}

/// The glyphs of a row's cells, one after the other.
pub open spec fn row_glyphs(row: Seq<Cell>) -> Seq<char>
    decreases row.len(),
{
    if row.len() == 0 {
        Seq::empty()
    } else {
        row_glyphs(row.drop_last()) + glyph(row.last())
    }
}

/// The grid as text: one line per row from the top, three characters per
/// cell, a line feed after each row.
pub open spec fn grid_text(cells: Seq<Seq<Cell>>) -> Seq<char>
    decreases cells.len(),
{
    if cells.len() == 0 {
        Seq::empty()
    } else {
        grid_text(cells.drop_last()) + row_glyphs(cells.last()) + seq!['\n']
    }
}

/// The concrete piece types, those that have a catalog entry.
pub open spec fn is_concrete(t: ShapeType) -> bool {
    t != ShapeType::Random
}

/// The piece types that a random draw can give.
pub open spec fn can_be_drawn(t: ShapeType) -> bool {
    t == ShapeType::Square || t == ShapeType::S || t == ShapeType::Z || t == ShapeType::T
        || t == ShapeType::L || t == ShapeType::Line
}

/// The piece type that stands behind the number of a draw.
pub open spec fn shape_type_of_index(n: int) -> ShapeType {
    if n == 1 {
        ShapeType::S
    } else if n == 2 {
        ShapeType::Z
    } else if n == 3 {
        ShapeType::T
    } else if n == 4 {
        ShapeType::L
    } else if n == 5 {
        ShapeType::Line
    } else if n == 6 {
        ShapeType::MirroredL
    } else {
        ShapeType::Square
    }
}

/// The catalog: cell offsets, window side and offset corrections of each
/// concrete piece type. A catalog entry occupies no grid position yet.
/// `Random` has no entry of its own; asked for it, the catalog gives the
/// square's.
pub open spec fn catalog(t: ShapeType) -> ShapeView {
    match t {
        ShapeType::S => ShapeView {
            data: seq![(0int, 0int), (0int, 1int), (1int, -1int), (1int, 0int)],
            shape_type: ShapeType::S,
            height: 3,
            running_cells: Seq::empty(),
            top_left_offset: seq![(-1int, -1int), (0int, -1int), (0int, -1int), (0int, 0int)],
        },
        ShapeType::Z => ShapeView {
            data: seq![(0int, 0int), (0int, -1int), (1int, 0int), (1int, 1int)],
            shape_type: ShapeType::Z,
            height: 3,
            running_cells: Seq::empty(),
            top_left_offset: seq![(-1int, 0int), (0int, -2int), (0int, 0int), (0int, -1int)],
        },
        ShapeType::T => ShapeView {
            data: seq![(0int, 0int), (0int, -1int), (0int, 1int), (1int, 0int)],
            shape_type: ShapeType::T,
            height: 3,
            running_cells: Seq::empty(),
            top_left_offset: seq![(-1int, 0int), (0int, -1int), (0int, -1int), (0int, -1int)],
        },
        ShapeType::L => ShapeView {
            data: seq![(0int, -1int), (1int, -1int), (1int, 0int), (1int, 1int)],
            shape_type: ShapeType::L,
            height: 3,
            running_cells: Seq::empty(),
            top_left_offset: seq![(0int, 0int), (0int, -1int), (-1int, 0int), (0int, -1int)],
        },
        ShapeType::Line => ShapeView {
            data: seq![(0int, 0int), (1int, 0int), (2int, 0int), (3int, 0int)],
            shape_type: ShapeType::Line,
            height: 4,
            running_cells: Seq::empty(),
            top_left_offset: seq![(0int, -2int), (-2int, 0int), (0int, -1int), (-1int, 0int)],
        },
        ShapeType::MirroredL => ShapeView {
            data: seq![(0int, 1int), (1int, 1int), (1int, 0int), (1int, -1int)],
            shape_type: ShapeType::MirroredL,
            height: 3,
            running_cells: Seq::empty(),
            top_left_offset: seq![(0int, -2int), (0int, 0int), (-1int, 0int), (0int, -1int)],
        },
        _ => ShapeView {
            data: seq![(0int, 0int), (0int, 1int), (1int, 0int), (1int, 1int)],
            shape_type: ShapeType::Square,
            height: 2,
            running_cells: Seq::empty(),
            top_left_offset: seq![(0int, 0int)],
        },
    }
}

impl ShapeView {
    /// What every piece of the catalog satisfies: four distinct cells near
    /// the anchor, a window of side 2 to 4, at least one offset correction,
    /// each of them leading up and to the left by no more than a window.
    pub open spec fn valid(self) -> bool {
        &&& self.data.len() == 4
        &&& self.data.no_duplicates()
        &&& forall|i: int|
            0 <= i < self.data.len() ==> 0 <= (#[trigger] self.data[i]).0 <= 3 && -2
                <= self.data[i].1 <= 2
        &&& 2 <= self.height <= 4
        &&& self.top_left_offset.len() >= 1
        &&& forall|i: int|
            0 <= i < self.top_left_offset.len() ==> -4 <= (#[trigger] self.top_left_offset[i]).0
                <= 0 && -4 <= self.top_left_offset[i].1 <= 0
    }
}

/// Every position of `s` moved by `(dr, dc)`.
pub open spec fn shift(s: Seq<Pos>, dr: int, dc: int) -> Seq<Pos> {
    Seq::new(s.len(), |i: int| (s[i].0 + dr, s[i].1 + dc))
}

/// The sequence with its first entry moved to the back.
pub open spec fn cycled(s: Seq<Pos>) -> Seq<Pos> {
    s.drop_first().push(s[0])
}

/// Where a quarter turn in the window of the given corner and side takes
/// the cell `p`.
pub open spec fn turn_target(p: Pos, corner: Pos, side: int) -> Pos {
    (corner.0 + side - 1 - (p.1 - corner.1), corner.1 + (p.0 - corner.0))
}

/// `m` is the first position of `s` in row-major order.
pub open spec fn is_least(s: Seq<Pos>, m: Pos) -> bool {
    &&& s.contains(m)
    &&& forall|i: int| 0 <= i < s.len() ==> !pos_before(#[trigger] s[i], m)
}

impl BoardView {
    /// The cells that the running piece occupies.
    pub open spec fn occupied(self) -> Seq<Pos> {
        self.running_shape.running_cells
    }

    /// The position lies on the grid.
    pub open spec fn in_grid(self, p: Pos) -> bool {
        0 <= p.0 < self.height && 0 <= p.1 < self.width
    }

    /// The state of the cell at the position.
    pub open spec fn at(self, p: Pos) -> Cell {
        self.cells[p.0][p.1]
    }

    /// The grid has the stated dimensions, these lie in the accepted
    /// range, and the running piece's data is that of a catalog piece.
    pub open spec fn valid(self) -> bool {
        &&& 5 <= self.width <= 20
        &&& 10 <= self.height <= 100
        &&& self.cells.len() == self.height
        &&& forall|r: int| 0 <= r < self.height ==> (#[trigger] self.cells[r]).len() == self.width
        &&& self.running_shape.valid()
    }

    /// A valid board whose running piece lies on the grid. The engine works
    /// on every such board.
    pub open spec fn playable(self) -> bool {
        &&& self.valid()
        &&& forall|i: int|
            0 <= i < self.occupied().len() ==> self.in_grid(#[trigger] self.occupied()[i])
    }

    /// The grid and the list of occupied cells agree: a cell is `Running`
    /// exactly if the list holds its position.
    pub open spec fn consistent(self) -> bool {
        forall|r: int, c: int|
            0 <= r < self.height && 0 <= c < self.width ==> (#[trigger] self.cells[r][c]
                == Cell::Running <==> self.occupied().contains((r, c)))
    }

    /// A playable board in a state of the game: no piece is running or
    /// all four cells of one are, the occupied cells are distinct, and they
    /// are exactly the `Running` cells of the grid.
    pub open spec fn wf(self) -> bool {
        &&& self.playable()
        &&& self.occupied().len() == 0 || self.occupied().len() == self.running_shape.data.len()
        &&& self.occupied().no_duplicates()
        &&& self.consistent()
    }

    /// The board with the running piece at `cells`: the grid is redrawn,
    /// the list of occupied cells replaced.
    pub open spec fn with_piece_at(self, cells: Seq<Pos>) -> BoardView {
        BoardView {
            cells: repainted(self.cells, cells, Cell::Empty),
            running_shape: ShapeView { running_cells: cells, ..self.running_shape },
            ..self
        }
    }

    // ---- spawn

    /// Where a piece with the given data appears: its offsets applied to
    /// the anchor in the top row, at column `(width - 1) / 2`.
    pub open spec fn spawn_cells(self, shape: ShapeView) -> Seq<Pos> {
        Seq::new(
            shape.data.len(),
            |i: int| (shape.data[i].0, (self.width - 1) / 2 + shape.data[i].1),
        )
    }

    /// The board after `shape` has become the running piece at the top.
    /// A settled cell under it is overwritten.
    pub open spec fn spawned(self, shape: ShapeView) -> BoardView {
        BoardView {
            cells: repainted(self.cells, self.spawn_cells(shape), Cell::Empty),
            running_shape: ShapeView { running_cells: self.spawn_cells(shape), ..shape },
            ..self
        }
    }

    /// The board a game starts with: an empty grid on which a piece of type
    /// `t` has appeared, no score, the next piece left to chance.
    pub open spec fn opening(width: int, height: int, t: ShapeType) -> BoardView {
        BoardView {
            width,
            height,
            cells: empty_grid(width, height),
            running_shape: catalog(t),
            next_shape_type: ShapeType::Random,
            score: 0,
        }.spawned(catalog(t))
    }

    // ---- gravity

    /// There is a running piece and each of its cells has a cell below it
    /// that is not settled.
    pub open spec fn can_fall(self) -> bool {
        &&& self.occupied().len() > 0
        &&& forall|i: int|
            0 <= i < self.occupied().len() ==> {
                let p = #[trigger] self.occupied()[i];
                p.0 + 1 < self.height && self.cells[p.0 + 1][p.1] != Cell::Placed
            }
    }

    /// The board after the running piece has settled: every `Running` cell
    /// is `Placed`, no cell is occupied.
    pub open spec fn settled(self) -> BoardView {
        BoardView {
            cells: repainted(self.cells, Seq::empty(), Cell::Placed),
            running_shape: ShapeView { running_cells: Seq::empty(), ..self.running_shape },
            ..self
        }
    }

    /// The board after one step of gravity: without a running piece
    /// nothing happens; a piece that can fall moves down one row; a piece
    /// that cannot settles.
    pub open spec fn dropped(self) -> BoardView {
        if self.occupied().len() == 0 {
            self
        } else if self.can_fall() {
            self.with_piece_at(shift(self.occupied(), 1, 0))
        } else {
            self.settled()
        }
    }

    /// The board after the piece has fallen as far as it can and settled.
    pub open spec fn hard_dropped(self) -> BoardView
        decreases
            (if self.occupied().len() > 0 {
                self.height - self.occupied()[0].0
            } else {
                0
            }),
    {
        if self.can_fall() {
            self.dropped().hard_dropped()
        } else {
            self.dropped()
        }
    }

    // ---- sideways

    /// The running piece can move one column to the left (`dc == -1`) or to
    /// the right (`dc == 1`): no `Running` cell stands in the column at
    /// that wall, and each occupied cell has a neighbour on that side that
    /// is on the grid and not settled.
    pub open spec fn can_shift(self, dc: int) -> bool {
        &&& self.occupied().len() > 0
        &&& forall|r: int|
            0 <= r < self.height ==> (#[trigger] self.cells[r])[if dc < 0 {
                0
            } else {
                self.width - 1
            }] != Cell::Running
        &&& forall|i: int|
            0 <= i < self.occupied().len() ==> {
                let p = #[trigger] self.occupied()[i];
                0 <= p.1 + dc < self.width && self.cells[p.0][p.1 + dc] != Cell::Placed
            }
    }

    /// The board after a move to the side: every cell of the piece one
    /// column further, or nothing changed if the piece cannot move.
    pub open spec fn shifted(self, dc: int) -> BoardView {
        if self.can_shift(dc) {
            self.with_piece_at(shift(self.occupied(), 0, dc))
        } else {
            self
        }
    }

    // ---- quarter turn

    /// The first occupied cell in row-major order.
    pub open spec fn least_occupied(self) -> Pos {
        choose|m: Pos| is_least(self.occupied(), m)
    }

    /// Top-left corner of the window in which the piece turns: the least
    /// occupied cell plus the offset in force, wrapped to the grid.
    pub open spec fn window_corner(self) -> Pos {
        let m = self.least_occupied();
        let off = self.running_shape.top_left_offset[0];
        ((m.0 + off.0) % self.height, (m.1 + off.1) % self.width)
    }

    /// The position lies in the window: the square of the piece's side
    /// at the window's corner.
    pub open spec fn in_window(self, q: Pos) -> bool {
        let w = self.window_corner();
        let h = self.running_shape.height;
        w.0 <= q.0 < w.0 + h && w.1 <= q.1 < w.1 + h
    }

    /// The cell that a quarter turn carries to `q`.
    pub open spec fn turn_source(self, q: Pos) -> Pos {
        let w = self.window_corner();
        let h = self.running_shape.height;
        (w.0 + (q.1 - w.1), w.1 + h - 1 - (q.0 - w.0))
    }

    /// A quarter turn makes `q` a cell of the piece: `q` lies in the window
    /// and the cell carried to it is `Running`.
    pub open spec fn turn_fills(self, q: Pos) -> bool {
        self.in_window(q) && self.at(self.turn_source(q)) == Cell::Running
    }

    /// The piece can turn: there is one, its window lies on the grid and
    /// holds all of it, and none of the cells it would fill is settled.
    pub open spec fn can_turn(self) -> bool {
        &&& self.occupied().len() > 0
        &&& self.window_corner().0 + self.running_shape.height <= self.height
        &&& self.window_corner().1 + self.running_shape.height <= self.width
        &&& forall|i: int|
            0 <= i < self.occupied().len() ==> self.in_window(#[trigger] self.occupied()[i])
        &&& forall|q: Pos| #[trigger] self.turn_fills(q) ==> self.at(q) != Cell::Placed
    }

    /// `cells` lists the cells that a quarter turn fills, each once, row by
    /// row from the top and from left to right in a row.
    pub open spec fn turned_piece(self, cells: Seq<Pos>) -> bool {
        &&& row_major(cells)
        &&& forall|q: Pos|
            #![trigger cells.contains(q)]
            #![trigger self.turn_fills(q)]
            cells.contains(q) <==> self.turn_fills(q)
    }

    /// `next` is the board after a quarter turn: if the piece can turn, it
    /// occupies the turned cells and the next offset correction is in
    /// force; if it cannot, nothing has changed.
    pub open spec fn turns_into(self, next: BoardView) -> bool {
        if self.can_turn() {
            &&& self.turned_piece(next.occupied())
            &&& next == BoardView {
                cells: repainted(self.cells, next.occupied(), Cell::Empty),
                running_shape: ShapeView {
                    running_cells: next.occupied(),
                    top_left_offset: cycled(self.running_shape.top_left_offset),
                    ..self.running_shape
                },
                ..self
            }
        } else {
            next == self
        }
    }

    // ---- full rows

    /// The rows that are not full, in their order.
    pub open spec fn kept_rows(self) -> Seq<Seq<Cell>> {
        rows_to_keep(self.cells)
    }

    /// Number of full rows.
    pub open spec fn full_rows(self) -> int {
        self.cells.len() - self.kept_rows().len()
    }

    /// The board after the full rows have been taken out: the other rows
    /// keep their order and move down, as many empty rows come in at the
    /// top.
    pub open spec fn cleared(self) -> BoardView {
        BoardView { cells: empty_grid(self.width, self.full_rows()) + self.kept_rows(), ..self }
    }

    // ---- a frame

    /// A settled cell stands in the top row.
    pub open spec fn top_row_taken(self) -> bool {
        exists|c: int| 0 <= c < self.width && #[trigger] self.cells[0][c] == Cell::Placed
    }

    /// The game is over: no piece is running and the top row holds a
    /// settled cell.
    pub open spec fn game_over(self) -> bool {
        self.occupied().len() == 0 && self.top_row_taken()
    }

    /// Whether the game goes on after the next frame: the piece falls, or
    /// it stops and leaves the top row free.
    pub open spec fn goes_on(self) -> bool {
        self.can_fall() || !self.dropped().top_row_taken()
    }

    /// The board after one frame in which `drawn` is the piece type that
    /// comes next. A piece that can fall falls, and that is all. Otherwise
    /// it settles; if the top row is then taken the game is over; if not,
    /// full rows are cleared, each counts one point, and a piece of type
    /// `drawn` appears.
    pub open spec fn ticked(self, drawn: ShapeType) -> BoardView {
        if self.can_fall() || self.dropped().top_row_taken() {
            self.dropped()
        } else {
            let rest = self.dropped();
            BoardView { score: rest.score + rest.full_rows(), ..rest.cleared() }.spawned(
                catalog(drawn),
            )
        }
    }
}

} // verus!

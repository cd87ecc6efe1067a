//! The moves of the game: gravity, moves to the side, quarter turns, the
//! clearing of full rows, and the frame that ties them together.

use crate::invariants::{
    lemma_cleared_keeps_valid, lemma_dropped_keeps_playable, lemma_least_is_unique,
    lemma_push_contains, lemma_rows_to_keep_push, lemma_shifted_keeps_playable,
    lemma_spawned_is_wf, lemma_turn_keeps_playable,
};
use crate::model::{
    can_be_drawn, empty_grid, empty_row, is_least, pos_before, row_major, rows_to_keep, shift,
    Pos,
};
use crate::tetris::{
    generate_shape, grid_view, new_empty_row, pos_view, repaint, Board, Cell, ShapeType,
};
use vstd::prelude::*;

verus! {

/// Where a move takes the running piece.
#[derive(Debug, Copy, Clone, PartialEq, Eq, Structural)]
pub enum Direction {
    Left,
    Right,
    /// All the way down, until the piece settles.
    Down,
}

/// Every position of `cells` moved by `(dr, dc)`.
fn moved_by(cells: &Vec<(usize, usize)>, dr: i32, dc: i32) -> (moved: Vec<(usize, usize)>)
    requires
        forall|i: int|
            0 <= i < cells.len() ==> 0 <= (#[trigger] cells@[i]).0 + dr < i32::MAX && 0
                <= cells@[i].1 + dc < i32::MAX && cells@[i].0 < i32::MAX && cells@[i].1
                < i32::MAX,
    ensures
        pos_view(moved@) == shift(pos_view(cells@), dr as int, dc as int),
{
    let mut moved: Vec<(usize, usize)> = Vec::new();
    let mut i: usize = 0;
    while i < cells.len()
        invariant
            i <= cells.len(),
            moved.len() == i,
            forall|i: int|
                0 <= i < cells.len() ==> 0 <= (#[trigger] cells@[i]).0 + dr < i32::MAX && 0
                    <= cells@[i].1 + dc < i32::MAX && cells@[i].0 < i32::MAX && cells@[i].1
                    < i32::MAX,
            forall|k: int|
                0 <= k < i ==> (#[trigger] moved@[k]).0 == cells@[k].0 + dr && moved@[k].1
                    == cells@[k].1 + dc,
        decreases cells.len() - i,
    {
        let p = cells[i];
        let row: usize = (p.0 as i32 + dr) as usize;
        let col: usize = (p.1 as i32 + dc) as usize;
        moved.push((row, col));
        i += 1;
    }
    assert(pos_view(moved@) =~= shift(pos_view(cells@), dr as int, dc as int));
    moved
}

/// The first of the positions in row-major order.
fn least_position(cells: &Vec<(usize, usize)>) -> (least: (usize, usize))
    requires
        cells.len() > 0,
    ensures
        is_least(pos_view(cells@), (least.0 as int, least.1 as int)),
{
    let mut least = cells[0];
    let mut i: usize = 1;
    assert(pos_view(cells@)[0] == (least.0 as int, least.1 as int));
    while i < cells.len()
        invariant
            1 <= i <= cells.len(),
            pos_view(cells@).contains((least.0 as int, least.1 as int)),
            forall|k: int|
                0 <= k < i ==> !pos_before(
                    #[trigger] pos_view(cells@)[k],
                    (least.0 as int, least.1 as int),
                ),
        decreases cells.len() - i,
    {
        let p = cells[i];
        assert(pos_view(cells@)[i as int] == (p.0 as int, p.1 as int));
        if p.0 < least.0 || (p.0 == least.0 && p.1 < least.1) {
            least = p;
        }
        i += 1;
    }
    least
}

/// `base + offset`, wrapped into `0..modulus`.
fn wrapped(base: usize, offset: i32, modulus: usize) -> (at: usize)
    requires
        base < modulus <= 100,
        -4 <= offset <= 0,
        5 <= modulus,
    ensures
        at == (base + offset) % (modulus as int),
{
    let turn: usize = ((offset + modulus as i32) as usize) % modulus;
    proof {
        let m = modulus as int;
        vstd::arithmetic::div_mod::lemma_add_mod_noop(base as int, offset + m, m);
        vstd::arithmetic::div_mod::lemma_small_mod(base as nat, modulus as nat);
        vstd::arithmetic::div_mod::lemma_mod_add_multiples_vanish(base + offset, m);
        assert(base + (offset + m) == m + (base + offset));
    }
    (base + turn) % modulus
}

/// Whether every position lies in the square of the given side whose
/// top-left corner is `(top, left)`.
fn all_in_square(cells: &Vec<(usize, usize)>, top: usize, left: usize, side: usize) -> (all: bool)
    requires
        top + side <= usize::MAX,
        left + side <= usize::MAX,
    ensures
        all == forall|i: int|
            0 <= i < cells.len() ==> {
                let p = #[trigger] pos_view(cells@)[i];
                top <= p.0 < top + side && left <= p.1 < left + side
            },
{
    let mut i: usize = 0;
    while i < cells.len()
        invariant
            i <= cells.len(),
            top + side <= usize::MAX,
            left + side <= usize::MAX,
            forall|k: int|
                0 <= k < i ==> {
                    let p = #[trigger] pos_view(cells@)[k];
                    top <= p.0 < top + side && left <= p.1 < left + side
                },
        decreases cells.len() - i,
    {
        let p = cells[i];
        assert(pos_view(cells@)[i as int] == (p.0 as int, p.1 as int));
        if p.0 < top || p.0 >= top + side || p.1 < left || p.1 >= left + side {
            return false;
        }
        i += 1;
    }
    true
}

impl Board {
    /// Whether the running piece can fall by one row.
    fn piece_can_fall(&self) -> (can: bool)
        requires
            self@.playable(),
        ensures
            can == self@.can_fall(),
    {
        let cells = self.get_cells();
        let running = self.get_running_cells();
        if running.is_empty() {
            return false;
        }
        let mut i: usize = 0;
        while i < running.len()
            invariant
                i <= running.len(),
                self@.playable(),
                grid_view(cells@) == self@.cells,
                pos_view(running@) == self@.occupied(),
                forall|k: int|
                    0 <= k < i ==> {
                        let p = #[trigger] self@.occupied()[k];
                        p.0 + 1 < self@.height && self@.cells[p.0 + 1][p.1] != Cell::Placed
                    },
            decreases running.len() - i,
        {
            let p = running[i];
            assert(self@.occupied()[i as int] == (p.0 as int, p.1 as int));
            assert(self@.in_grid(self@.occupied()[i as int]));
            if p.0 + 1 >= cells.len() {
                return false;
            }
            assert(self@.cells[p.0 + 1].len() == self@.width);
            if cells[p.0 + 1][p.1] == Cell::Placed {
                return false;
            }
            i += 1;
        }
        true
    }

    /// One step of gravity. A piece that can fall moves down one row;
    /// one that cannot settles: its cells become `Placed` and no cell is
    /// occupied any more. Says whether the piece is still falling.
    pub fn drop(&mut self) -> (falling: bool)
        requires
            old(self)@.playable(),
        ensures
            falling == old(self)@.can_fall(),
            final(self)@ == old(self)@.dropped(),
            final(self)@.playable(),
            old(self)@.wf() ==> final(self)@.wf(),
    {
        proof {
            lemma_dropped_keeps_playable(self@);
        }
        if self.get_running_cells().is_empty() {
            return false;
        }
        if !self.piece_can_fall() {
            let none: Vec<(usize, usize)> = Vec::new();
            let next = repaint(self.get_cells(), &none, Cell::Placed);
            assert(pos_view(none@) =~= Seq::<Pos>::empty());
            self.set_cells(next);
            self.set_running_cells(none);
            return false;
        }
        let running = self.get_running_cells();
        assert forall|i: int| 0 <= i < running.len() implies (#[trigger] running@[i]).0 + 1
            < self@.height && running@[i].1 < self@.width by {
            assert(self@.occupied()[i] == (running@[i].0 as int, running@[i].1 as int));
            assert(self@.in_grid(self@.occupied()[i]));
        }
        let moved = moved_by(running, 1, 0);
        let next = repaint(self.get_cells(), &moved, Cell::Empty);
        self.set_cells(next);
        self.set_running_cells(moved);
        true
    }

    /// Turns the running piece by a quarter inside its window. The window
    /// is the square whose top-left corner is the least occupied cell plus
    /// the offset correction in force, wrapped to the grid. The turn is
    /// refused, and nothing changes, if there is no piece, if the window
    /// leaves the grid or does not hold the whole piece, or if a cell that
    /// the piece would fill is settled. After a turn the next offset
    /// correction is in force.
    pub fn rotate(&mut self)
        requires
            old(self)@.playable(),
        ensures
            old(self)@.turns_into(final(self)@),
            final(self)@.playable(),
            old(self)@.wf() ==> final(self)@.wf(),
    {
        let ghost b = self@;
        let running = self.get_running_cells();
        if running.is_empty() {
            return;
        }
        assert(b.occupied().len() == running.len());
        let rows = self.get_height();
        let cols = self.get_width();
        let side = self.get_running_shape().get_height();
        let offset = self.get_running_shape().get_top_left_offset()[0];
        assert(b.running_shape.top_left_offset[0] == (offset.0 as int, offset.1 as int));
        let first = least_position(running);
        proof {
            let f = (first.0 as int, first.1 as int);
            let k = choose|k: int| 0 <= k < b.occupied().len() && b.occupied()[k] == f;
            assert(b.in_grid(b.occupied()[k]));
            lemma_least_is_unique(b.occupied(), b.least_occupied(), f);
        }
        let top = wrapped(first.0, offset.0, rows);
        let left = wrapped(first.1, offset.1, cols);
        assert(b.window_corner() == (top as int, left as int));
        if top + side > rows || left + side > cols {
            return;
        }
        if !all_in_square(running, top, left, side) {
            return;
        }
        let cells = self.get_cells();
        let mut turned: Vec<(usize, usize)> = Vec::new();
        let mut i: usize = 0;
        while i < side
            invariant
                i <= side,
                b.playable(),
                self@ == b,
                b == old(self)@,
                grid_view(cells@) == b.cells,
                b.window_corner() == (top as int, left as int),
                side == b.running_shape.height,
                top + side <= b.height,
                left + side <= b.width,
                row_major(pos_view(turned@)),
                forall|q: Pos| #[trigger]
                    pos_view(turned@).contains(q) ==> b.turn_fills(q) && pos_before(
                        q,
                        (top + i, left as int),
                    ),
                forall|q: Pos|
                    #[trigger] b.turn_fills(q) && pos_before(q, (top + i, left as int))
                        ==> pos_view(turned@).contains(q) && b.at(q) != Cell::Placed,
            decreases side - i,
        {
            let mut j: usize = 0;
            while j < side
                invariant
                    i < side,
                    j <= side,
                    b.playable(),
                    self@ == b,
                    b == old(self)@,
                    grid_view(cells@) == b.cells,
                    b.window_corner() == (top as int, left as int),
                    side == b.running_shape.height,
                    top + side <= b.height,
                    left + side <= b.width,
                    row_major(pos_view(turned@)),
                    forall|q: Pos| #[trigger]
                        pos_view(turned@).contains(q) ==> b.turn_fills(q) && pos_before(
                            q,
                            (top + i, left + j),
                        ),
                    forall|q: Pos|
                        #[trigger] b.turn_fills(q) && pos_before(q, (top + i, left + j))
                            ==> pos_view(turned@).contains(q) && b.at(q) != Cell::Placed,
                decreases side - j,
            {
                let ghost here: Pos = (top + i, left + j);
                let ghost before = pos_view(turned@);
                assert(b.cells[top + j].len() == b.width);
                assert(b.cells[top + i].len() == b.width);
                assert(b.turn_source(here) == (top + j, left + side - 1 - i));
                if cells[top + j][left + side - 1 - i] == Cell::Running {
                    assert(b.turn_fills(here));
                    if cells[top + i][left + j] == Cell::Placed {
                        assert(b.at(here) == Cell::Placed);
                        assert(!b.can_turn());
                        return;
                    }
                    turned.push((top + i, left + j));
                    proof {
                        assert(pos_view(turned@) =~= before.push(here));
                        assert forall|q: Pos| #[trigger]
                            pos_view(turned@).contains(q) implies b.turn_fills(q) && pos_before(
                            q,
                            (top + i, left + j + 1),
                        ) by {
                            lemma_push_contains(before, here, q);
                        }
                        assert forall|q: Pos|
                            #[trigger] b.turn_fills(q) && pos_before(
                                q,
                                (top + i, left + j + 1),
                            ) implies pos_view(turned@).contains(q) && b.at(q)
                            != Cell::Placed by {
                            lemma_push_contains(before, here, q);
                        }
                        assert forall|k: int, l: int|
                            0 <= k < l < pos_view(turned@).len() implies pos_before(
                            #[trigger] pos_view(turned@)[k],
                            #[trigger] pos_view(turned@)[l],
                        ) by {
                            if l == before.len() {
                                assert(before.contains(before[k]));
                            } else {
                                assert(pos_before(before[k], before[l]));
                            }
                        }
                    }
                } else {
                    assert(!b.turn_fills(here));
                }
                j += 1;
            }
            i += 1;
        }
        proof {
            assert forall|q: Pos|
                #![trigger pos_view(turned@).contains(q)]
                #![trigger b.turn_fills(q)]
                pos_view(turned@).contains(q) <==> b.turn_fills(q) by {}
            assert(b.can_turn());
        }
        let next = repaint(cells, &turned, Cell::Empty);
        self.move_top_left_offset_array();
        self.set_cells(next);
        self.set_running_cells(turned);
        proof {
            lemma_turn_keeps_playable(b, self@);
        }
    }

    /// Whether the running piece can move one column to the left
    /// (`to_left`) or to the right.
    fn piece_can_shift(&self, to_left: bool) -> (can: bool)
        requires
            self@.playable(),
        ensures
            can == self@.can_shift(if to_left { -1 } else { 1 }),
    {
        let ghost dc: int = if to_left { -1 } else { 1 };
        let cells = self.get_cells();
        let running = self.get_running_cells();
        let width = self.get_width();
        if running.is_empty() {
            return false;
        }
        assert(self@.occupied().len() == running.len());
        let edge: usize = if to_left { 0 } else { width - 1 };
        if !self.is_ith_row_none(edge, Cell::Running) {
            proof {
                let r = choose|r: int|
                    0 <= r < self@.height && self@.cells[r][edge as int] == Cell::Running;
                assert(self@.cells[r][edge as int] == Cell::Running);
            }
            return false;
        }
        let mut i: usize = 0;
        while i < running.len()
            invariant
                i <= running.len(),
                self@.playable(),
                width == self@.width,
                dc == if to_left { -1int } else { 1int },
                grid_view(cells@) == self@.cells,
                pos_view(running@) == self@.occupied(),
                forall|k: int|
                    0 <= k < i ==> {
                        let p = #[trigger] self@.occupied()[k];
                        0 <= p.1 + dc < self@.width && self@.cells[p.0][p.1 + dc] != Cell::Placed
                    },
            decreases running.len() - i,
        {
            let p = running[i];
            assert(self@.occupied()[i as int] == (p.0 as int, p.1 as int));
            assert(self@.in_grid(self@.occupied()[i as int]));
            assert(self@.cells[p.0 as int].len() == self@.width);
            if to_left {
                if p.1 == 0 || cells[p.0][p.1 - 1] == Cell::Placed {
                    return false;
                }
            } else {
                if p.1 + 1 >= width || cells[p.0][p.1 + 1] == Cell::Placed {
                    return false;
                }
            }
            i += 1;
        }
        true
    }

    /// Lets the running piece fall until it settles.
    pub fn drop_to_bottom(&mut self)
        requires
            old(self)@.playable(),
        ensures
            final(self)@ == old(self)@.hard_dropped(),
            final(self)@.playable(),
            old(self)@.wf() ==> final(self)@.wf(),
    {
        loop
            invariant_except_break
                self@.playable(),
                self@.hard_dropped() == old(self)@.hard_dropped(),
                old(self)@.wf() ==> self@.wf(),
            ensures
                self@ == old(self)@.hard_dropped(),
                self@.playable(),
                old(self)@.wf() ==> self@.wf(),
            decreases
                (if self@.occupied().len() > 0 {
                    self@.height - self@.occupied()[0].0
                } else {
                    0
                }),
        {
            let ghost before = self@;
            let falling = self.drop();
            if !falling {
                break;
            }
            assert(self@.occupied()[0].0 == before.occupied()[0].0 + 1);
        }
    }

    /// Moves the running piece one column to the left or to the right, if
    /// every cell of it can go there; `Down` lets it fall until it settles.
    /// A piece that cannot move stays where it is.
    pub fn move_shape(&mut self, direction: Direction)
        requires
            old(self)@.playable(),
        ensures
            final(self)@ == match direction {
                Direction::Left => old(self)@.shifted(-1),
                Direction::Right => old(self)@.shifted(1),
                Direction::Down => old(self)@.hard_dropped(),
            },
            final(self)@.playable(),
            old(self)@.wf() ==> final(self)@.wf(),
    {
        match direction {
            Direction::Down => {
                self.drop_to_bottom();
            },
            _ => {
                let to_left = direction == Direction::Left;
                proof {
                    lemma_shifted_keeps_playable(self@, if to_left { -1 } else { 1 });
                }
                if !self.piece_can_shift(to_left) {
                    return;
                }
                let running = self.get_running_cells();
                assert forall|i: int| 0 <= i < running.len() implies 0 <= (
                #[trigger] running@[i]).1 + (if to_left { -1int } else { 1int }) < self@.width
                    && running@[i].0 < self@.height by {
                    assert(self@.occupied()[i] == (running@[i].0 as int, running@[i].1 as int));
                    assert(self@.in_grid(self@.occupied()[i]));
                }
                let moved = moved_by(running, 0, if to_left { -1 } else { 1 });
                let next = repaint(self.get_cells(), &moved, Cell::Empty);
                self.set_cells(next);
                self.set_running_cells(moved);
            },
        }
    }

    /// Takes the full rows out of the grid: the rows above them move down
    /// and as many empty rows come in at the top. Returns the number of
    /// rows taken out.
    pub fn check_delete_rows(&mut self) -> (deleted: usize)
        requires
            old(self)@.valid(),
        ensures
            deleted == old(self)@.full_rows(),
            final(self)@ == old(self)@.cleared(),
            final(self)@.valid(),
            old(self)@.playable() ==> final(self)@.playable(),
    {
        let ghost b = self@;
        proof {
            lemma_cleared_keeps_valid(b);
        }
        let height = self.get_height();
        let width = self.get_width();
        let mut kept: Vec<Vec<Cell>> = Vec::new();
        let mut r: usize = 0;
        while r < height
            invariant
                r <= height,
                self@ == b,
                b.valid(),
                height == b.height,
                width == b.width,
                kept.len() <= r,
                grid_view(kept@) == rows_to_keep(b.cells.take(r as int)),
            decreases height - r,
        {
            let ghost before = grid_view(kept@);
            proof {
                lemma_rows_to_keep_push(b.cells.take(r as int), b.cells[r as int]);
                assert(b.cells.take(r as int).push(b.cells[r as int]) =~= b.cells.take(r + 1));
                assert(b.cells[r as int].len() == b.width);
            }
            if !self.is_ith_column_all(r, Cell::Placed) {
                let row = copy_of_row(&self.get_cells()[r]);
                kept.push(row);
                assert(grid_view(kept@) =~= before.push(b.cells[r as int]));
            }
            r += 1;
        }
        assert(b.cells.take(r as int) =~= b.cells);
        let deleted: usize = height - kept.len();
        let mut next: Vec<Vec<Cell>> = Vec::new();
        let mut k: usize = 0;
        while k < deleted
            invariant
                k <= deleted,
                next.len() == k,
                grid_view(next@) == empty_grid(width as int, k as int),
            decreases deleted - k,
        {
            let ghost before = next@;
            let row = new_empty_row(width);
            next.push(row);
            k += 1;
            assert forall|i: int| 0 <= i < k implies grid_view(next@)[i] == empty_row(
                width as int,
            ) by {
                if i < k - 1 {
                    assert(grid_view(before)[i] == empty_grid(width as int, k - 1)[i]);
                }
            }
            assert(grid_view(next@) =~= empty_grid(width as int, k as int));
        }
        let ghost top = next@;
        let ghost rest = kept@;
        next.append(&mut kept);
        assert(grid_view(next@) =~= grid_view(top) + grid_view(rest));
        self.set_cells(next);
        deleted
    }

    /// One frame with a given piece type to come next (for `Random`, a
    /// drawn one). A piece that can fall falls by one row and the frame is
    /// over. Otherwise the piece settles; if the top row then holds a
    /// settled cell, the game is over and nothing else happens; if not,
    /// full rows are cleared, each counts one point, and the next piece
    /// appears. Says whether the game goes on.
    pub fn tick_with(&mut self, shape_type: ShapeType) -> (going: bool)
        requires
            old(self)@.playable(),
            old(self)@.score + old(self)@.height <= i32::MAX,
        ensures
            going == old(self)@.goes_on(),
            shape_type != ShapeType::Random ==> final(self)@ == old(self)@.ticked(shape_type),
            shape_type == ShapeType::Random ==> exists|t: ShapeType|
                can_be_drawn(t) && final(self)@ == old(self)@.ticked(t),
            final(self)@.playable(),
            old(self)@.wf() ==> final(self)@.wf(),
            final(self)@.width == old(self)@.width,
            final(self)@.height == old(self)@.height,
            old(self)@.score <= final(self)@.score <= old(self)@.score + old(self)@.height,
    {
        let ghost b = self@;
        let falling = self.drop();
        if falling {
            assert(can_be_drawn(ShapeType::Square) && self@ == b.ticked(ShapeType::Square));
            return true;
        }
        if !self.is_ith_column_none(0, Cell::Placed) {
            proof {
                let c = choose|c: int| 0 <= c < self@.width && self@.cells[0][c] == Cell::Placed;
                assert(self@.cells[0][c] == Cell::Placed);
                assert(can_be_drawn(ShapeType::Square) && self@ == b.ticked(ShapeType::Square));
            }
            return false;
        }
        proof {
            lemma_cleared_keeps_valid(self@);
        }
        let deleted = self.check_delete_rows();
        self.set_score(self.get_score() + deleted as i32);
        let shape = generate_shape(shape_type);
        proof {
            lemma_spawned_is_wf(self@, shape@);
        }
        self.add_shape(shape);
        true
    }

    /// One frame of the game, with a drawn piece type to come next. Says
    /// whether the game goes on.
    pub fn tick(&mut self) -> (going: bool)
        requires
            old(self)@.playable(),
            old(self)@.score + old(self)@.height <= i32::MAX,
        ensures
            going == old(self)@.goes_on(),
            exists|t: ShapeType| can_be_drawn(t) && final(self)@ == old(self)@.ticked(t),
            final(self)@.playable(),
            old(self)@.wf() ==> final(self)@.wf(),
            final(self)@.width == old(self)@.width,
            final(self)@.height == old(self)@.height,
            old(self)@.score <= final(self)@.score <= old(self)@.score + old(self)@.height,
    {
        self.tick_with(ShapeType::Random)
    }
}

/// A copy of a row.
fn copy_of_row(row: &Vec<Cell>) -> (copy: Vec<Cell>)
    ensures
        copy@ == row@,
{
    let mut copy: Vec<Cell> = Vec::new();
    let mut c: usize = 0;
    while c < row.len()
        invariant
            c <= row.len(),
            copy@ == row@.take(c as int),
        decreases row.len() - c,
    {
        copy.push(row[c]);
        c += 1;
        assert(copy@ =~= row@.take(c as int));
    }
    assert(row@.take(c as int) =~= row@);
    copy
}

} // verus!

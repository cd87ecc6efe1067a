//! Laws of the game, proved of the model: what no move changes, when a
//! move is refused, how the game ends, and which states it can reach.

use crate::invariants::{
    lemma_cleared_keeps_valid, lemma_dropped_keeps_playable, lemma_rows_to_keep_are_rows,
    lemma_rows_to_keep_push, lemma_shifted_keeps_playable, lemma_spawned_is_wf,
};
use crate::model::{
    catalog, empty_grid, empty_row, is_concrete, row_is_full, rows_to_keep, shift, BoardView, Pos,
};
use crate::tetris::{Cell, ShapeType};
use crate::turns::{
    corner_of, first_of_four, four_after, lemma_contains_four, lemma_four_turns_restore,
    lemma_least_of_four, lemma_piece_fits, lemma_turn_step, lemma_wrap, one_of, stands_turned,
    Four,
};
use vstd::prelude::*;

verus! {

// ---- settled cells

/// The two boards have the same grid dimensions and the same settled
/// cells.
pub open spec fn same_settled_cells(a: BoardView, b: BoardView) -> bool {
    &&& a.width == b.width
    &&& a.height == b.height
    &&& forall|r: int, c: int|
        0 <= r < a.height && 0 <= c < a.width ==> (#[trigger] a.cells[r][c] == Cell::Placed
            <==> b.cells[r][c] == Cell::Placed)
}

/// A piece that falls by a row, moves to the side or turns leaves every
/// settled cell settled and settles none.
pub proof fn lemma_moves_keep_settled_cells(b: BoardView, dc: int, turned: BoardView)
    requires
        b.playable(),
        b.turns_into(turned),
    ensures
        b.can_fall() ==> same_settled_cells(b, b.dropped()),
        same_settled_cells(b, b.shifted(dc)),
        same_settled_cells(b, turned),
{
    if b.can_fall() {
        let n = b.dropped();
        assert forall|r: int, c: int| 0 <= r < b.height && 0 <= c < b.width implies (
        #[trigger] b.cells[r][c] == Cell::Placed <==> n.cells[r][c] == Cell::Placed) by {
            assert(b.cells[r].len() == b.width);
            if n.occupied().contains((r, c)) {
                let i = choose|i: int| 0 <= i < n.occupied().len() && n.occupied()[i] == (r, c);
                assert(b.occupied()[i] == (r - 1, c));
            }
        }
    }
    if b.can_shift(dc) {
        let n = b.shifted(dc);
        assert forall|r: int, c: int| 0 <= r < b.height && 0 <= c < b.width implies (
        #[trigger] b.cells[r][c] == Cell::Placed <==> n.cells[r][c] == Cell::Placed) by {
            assert(b.cells[r].len() == b.width);
            if n.occupied().contains((r, c)) {
                let i = choose|i: int| 0 <= i < n.occupied().len() && n.occupied()[i] == (r, c);
                assert(b.occupied()[i] == (r, c - dc));
            }
        }
    }
    if b.can_turn() {
        assert forall|r: int, c: int| 0 <= r < b.height && 0 <= c < b.width implies (
        #[trigger] b.cells[r][c] == Cell::Placed <==> turned.cells[r][c] == Cell::Placed) by {
            assert(b.cells[r].len() == b.width);
            if turned.occupied().contains((r, c)) {
                assert(b.turn_fills((r, c)));
                assert(b.at((r, c)) != Cell::Placed);
            }
        }
    }
}

/// Boards in a state of the game with the same settled cells and the same
/// set of occupied cells have the same grid.
pub proof fn lemma_same_grid(a: BoardView, b: BoardView)
    requires
        a.wf(),
        b.wf(),
        same_settled_cells(a, b),
        forall|q: Pos| a.occupied().contains(q) <==> b.occupied().contains(q),
    ensures
        a.cells == b.cells,
{
    assert forall|r: int| 0 <= r < a.height implies #[trigger] a.cells[r] =~= b.cells[r] by {
        assert(a.cells[r].len() == a.width);
        assert(b.cells[r].len() == b.width);
        assert forall|c: int| 0 <= c < a.width implies a.cells[r][c] == b.cells[r][c] by {
            assert(a.cells[r][c] == Cell::Running <==> a.occupied().contains((r, c)));
            assert(b.cells[r][c] == Cell::Running <==> b.occupied().contains((r, c)));
            assert(a.cells[r][c] == Cell::Placed <==> b.cells[r][c] == Cell::Placed);
        }
    }
    assert(a.cells =~= b.cells);
}

/// A piece that settles leaves no running cell: what was `Running` or
/// `Placed` is `Placed`, what was `Empty` is `Empty`.
pub proof fn lemma_settled_cells(b: BoardView)
    requires
        b.valid(),
    ensures
        b.settled().wf(),
        forall|r: int, c: int|
            0 <= r < b.height && 0 <= c < b.width ==> #[trigger] b.settled().cells[r][c] == (
            if b.cells[r][c] == Cell::Empty {
                Cell::Empty
            } else {
                Cell::Placed
            }),
{
    let n = b.settled();
    assert(n.occupied().len() == 0);
    assert forall|r: int, c: int|
        0 <= r < b.height && 0 <= c < b.width implies #[trigger] n.cells[r][c] == (if b.cells[r][c]
        == Cell::Empty {
        Cell::Empty
    } else {
        Cell::Placed
    }) by {
        assert(b.cells[r].len() == b.width);
    }
}

// ---- full rows

/// After the full rows have been taken out no row of the grid is full.
pub proof fn lemma_cleared_has_no_full_row(b: BoardView)
    requires
        b.valid(),
    ensures
        forall|r: int| 0 <= r < b.height ==> !row_is_full(#[trigger] b.cleared().cells[r]),
        b.cleared().full_rows() == 0,
{
    let n = b.cleared();
    lemma_cleared_keeps_valid(b);
    lemma_rows_to_keep_are_rows(b.cells);
    assert forall|r: int| 0 <= r < b.height implies !row_is_full(#[trigger] n.cells[r]) by {
        if r < b.full_rows() {
            assert(n.cells[r] == empty_row(b.width));
            assert(n.cells[r][0] == Cell::Empty);
        } else {
            assert(n.cells[r] == b.kept_rows()[r - b.full_rows()]);
        }
    }
    lemma_rows_all_kept(n.cells);
}

/// A grid without a full row keeps all its rows.
pub proof fn lemma_rows_all_kept(cells: Seq<Seq<Cell>>)
    requires
        forall|r: int| 0 <= r < cells.len() ==> !row_is_full(#[trigger] cells[r]),
    ensures
        rows_to_keep(cells) == cells,
    decreases cells.len(),
{
    if cells.len() == 0 {
        reveal(Seq::filter);
        assert(rows_to_keep(cells) =~= cells);
    } else {
        let front = cells.drop_last();
        assert(front.push(cells.last()) =~= cells);
        lemma_rows_all_kept(front);
        lemma_rows_to_keep_push(front, cells.last());
    }
}

// ---- moves to the side

/// A piece with a cell in the leftmost column does not move to the left,
/// and neither does a piece with a settled cell to the left of one of its
/// cells: the board stays as it is.
pub proof fn lemma_blocked_on_the_left(b: BoardView, i: int)
    requires
        b.playable(),
        0 <= i < b.occupied().len(),
        b.occupied()[i].1 == 0 || b.cells[b.occupied()[i].0][b.occupied()[i].1 - 1]
            == Cell::Placed,
    ensures
        b.shifted(-1) == b,
{
    assert(b.in_grid(b.occupied()[i]));
}

/// A piece with a cell in the rightmost column does not move to the
/// right, and neither does a piece with a settled cell to the right of one
/// of its cells: the board stays as it is.
pub proof fn lemma_blocked_on_the_right(b: BoardView, i: int)
    requires
        b.playable(),
        0 <= i < b.occupied().len(),
        b.occupied()[i].1 == b.width - 1 || b.cells[b.occupied()[i].0][b.occupied()[i].1 + 1]
            == Cell::Placed,
    ensures
        b.shifted(1) == b,
{
    assert(b.in_grid(b.occupied()[i]));
}

// ---- the end of the game

/// The board after a run of frames, one drawn piece type for each.
pub open spec fn after_frames(b: BoardView, draws: Seq<ShapeType>) -> BoardView
    decreases draws.len(),
{
    if draws.len() == 0 {
        b
    } else {
        after_frames(b.ticked(draws[0]), draws.drop_first())
    }
}

/// A frame says that the game is over exactly when the piece cannot fall
/// and, once it has settled, the top row holds a settled cell; the board
/// it leaves is then over: no piece runs and the top row is taken.
pub proof fn lemma_stopped_game_is_over(b: BoardView, drawn: ShapeType)
    requires
        b.playable(),
        !b.goes_on(),
    ensures
        b.ticked(drawn) == b.dropped(),
        b.ticked(drawn).game_over(),
{
}

/// Once the game is over, a frame says so and changes nothing: grid,
/// score and piece stay as they are.
pub proof fn lemma_game_over_is_final(b: BoardView, drawn: ShapeType)
    requires
        b.game_over(),
    ensures
        !b.goes_on(),
        b.ticked(drawn) == b,
{
}

/// Once the game is over, no run of frames changes the board.
pub proof fn lemma_game_over_stays(b: BoardView, draws: Seq<ShapeType>)
    requires
        b.game_over(),
    ensures
        after_frames(b, draws) == b,
    decreases draws.len(),
{
    if draws.len() > 0 {
        lemma_game_over_is_final(b, draws[0]);
        lemma_game_over_stays(b, draws.drop_first());
    }
}

// ---- the piece in play

/// The four positions moved by `(dr, dc)`.
pub open spec fn moved_four(c: Four, dr: int, dc: int) -> Four {
    (
        (c.0.0 + dr, c.0.1 + dc),
        (c.1.0 + dr, c.1.1 + dc),
        (c.2.0 + dr, c.2.1 + dc),
        (c.3.0 + dr, c.3.1 + dc),
    )
}

/// The running piece, if there is one, is a catalog piece in one of its
/// positions somewhere on the grid.
pub open spec fn piece_in_play(b: BoardView) -> bool {
    b.occupied().len() == 0 || exists|t: ShapeType, dr: int, dc: int, n: nat|
        stands_turned(b, t, dr, dc, n)
}

/// The board is in a state that a game can reach: grid and piece agree,
/// the piece is a catalog piece, the score is not negative.
pub open spec fn in_play(b: BoardView) -> bool {
    b.wf() && piece_in_play(b) && 0 <= b.score
}

/// On a grid without borders a piece that appeared somewhere else is, turn
/// for turn, the same piece moved.
pub proof fn lemma_four_after_moved(t: ShapeType, dr: int, dc: int, a: int, b: int, n: nat)
    ensures
        four_after(t, dr + a, dc + b, n) == moved_four(four_after(t, dr, dc, n), a, b),
    decreases n,
{
    if n > 0 {
        lemma_four_after_moved(t, dr, dc, a, b, (n - 1) as nat);
    }
}

/// A piece that has just appeared stands as the catalog has it, at the
/// anchor.
pub proof fn lemma_spawned_in_play(b: BoardView, t: ShapeType)
    requires
        b.valid(),
        is_concrete(t),
        0 <= b.score,
    ensures
        stands_turned(b.spawned(catalog(t)), t, 0, (b.width - 1) / 2, 0),
        in_play(b.spawned(catalog(t))),
{
    let n = b.spawned(catalog(t));
    let c = four_after(t, 0, (b.width - 1) / 2, 0);
    lemma_spawned_is_wf(b, catalog(t));
    assert forall|q: Pos| #[trigger] n.occupied().contains(q) <==> one_of(q, c) by {
        lemma_contains_four(n.occupied(), q);
    }
    assert(stands_turned(n, t, 0, (b.width - 1) / 2, 0));
}

/// The piece moved by `(a, b)` is the same catalog piece in the same
/// position, moved.
proof fn lemma_moved_piece(
    b: BoardView,
    next: BoardView,
    t: ShapeType,
    dr: int,
    dc: int,
    n: nat,
    down: int,
    right: int,
)
    requires
        stands_turned(b, t, dr, dc, n),
        next.running_shape.height == b.running_shape.height,
        next.running_shape.top_left_offset == b.running_shape.top_left_offset,
        next.occupied() == shift(b.occupied(), down, right),
    ensures
        stands_turned(next, t, dr + down, dc + right, n),
{
    lemma_four_after_moved(t, dr, dc, down, right, n);
    let c = four_after(t, dr, dc, n);
    let m = four_after(t, dr + down, dc + right, n);
    assert forall|q: Pos| #[trigger] next.occupied().contains(q) <==> one_of(q, m) by {
        let p = (q.0 - down, q.1 - right);
        if next.occupied().contains(q) {
            let i = choose|i: int| 0 <= i < next.occupied().len() && next.occupied()[i] == q;
            assert(b.occupied()[i] == p);
            assert(b.occupied().contains(p));
        }
        if one_of(q, m) {
            assert(one_of(p, c));
            assert(b.occupied().contains(p));
            let i = choose|i: int| 0 <= i < b.occupied().len() && b.occupied()[i] == p;
            assert(next.occupied()[i] == q);
        }
    }
}

/// Gravity keeps the game in a state that it can reach.
pub proof fn lemma_dropped_in_play(b: BoardView)
    requires
        in_play(b),
    ensures
        in_play(b.dropped()),
{
    lemma_dropped_keeps_playable(b);
    if b.can_fall() {
        let (t, dr, dc, n) = choose|t: ShapeType, dr: int, dc: int, n: nat|
            stands_turned(b, t, dr, dc, n);
        lemma_moved_piece(b, b.dropped(), t, dr, dc, n, 1, 0);
    }
}

/// The fall to the bottom keeps the game in a state that it can reach.
pub proof fn lemma_hard_dropped_in_play(b: BoardView)
    requires
        in_play(b),
    ensures
        in_play(b.hard_dropped()),
    decreases
        (if b.occupied().len() > 0 {
            b.height - b.occupied()[0].0
        } else {
            0
        }),
{
    lemma_dropped_in_play(b);
    if b.can_fall() {
        lemma_hard_dropped_in_play(b.dropped());
    }
}

/// A move to the side keeps the game in a state that it can reach.
pub proof fn lemma_shifted_in_play(b: BoardView, dc: int)
    requires
        in_play(b),
    ensures
        in_play(b.shifted(dc)),
{
    lemma_shifted_keeps_playable(b, dc);
    if b.can_shift(dc) {
        let (t, dr, dc0, n) = choose|t: ShapeType, dr: int, dc0: int, n: nat|
            stands_turned(b, t, dr, dc0, n);
        lemma_moved_piece(b, b.shifted(dc), t, dr, dc0, n, 0, dc);
    }
}

/// A quarter turn keeps the game in a state that it can reach.
pub proof fn lemma_turned_in_play(b: BoardView, next: BoardView)
    requires
        in_play(b),
        b.turns_into(next),
    ensures
        in_play(next),
{
    if b.can_turn() {
        let (t, dr, dc, n) = choose|t: ShapeType, dr: int, dc: int, n: nat|
            stands_turned(b, t, dr, dc, n);
        lemma_turn_step(b, next, t, dr, dc, n);
    }
}

/// A frame keeps the game in a state that it can reach.
pub proof fn lemma_ticked_in_play(b: BoardView, drawn: ShapeType)
    requires
        in_play(b),
        is_concrete(drawn),
    ensures
        in_play(b.ticked(drawn)),
{
    lemma_dropped_in_play(b);
    if !(b.can_fall() || b.dropped().top_row_taken()) {
        let rest = b.dropped();
        lemma_cleared_keeps_valid(rest);
        let cleared = BoardView { score: rest.score + rest.full_rows(), ..rest.cleared() };
        lemma_spawned_in_play(cleared, drawn);
    }
}

/// A game starts in a state that it can reach.
pub proof fn lemma_opening_in_play(width: int, height: int, t: ShapeType)
    requires
        5 <= width <= 20,
        10 <= height <= 100,
        is_concrete(t),
    ensures
        in_play(BoardView::opening(width, height, t)),
{
    let start = BoardView {
        width,
        height,
        cells: empty_grid(width, height),
        running_shape: catalog(t),
        next_shape_type: ShapeType::Random,
        score: 0,
    };
    assert forall|r: int| 0 <= r < height implies (#[trigger] start.cells[r]).len() == width by {
        assert(start.cells[r] == empty_row(width));
    }
    lemma_spawned_in_play(start, t);
}

/// In a state that a game can reach, four quarter turns in a row, none of
/// them refused, bring the piece back to the cells it occupied and leave
/// the grid as it was.
pub proof fn lemma_four_turns_in_play(
    b0: BoardView,
    b1: BoardView,
    b2: BoardView,
    b3: BoardView,
    b4: BoardView,
)
    requires
        in_play(b0),
        b0.can_turn(),
        b0.turns_into(b1),
        b1.can_turn(),
        b1.turns_into(b2),
        b2.can_turn(),
        b2.turns_into(b3),
        b3.can_turn(),
        b3.turns_into(b4),
    ensures
        in_play(b4),
        b4.occupied().to_set() == b0.occupied().to_set(),
        b4.running_shape.top_left_offset == b0.running_shape.top_left_offset,
        b4.cells == b0.cells,
{
    let (t, dr, dc, n) = choose|t: ShapeType, dr: int, dc: int, n: nat|
        stands_turned(b0, t, dr, dc, n);
    lemma_four_turns_restore(b0, b1, b2, b3, b4, t, dr, dc, n);
}

/// In a state that a game can reach, a window that lies on the grid holds
/// the whole piece: a quarter turn is refused only for want of room on the
/// grid or because a settled cell is in the way.
pub proof fn lemma_window_holds_piece(b: BoardView)
    requires
        in_play(b),
        b.occupied().len() > 0,
        b.window_corner().0 + b.running_shape.height <= b.height,
        b.window_corner().1 + b.running_shape.height <= b.width,
    ensures
        forall|i: int| 0 <= i < b.occupied().len() ==> b.in_window(#[trigger] b.occupied()[i]),
        b.can_turn() <==> forall|q: Pos| #[trigger] b.turn_fills(q) ==> b.at(q) != Cell::Placed,
{
    let (t, dr, dc, n) = choose|t: ShapeType, dr: int, dc: int, n: nat|
        stands_turned(b, t, dr, dc, n);
    let c = four_after(t, dr, dc, n);
    let off = b.running_shape.top_left_offset[0];
    let occ = b.occupied();
    lemma_piece_fits(t, dr, dc, n);
    lemma_least_of_four(b, c);
    let m = first_of_four(c);
    let k = choose|k: int| 0 <= k < occ.len() && occ[k] == m;
    assert(b.in_grid(occ[k]));
    lemma_wrap(m.0 + off.0, b.height);
    lemma_wrap(m.1 + off.1, b.width);
    assert(b.window_corner() == corner_of(c, off));
    assert forall|i: int| 0 <= i < occ.len() implies b.in_window(#[trigger] occ[i]) by {
        assert(occ.contains(occ[i]));
        assert(one_of(occ[i], c));
    }
}

} // verus!

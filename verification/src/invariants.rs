//! What every move keeps: a playable board stays playable, and a board in
//! a state of the game stays in one.

use crate::model::{
    cycled, empty_row, is_least, pos_before, row_is_full, rows_to_keep, shift, turn_target,
    BoardView, Pos, ShapeView,
};
use crate::tetris::Cell;
use vstd::prelude::*;

verus! {

/// A piece that appears on a valid board leaves a board in a state of the
/// game, whatever stood on the grid before.
pub proof fn lemma_spawned_is_wf(b: BoardView, shape: ShapeView)
    requires
        b.valid(),
        shape.valid(),
    ensures
        b.spawned(shape).wf(),
{
    let n = b.spawned(shape);
    let cells = b.spawn_cells(shape);
    assert forall|i: int| 0 <= i < cells.len() implies n.in_grid(#[trigger] cells[i]) by {
        assert(0 <= shape.data[i].0 <= 3);
    }
    assert forall|i: int, j: int|
        0 <= i < cells.len() && 0 <= j < cells.len() && i != j implies cells[i] != cells[j] by {
        assert(shape.data[i] != shape.data[j]);
    }
}

/// A position is in a sequence with one more entry if it was in it before
/// or is the new entry.
pub proof fn lemma_push_contains(s: Seq<Pos>, x: Pos, q: Pos)
    ensures
        s.push(x).contains(q) <==> s.contains(q) || q == x,
{
    if s.contains(q) {
        let i = choose|i: int| 0 <= i < s.len() && s[i] == q;
        assert(s.push(x)[i] == q);
    }
    if q == x {
        assert(s.push(x)[s.len() as int] == q);
    }
    if s.push(x).contains(q) {
        let i = choose|i: int| 0 <= i < s.push(x).len() && s.push(x)[i] == q;
        if i < s.len() {
            assert(s[i] == q);
        }
    }
}

/// A sequence has at most one first position in row-major order.
pub proof fn lemma_least_is_unique(s: Seq<Pos>, a: Pos, b: Pos)
    requires
        is_least(s, a),
        is_least(s, b),
    ensures
        a == b,
{
    let i = choose|i: int| 0 <= i < s.len() && s[i] == a;
    let j = choose|j: int| 0 <= j < s.len() && s[j] == b;
    assert(!pos_before(s[i], b));
    assert(!pos_before(s[j], a));
}

/// A moved piece that lies on the grid leaves a playable board, on which
/// grid and occupied cells agree; distinct cells stay distinct.
pub proof fn lemma_with_piece_at(b: BoardView, cells: Seq<Pos>)
    requires
        b.valid(),
        forall|i: int| 0 <= i < cells.len() ==> b.in_grid(#[trigger] cells[i]),
    ensures
        b.with_piece_at(cells).playable(),
        b.with_piece_at(cells).consistent(),
{
    let n = b.with_piece_at(cells);
    assert forall|i: int| 0 <= i < n.occupied().len() implies n.in_grid(
        #[trigger] n.occupied()[i],
    ) by {
        assert(b.in_grid(cells[i]));
    }
}

/// Gravity keeps a playable board playable, and a board in a state of the
/// game in one.
pub proof fn lemma_dropped_keeps_playable(b: BoardView)
    requires
        b.playable(),
    ensures
        b.dropped().playable(),
        b.wf() ==> b.dropped().wf(),
{
    if b.occupied().len() == 0 {
    } else if b.can_fall() {
        let cells = shift(b.occupied(), 1, 0);
        assert forall|i: int| 0 <= i < cells.len() implies b.in_grid(#[trigger] cells[i]) by {
            assert(b.in_grid(b.occupied()[i]));
        }
        lemma_with_piece_at(b, cells);
        if b.occupied().no_duplicates() {
            assert forall|i: int, j: int|
                0 <= i < cells.len() && 0 <= j < cells.len() && i != j implies cells[i]
                != cells[j] by {
                assert(b.occupied()[i] != b.occupied()[j]);
            }
        }
    } else {
        let n = b.settled();
        assert(n.occupied().len() == 0);
        assert forall|r: int, c: int| 0 <= r < n.height && 0 <= c < n.width implies (
        #[trigger] n.cells[r][c] == Cell::Running <==> n.occupied().contains((r, c))) by {
            assert(b.cells[r].len() == b.width);
        }
    }
}

/// A move to the side keeps a playable board playable, and a board in a
/// state of the game in one.
pub proof fn lemma_shifted_keeps_playable(b: BoardView, dc: int)
    requires
        b.playable(),
    ensures
        b.shifted(dc).playable(),
        b.wf() ==> b.shifted(dc).wf(),
{
    if b.can_shift(dc) {
        let cells = shift(b.occupied(), 0, dc);
        assert forall|i: int| 0 <= i < cells.len() implies b.in_grid(#[trigger] cells[i]) by {
            assert(b.in_grid(b.occupied()[i]));
        }
        lemma_with_piece_at(b, cells);
        if b.occupied().no_duplicates() {
            assert forall|i: int, j: int|
                0 <= i < cells.len() && 0 <= j < cells.len() && i != j implies cells[i]
                != cells[j] by {
                assert(b.occupied()[i] != b.occupied()[j]);
            }
        }
    }
}

/// An accepted quarter turn takes each occupied cell to one cell: the
/// piece occupies as many cells after it as before.
pub proof fn lemma_turn_keeps_count(b: BoardView, next: BoardView)
    requires
        b.playable(),
        b.consistent(),
        b.occupied().no_duplicates(),
        b.can_turn(),
        b.turns_into(next),
    ensures
        next.occupied().len() == b.occupied().len(),
{
    let occ = b.occupied();
    let turned = next.occupied();
    let corner = b.window_corner();
    let side = b.running_shape.height;
    let f = |p: Pos| turn_target(p, corner, side);
    assert forall|i: int, j: int| 0 <= i < j < turned.len() implies turned[i] != turned[j] by {
        assert(pos_before(turned[i], turned[j]));
    }
    assert forall|q: Pos| occ.to_set().map(f).contains(q) <==> turned.to_set().contains(q) by {
        if turned.contains(q) {
            assert(b.turn_fills(q));
            let src = b.turn_source(q);
            assert(b.cells[src.0][src.1] == Cell::Running);
            assert(occ.contains((src.0, src.1)));
            assert(occ.to_set().contains(src) && q == f(src));
        }
        if occ.to_set().map(f).contains(q) {
            let x = choose|x: Pos| occ.to_set().contains(x) && q == f(x);
            let i = choose|i: int| 0 <= i < occ.len() && occ[i] == x;
            assert(b.in_window(occ[i]));
            assert(b.in_grid(occ[i]));
            assert(b.turn_source(q) == x);
            assert(b.cells[x.0][x.1] == Cell::Running);
            assert(b.turn_fills(q));
        }
    }
    assert(occ.to_set().map(f) =~= turned.to_set());
    vstd::seq_lib::seq_to_set_is_finite(occ);
    vstd::set_lib::lemma_map_size(occ.to_set(), turned.to_set(), f);
    occ.unique_seq_to_set();
    turned.unique_seq_to_set();
}

/// A quarter turn keeps a playable board playable, and a board in a state
/// of the game in one.
pub proof fn lemma_turn_keeps_playable(b: BoardView, next: BoardView)
    requires
        b.playable(),
        b.turns_into(next),
    ensures
        next.playable(),
        b.wf() ==> next.wf(),
{
    if b.can_turn() {
        let cells = next.occupied();
        let offsets = b.running_shape.top_left_offset;
        assert forall|i: int| 0 <= i < cycled(offsets).len() implies -4 <= (#[trigger] cycled(
            offsets,
        )[i]).0 <= 0 && -4 <= cycled(offsets)[i].1 <= 0 by {
            if i < offsets.len() - 1 {
                assert(cycled(offsets)[i] == offsets[i + 1]);
            } else {
                assert(cycled(offsets)[i] == offsets[0]);
            }
        }
        assert forall|i: int| 0 <= i < cells.len() implies next.in_grid(#[trigger] cells[i]) by {
            assert(cells.contains(cells[i]));
            assert(b.turn_fills(cells[i]));
        }
        assert forall|i: int, j: int|
            0 <= i < cells.len() && 0 <= j < cells.len() && i != j implies cells[i]
            != cells[j] by {
            if i < j {
                assert(pos_before(cells[i], cells[j]));
            } else {
                assert(pos_before(cells[j], cells[i]));
            }
        }
        if b.wf() {
            lemma_turn_keeps_count(b, next);
        }
    }
}

/// What one more row adds to the rows to keep: itself, unless it is full.
pub proof fn lemma_rows_to_keep_push(cells: Seq<Seq<Cell>>, row: Seq<Cell>)
    ensures
        rows_to_keep(cells.push(row)) == if row_is_full(row) {
            rows_to_keep(cells)
        } else {
            rows_to_keep(cells).push(row)
        },
{
    reveal(Seq::filter);
    assert(cells.push(row).drop_last() =~= cells);
}

/// The rows to keep are rows of the grid, no more than it has, and none
/// of them is full.
pub proof fn lemma_rows_to_keep_are_rows(cells: Seq<Seq<Cell>>)
    ensures
        rows_to_keep(cells).len() <= cells.len(),
        forall|i: int|
            0 <= i < rows_to_keep(cells).len() ==> cells.contains(#[trigger] rows_to_keep(cells)[i])
                && !row_is_full(rows_to_keep(cells)[i]),
    decreases cells.len(),
{
    reveal(Seq::filter);
    if cells.len() > 0 {
        let front = cells.drop_last();
        lemma_rows_to_keep_are_rows(front);
        assert(front.push(cells.last()) =~= cells);
        lemma_rows_to_keep_push(front, cells.last());
        assert forall|i: int| 0 <= i < rows_to_keep(cells).len() implies cells.contains(
            #[trigger] rows_to_keep(cells)[i],
        ) && !row_is_full(rows_to_keep(cells)[i]) by {
            if i < rows_to_keep(front).len() {
                let k = choose|k: int| 0 <= k < front.len() && front[k] == rows_to_keep(front)[i];
                assert(cells[k] == rows_to_keep(cells)[i]);
            } else {
                assert(cells[cells.len() - 1] == rows_to_keep(cells)[i]);
            }
        }
    }
}

/// Clearing the full rows keeps the grid's dimensions.
pub proof fn lemma_cleared_keeps_valid(b: BoardView)
    requires
        b.valid(),
    ensures
        0 <= b.full_rows() <= b.height,
        b.cleared().valid(),
        b.playable() ==> b.cleared().playable(),
{
    lemma_rows_to_keep_are_rows(b.cells);
    let n = b.cleared();
    assert forall|r: int| 0 <= r < n.height implies (#[trigger] n.cells[r]).len() == n.width by {
        if r < b.full_rows() {
            assert(n.cells[r] == empty_row(b.width));
        } else {
            let row = b.kept_rows()[r - b.full_rows()];
            assert(n.cells[r] == row);
            let k = choose|k: int| 0 <= k < b.cells.len() && b.cells[k] == row;
            assert(b.cells[k].len() == b.width);
        }
    }
    if b.playable() {
        assert forall|i: int| 0 <= i < n.occupied().len() implies n.in_grid(
            #[trigger] n.occupied()[i],
        ) by {
            assert(b.in_grid(b.occupied()[i]));
        }
    }
}

/// The fall to the bottom keeps a playable board playable, and a board in
/// a state of the game in one.
pub proof fn lemma_hard_dropped_keeps_playable(b: BoardView)
    requires
        b.playable(),
    ensures
        b.hard_dropped().playable(),
        b.wf() ==> b.hard_dropped().wf(),
    decreases
        (if b.occupied().len() > 0 {
            b.height - b.occupied()[0].0
        } else {
            0
        }),
{
    lemma_dropped_keeps_playable(b);
    if b.can_fall() {
        lemma_hard_dropped_keeps_playable(b.dropped());
    }
}

} // verus!

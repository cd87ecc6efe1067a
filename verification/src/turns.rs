//! The geometry of quarter turns: where the four cells of a catalog piece
//! go, turn after turn, and that the fourth turn brings them back.

use crate::invariants::{lemma_least_is_unique, lemma_turn_keeps_playable};
use crate::laws::{lemma_moves_keep_settled_cells, lemma_same_grid, same_settled_cells};
use crate::model::{
    catalog, cycled, is_concrete, is_least, pos_before, turn_target, BoardView, Pos,
};
use crate::tetris::{Cell, ShapeType};
use vstd::prelude::*;

verus! {

/// Four positions: the cells of a piece.
pub type Four = (Pos, Pos, Pos, Pos);

/// `q` is one of the four positions.
pub open spec fn one_of(q: Pos, c: Four) -> bool {
    q == c.0 || q == c.1 || q == c.2 || q == c.3
}

/// The two foursomes hold the same positions.
pub open spec fn same_four(x: Four, y: Four) -> bool {
    forall|q: Pos| #![trigger one_of(q, x)] #![trigger one_of(q, y)] one_of(q, x) <==> one_of(q, y)
}

/// The earlier of two positions in row-major order.
pub open spec fn first_of(a: Pos, b: Pos) -> Pos {
    if pos_before(b, a) {
        b
    } else {
        a
    }
}

/// The first of four positions in row-major order.
pub open spec fn first_of_four(c: Four) -> Pos {
    first_of(first_of(c.0, c.1), first_of(c.2, c.3))
}

/// Corner of the window of four cells under the offset `off`, on a grid
/// without borders.
pub open spec fn corner_of(c: Four, off: Pos) -> Pos {
    (first_of_four(c).0 + off.0, first_of_four(c).1 + off.1)
}

/// The four cells after a quarter turn in their window, on a grid without
/// borders.
pub open spec fn turned_four(c: Four, off: Pos, side: int) -> Four {
    let k = corner_of(c, off);
    (
        turn_target(c.0, k, side),
        turn_target(c.1, k, side),
        turn_target(c.2, k, side),
        turn_target(c.3, k, side),
    )
}

/// The offset corrections after `n` quarter turns.
pub open spec fn offsets_after(o: Seq<Pos>, n: nat) -> Seq<Pos>
    decreases n,
{
    if n == 0 {
        o
    } else {
        cycled(offsets_after(o, (n - 1) as nat))
    }
}

/// The four cells of a catalog piece that appeared moved by `(dr, dc)`
/// from the anchor `(0, 0)` and has made `n` quarter turns since, on a
/// grid without borders.
pub open spec fn four_after(t: ShapeType, dr: int, dc: int, n: nat) -> Four
    decreases n,
{
    if n == 0 {
        let d = catalog(t).data;
        (
            (d[0].0 + dr, d[0].1 + dc),
            (d[1].0 + dr, d[1].1 + dc),
            (d[2].0 + dr, d[2].1 + dc),
            (d[3].0 + dr, d[3].1 + dc),
        )
    } else {
        turned_four(
            four_after(t, dr, dc, (n - 1) as nat),
            offsets_after(catalog(t).top_left_offset, (n - 1) as nat)[0],
            catalog(t).height,
        )
    }
}

/// The window of the four cells `c` under the offset `off` holds all
/// four, and the offset leads up and to the left by less than a window.
pub open spec fn window_holds(c: Four, off: Pos, side: int) -> bool {
    let k = corner_of(c, off);
    &&& -side < off.0 <= 0 && -side < off.1 <= 0
    &&& k.0 <= c.0.0 < k.0 + side && k.1 <= c.0.1 < k.1 + side
    &&& k.0 <= c.1.0 < k.0 + side && k.1 <= c.1.1 < k.1 + side
    &&& k.0 <= c.2.0 < k.0 + side && k.1 <= c.2.1 < k.1 + side
    &&& k.0 <= c.3.0 < k.0 + side && k.1 <= c.3.1 < k.1 + side
}

/// On a grid without borders the window of a catalog piece holds the
/// piece after `n` quarter turns.
pub open spec fn piece_fits(t: ShapeType, dr: int, dc: int, n: nat) -> bool {
    window_holds(
        four_after(t, dr, dc, n),
        offsets_after(catalog(t).top_left_offset, n)[0],
        catalog(t).height,
    )
}

/// The running piece of `b` is a catalog piece of type `t` in one of its
/// positions: it occupies the cells of a piece that appeared moved by
/// `(dr, dc)` and has made `n` quarter turns, and the offset correction
/// that belongs to this position is in force.
pub open spec fn stands_turned(b: BoardView, t: ShapeType, dr: int, dc: int, n: nat) -> bool {
    &&& is_concrete(t)
    &&& b.running_shape.height == catalog(t).height
    &&& b.running_shape.top_left_offset == offsets_after(catalog(t).top_left_offset, n)
    &&& forall|q: Pos| #[trigger] b.occupied().contains(q) <==> one_of(q, four_after(t, dr, dc, n))
}

/// How a value wraps that lies less than a modulus outside `0..modulus`
/// on the low side: what is below zero goes up by the modulus, the rest
/// stays.
pub proof fn lemma_wrap(value: int, modulus: int)
    requires
        modulus > 0,
        -modulus <= value < modulus,
    ensures
        value % modulus == if value < 0 {
            value + modulus
        } else {
            value
        },
{
    if value < 0 {
        vstd::arithmetic::div_mod::lemma_mod_add_multiples_vanish(value, modulus);
        vstd::arithmetic::div_mod::lemma_small_mod((value + modulus) as nat, modulus as nat);
    } else {
        vstd::arithmetic::div_mod::lemma_small_mod(value as nat, modulus as nat);
    }
}

/// The least occupied cell of a piece of four known cells is the first of
/// the four.
pub proof fn lemma_least_of_four(b: BoardView, c: Four)
    requires
        forall|q: Pos| #[trigger] b.occupied().contains(q) <==> one_of(q, c),
    ensures
        b.least_occupied() == first_of_four(c),
        b.occupied().contains(first_of_four(c)),
{
    let occ = b.occupied();
    let m = first_of_four(c);
    assert(one_of(c.0, c) && one_of(c.1, c) && one_of(c.2, c) && one_of(c.3, c));
    assert(occ.contains(m));
    assert forall|i: int| 0 <= i < occ.len() implies !pos_before(#[trigger] occ[i], m) by {
        assert(occ.contains(occ[i]));
        assert(one_of(occ[i], c));
    }
    assert(is_least(occ, m));
    lemma_least_is_unique(occ, b.least_occupied(), m);
}

/// One accepted quarter turn of a piece of four known cells: the window's
/// corner is the least of them plus the offset in force, not wrapped, and
/// the piece then occupies the four cells that the turn takes them to.
pub proof fn lemma_turn_of_four(b: BoardView, next: BoardView, c: Four)
    requires
        b.wf(),
        b.can_turn(),
        b.turns_into(next),
        forall|q: Pos| #[trigger] b.occupied().contains(q) <==> one_of(q, c),
    ensures
        b.window_corner() == corner_of(c, b.running_shape.top_left_offset[0]),
        forall|q: Pos| #[trigger]
            next.occupied().contains(q) <==> one_of(
                q,
                turned_four(c, b.running_shape.top_left_offset[0], b.running_shape.height),
            ),
        next.wf(),
        next.width == b.width,
        next.height == b.height,
        next.running_shape.height == b.running_shape.height,
        next.running_shape.top_left_offset == cycled(b.running_shape.top_left_offset),
{
    let occ = b.occupied();
    let (ca, cb, cc, cd) = c;
    let m = first_of_four(c);
    let off = b.running_shape.top_left_offset[0];
    let side = b.running_shape.height;
    assert(one_of(ca, c) && one_of(cb, c) && one_of(cc, c) && one_of(cd, c));
    assert(occ.contains(ca) && occ.contains(cb) && occ.contains(cc) && occ.contains(cd));
    lemma_least_of_four(b, c);
    let k = choose|k: int| 0 <= k < occ.len() && occ[k] == m;
    assert(b.in_grid(occ[k]));
    assert(b.in_window(occ[k]));
    lemma_wrap(m.0 + off.0, b.height);
    lemma_wrap(m.1 + off.1, b.width);
    let corner = b.window_corner();
    assert(corner == corner_of(c, off));
    assert forall|p: Pos| occ.contains(p) implies b.in_window(p) by {
        let i = choose|i: int| 0 <= i < occ.len() && occ[i] == p;
        assert(b.in_window(occ[i]));
    }
    assert(b.in_window(ca) && b.in_window(cb) && b.in_window(cc) && b.in_window(cd));
    let n = turned_four(c, off, side);
    assert forall|q: Pos| #[trigger] next.occupied().contains(q) <==> one_of(q, n) by {
        assert(next.occupied().contains(q) <==> b.turn_fills(q));
        if b.in_window(q) {
            let src = b.turn_source(q);
            assert(b.cells[src.0][src.1] == Cell::Running <==> occ.contains((src.0, src.1)));
            assert(occ.contains(src) <==> one_of(src, c));
        }
    }
    lemma_turn_keeps_playable(b, next);
}

/// A sequence of four positions holds its four entries and nothing else.
pub proof fn lemma_contains_four(s: Seq<Pos>, q: Pos)
    requires
        s.len() == 4,
    ensures
        s.contains(q) <==> one_of(q, (s[0], s[1], s[2], s[3])),
{
    if s.contains(q) {
        let i = choose|i: int| 0 <= i < s.len() && s[i] == q;
        assert(i == 0 || i == 1 || i == 2 || i == 3);
    }
}

/// The offset corrections of a catalog piece start again after the fourth
/// turn.
pub proof fn lemma_offsets_in_turn(t: ShapeType)
    requires
        is_concrete(t),
    ensures
        ({
            let o = catalog(t).top_left_offset;
            &&& offsets_after(o, 0)[0] == o[0]
            &&& offsets_after(o, 1)[0] == o[if o.len() == 1 { 0int } else { 1int }]
            &&& offsets_after(o, 2)[0] == o[if o.len() == 1 { 0int } else { 2int }]
            &&& offsets_after(o, 3)[0] == o[if o.len() == 1 { 0int } else { 3int }]
            &&& offsets_after(o, 4) == o
        }),
{
    reveal_with_fuel(offsets_after, 5);
    let o = catalog(t).top_left_offset;
    if t == ShapeType::Square {
        assert(o.len() == 1);
        assert(cycled(o) =~= o);
    } else {
        assert(o.len() == 4);
        assert(cycled(o) =~= seq![o[1], o[2], o[3], o[0]]);
        assert(cycled(cycled(o)) =~= seq![o[2], o[3], o[0], o[1]]);
        assert(cycled(cycled(cycled(o))) =~= seq![o[3], o[0], o[1], o[2]]);
        assert(cycled(cycled(cycled(cycled(o)))) =~= o);
    }
}

/// The four positions of the square, turn by turn.
proof fn lemma_round_square(dr: int, dc: int)
    ensures
        same_four(
            four_after(ShapeType::Square, dr, dc, 4),
            four_after(ShapeType::Square, dr, dc, 0),
        ),
        piece_fits(ShapeType::Square, dr, dc, 0),
        piece_fits(ShapeType::Square, dr, dc, 1),
        piece_fits(ShapeType::Square, dr, dc, 2),
        piece_fits(ShapeType::Square, dr, dc, 3),
{
    let t = ShapeType::Square;
    reveal_with_fuel(four_after, 5);
    lemma_offsets_in_turn(t);
    let o = catalog(t).top_left_offset;
    let c0 = four_after(t, dr, dc, 0);
    assert(c0 == ((dr, dc), (dr, dc + 1), (dr + 1, dc), (dr + 1, dc + 1)));
    assert(offsets_after(o, 0)[0] == (0int, 0int));
    assert(corner_of(c0, offsets_after(o, 0)[0]) == (dr, dc));
    let c1 = turned_four(c0, offsets_after(o, 0)[0], 2);
    assert(c1 == ((dr + 1, dc), (dr, dc), (dr + 1, dc + 1), (dr, dc + 1)));
    assert(four_after(t, dr, dc, 1) == c1);
    assert(offsets_after(o, 1)[0] == (0int, 0int));
    assert(corner_of(c1, offsets_after(o, 1)[0]) == (dr, dc));
    let c2 = turned_four(c1, offsets_after(o, 1)[0], 2);
    assert(c2 == ((dr + 1, dc + 1), (dr + 1, dc), (dr, dc + 1), (dr, dc)));
    assert(four_after(t, dr, dc, 2) == c2);
    assert(offsets_after(o, 2)[0] == (0int, 0int));
    assert(corner_of(c2, offsets_after(o, 2)[0]) == (dr, dc));
    let c3 = turned_four(c2, offsets_after(o, 2)[0], 2);
    assert(c3 == ((dr, dc + 1), (dr + 1, dc + 1), (dr, dc), (dr + 1, dc)));
    assert(four_after(t, dr, dc, 3) == c3);
    assert(offsets_after(o, 3)[0] == (0int, 0int));
    assert(corner_of(c3, offsets_after(o, 3)[0]) == (dr, dc));
    let c4 = turned_four(c3, offsets_after(o, 3)[0], 2);
    assert(c4 == ((dr, dc), (dr, dc + 1), (dr + 1, dc), (dr + 1, dc + 1)));
    assert(four_after(t, dr, dc, 4) == c4);
}

/// The four positions of the S piece, turn by turn.
proof fn lemma_round_s(dr: int, dc: int)
    ensures
        same_four(
            four_after(ShapeType::S, dr, dc, 4),
            four_after(ShapeType::S, dr, dc, 0),
        ),
        piece_fits(ShapeType::S, dr, dc, 0),
        piece_fits(ShapeType::S, dr, dc, 1),
        piece_fits(ShapeType::S, dr, dc, 2),
        piece_fits(ShapeType::S, dr, dc, 3),
{
    let t = ShapeType::S;
    reveal_with_fuel(four_after, 5);
    lemma_offsets_in_turn(t);
    let o = catalog(t).top_left_offset;
    let c0 = four_after(t, dr, dc, 0);
    assert(c0 == ((dr, dc), (dr, dc + 1), (dr + 1, dc - 1), (dr + 1, dc)));
    assert(offsets_after(o, 0)[0] == (-1int, -1int));
    assert(corner_of(c0, offsets_after(o, 0)[0]) == (dr - 1, dc - 1));
    let c1 = turned_four(c0, offsets_after(o, 0)[0], 3);
    assert(c1 == ((dr, dc), (dr - 1, dc), (dr + 1, dc + 1), (dr, dc + 1)));
    assert(four_after(t, dr, dc, 1) == c1);
    assert(offsets_after(o, 1)[0] == (0int, -1int));
    assert(corner_of(c1, offsets_after(o, 1)[0]) == (dr - 1, dc - 1));
    let c2 = turned_four(c1, offsets_after(o, 1)[0], 3);
    assert(c2 == ((dr, dc), (dr, dc - 1), (dr - 1, dc + 1), (dr - 1, dc)));
    assert(four_after(t, dr, dc, 2) == c2);
    assert(offsets_after(o, 2)[0] == (0int, -1int));
    assert(corner_of(c2, offsets_after(o, 2)[0]) == (dr - 1, dc - 1));
    let c3 = turned_four(c2, offsets_after(o, 2)[0], 3);
    assert(c3 == ((dr, dc), (dr + 1, dc), (dr - 1, dc - 1), (dr, dc - 1)));
    assert(four_after(t, dr, dc, 3) == c3);
    assert(offsets_after(o, 3)[0] == (0int, 0int));
    assert(corner_of(c3, offsets_after(o, 3)[0]) == (dr - 1, dc - 1));
    let c4 = turned_four(c3, offsets_after(o, 3)[0], 3);
    assert(c4 == ((dr, dc), (dr, dc + 1), (dr + 1, dc - 1), (dr + 1, dc)));
    assert(four_after(t, dr, dc, 4) == c4);
}

/// The four positions of the Z piece, turn by turn.
proof fn lemma_round_z(dr: int, dc: int)
    ensures
        same_four(
            four_after(ShapeType::Z, dr, dc, 4),
            four_after(ShapeType::Z, dr, dc, 0),
        ),
        piece_fits(ShapeType::Z, dr, dc, 0),
        piece_fits(ShapeType::Z, dr, dc, 1),
        piece_fits(ShapeType::Z, dr, dc, 2),
        piece_fits(ShapeType::Z, dr, dc, 3),
{
    let t = ShapeType::Z;
    reveal_with_fuel(four_after, 5);
    lemma_offsets_in_turn(t);
    let o = catalog(t).top_left_offset;
    let c0 = four_after(t, dr, dc, 0);
    assert(c0 == ((dr, dc), (dr, dc - 1), (dr + 1, dc), (dr + 1, dc + 1)));
    assert(offsets_after(o, 0)[0] == (-1int, 0int));
    assert(corner_of(c0, offsets_after(o, 0)[0]) == (dr - 1, dc - 1));
    let c1 = turned_four(c0, offsets_after(o, 0)[0], 3);
    assert(c1 == ((dr, dc), (dr + 1, dc), (dr, dc + 1), (dr - 1, dc + 1)));
    assert(four_after(t, dr, dc, 1) == c1);
    assert(offsets_after(o, 1)[0] == (0int, -2int));
    assert(corner_of(c1, offsets_after(o, 1)[0]) == (dr - 1, dc - 1));
    let c2 = turned_four(c1, offsets_after(o, 1)[0], 3);
    assert(c2 == ((dr, dc), (dr, dc + 1), (dr - 1, dc), (dr - 1, dc - 1)));
    assert(four_after(t, dr, dc, 2) == c2);
    assert(offsets_after(o, 2)[0] == (0int, 0int));
    assert(corner_of(c2, offsets_after(o, 2)[0]) == (dr - 1, dc - 1));
    let c3 = turned_four(c2, offsets_after(o, 2)[0], 3);
    assert(c3 == ((dr, dc), (dr - 1, dc), (dr, dc - 1), (dr + 1, dc - 1)));
    assert(four_after(t, dr, dc, 3) == c3);
    assert(offsets_after(o, 3)[0] == (0int, -1int));
    assert(corner_of(c3, offsets_after(o, 3)[0]) == (dr - 1, dc - 1));
    let c4 = turned_four(c3, offsets_after(o, 3)[0], 3);
    assert(c4 == ((dr, dc), (dr, dc - 1), (dr + 1, dc), (dr + 1, dc + 1)));
    assert(four_after(t, dr, dc, 4) == c4);
}

/// The four positions of the T piece, turn by turn.
proof fn lemma_round_t(dr: int, dc: int)
    ensures
        same_four(
            four_after(ShapeType::T, dr, dc, 4),
            four_after(ShapeType::T, dr, dc, 0),
        ),
        piece_fits(ShapeType::T, dr, dc, 0),
        piece_fits(ShapeType::T, dr, dc, 1),
        piece_fits(ShapeType::T, dr, dc, 2),
        piece_fits(ShapeType::T, dr, dc, 3),
{
    let t = ShapeType::T;
    reveal_with_fuel(four_after, 5);
    lemma_offsets_in_turn(t);
    let o = catalog(t).top_left_offset;
    let c0 = four_after(t, dr, dc, 0);
    assert(c0 == ((dr, dc), (dr, dc - 1), (dr, dc + 1), (dr + 1, dc)));
    assert(offsets_after(o, 0)[0] == (-1int, 0int));
    assert(corner_of(c0, offsets_after(o, 0)[0]) == (dr - 1, dc - 1));
    let c1 = turned_four(c0, offsets_after(o, 0)[0], 3);
    assert(c1 == ((dr, dc), (dr + 1, dc), (dr - 1, dc), (dr, dc + 1)));
    assert(four_after(t, dr, dc, 1) == c1);
    assert(offsets_after(o, 1)[0] == (0int, -1int));
    assert(corner_of(c1, offsets_after(o, 1)[0]) == (dr - 1, dc - 1));
    let c2 = turned_four(c1, offsets_after(o, 1)[0], 3);
    assert(c2 == ((dr, dc), (dr, dc + 1), (dr, dc - 1), (dr - 1, dc)));
    assert(four_after(t, dr, dc, 2) == c2);
    assert(offsets_after(o, 2)[0] == (0int, -1int));
    assert(corner_of(c2, offsets_after(o, 2)[0]) == (dr - 1, dc - 1));
    let c3 = turned_four(c2, offsets_after(o, 2)[0], 3);
    assert(c3 == ((dr, dc), (dr - 1, dc), (dr + 1, dc), (dr, dc - 1)));
    assert(four_after(t, dr, dc, 3) == c3);
    assert(offsets_after(o, 3)[0] == (0int, -1int));
    assert(corner_of(c3, offsets_after(o, 3)[0]) == (dr - 1, dc - 1));
    let c4 = turned_four(c3, offsets_after(o, 3)[0], 3);
    assert(c4 == ((dr, dc), (dr, dc - 1), (dr, dc + 1), (dr + 1, dc)));
    assert(four_after(t, dr, dc, 4) == c4);
}

/// The four positions of the L piece, turn by turn.
proof fn lemma_round_l(dr: int, dc: int)
    ensures
        same_four(
            four_after(ShapeType::L, dr, dc, 4),
            four_after(ShapeType::L, dr, dc, 0),
        ),
        piece_fits(ShapeType::L, dr, dc, 0),
        piece_fits(ShapeType::L, dr, dc, 1),
        piece_fits(ShapeType::L, dr, dc, 2),
        piece_fits(ShapeType::L, dr, dc, 3),
{
    let t = ShapeType::L;
    reveal_with_fuel(four_after, 5);
    lemma_offsets_in_turn(t);
    let o = catalog(t).top_left_offset;
    let c0 = four_after(t, dr, dc, 0);
    assert(c0 == ((dr, dc - 1), (dr + 1, dc - 1), (dr + 1, dc), (dr + 1, dc + 1)));
    assert(offsets_after(o, 0)[0] == (0int, 0int));
    assert(corner_of(c0, offsets_after(o, 0)[0]) == (dr, dc - 1));
    let c1 = turned_four(c0, offsets_after(o, 0)[0], 3);
    assert(c1 == ((dr + 2, dc - 1), (dr + 2, dc), (dr + 1, dc), (dr, dc)));
    assert(four_after(t, dr, dc, 1) == c1);
    assert(offsets_after(o, 1)[0] == (0int, -1int));
    assert(corner_of(c1, offsets_after(o, 1)[0]) == (dr, dc - 1));
    let c2 = turned_four(c1, offsets_after(o, 1)[0], 3);
    assert(c2 == ((dr + 2, dc + 1), (dr + 1, dc + 1), (dr + 1, dc), (dr + 1, dc - 1)));
    assert(four_after(t, dr, dc, 2) == c2);
    assert(offsets_after(o, 2)[0] == (-1int, 0int));
    assert(corner_of(c2, offsets_after(o, 2)[0]) == (dr, dc - 1));
    let c3 = turned_four(c2, offsets_after(o, 2)[0], 3);
    assert(c3 == ((dr, dc + 1), (dr, dc), (dr + 1, dc), (dr + 2, dc)));
    assert(four_after(t, dr, dc, 3) == c3);
    assert(offsets_after(o, 3)[0] == (0int, -1int));
    assert(corner_of(c3, offsets_after(o, 3)[0]) == (dr, dc - 1));
    let c4 = turned_four(c3, offsets_after(o, 3)[0], 3);
    assert(c4 == ((dr, dc - 1), (dr + 1, dc - 1), (dr + 1, dc), (dr + 1, dc + 1)));
    assert(four_after(t, dr, dc, 4) == c4);
}

/// The four positions of the line, turn by turn.
proof fn lemma_round_line(dr: int, dc: int)
    ensures
        same_four(
            four_after(ShapeType::Line, dr, dc, 4),
            four_after(ShapeType::Line, dr, dc, 0),
        ),
        piece_fits(ShapeType::Line, dr, dc, 0),
        piece_fits(ShapeType::Line, dr, dc, 1),
        piece_fits(ShapeType::Line, dr, dc, 2),
        piece_fits(ShapeType::Line, dr, dc, 3),
{
    let t = ShapeType::Line;
    reveal_with_fuel(four_after, 5);
    lemma_offsets_in_turn(t);
    let o = catalog(t).top_left_offset;
    let c0 = four_after(t, dr, dc, 0);
    assert(c0 == ((dr, dc), (dr + 1, dc), (dr + 2, dc), (dr + 3, dc)));
    assert(offsets_after(o, 0)[0] == (0int, -2int));
    assert(corner_of(c0, offsets_after(o, 0)[0]) == (dr, dc - 2));
    let c1 = turned_four(c0, offsets_after(o, 0)[0], 4);
    assert(c1 == ((dr + 1, dc - 2), (dr + 1, dc - 1), (dr + 1, dc), (dr + 1, dc + 1)));
    assert(four_after(t, dr, dc, 1) == c1);
    assert(offsets_after(o, 1)[0] == (-2int, 0int));
    assert(corner_of(c1, offsets_after(o, 1)[0]) == (dr - 1, dc - 2));
    let c2 = turned_four(c1, offsets_after(o, 1)[0], 4);
    assert(c2 == ((dr + 2, dc), (dr + 1, dc), (dr, dc), (dr - 1, dc)));
    assert(four_after(t, dr, dc, 2) == c2);
    assert(offsets_after(o, 2)[0] == (0int, -1int));
    assert(corner_of(c2, offsets_after(o, 2)[0]) == (dr - 1, dc - 1));
    let c3 = turned_four(c2, offsets_after(o, 2)[0], 4);
    assert(c3 == ((dr + 1, dc + 2), (dr + 1, dc + 1), (dr + 1, dc), (dr + 1, dc - 1)));
    assert(four_after(t, dr, dc, 3) == c3);
    assert(offsets_after(o, 3)[0] == (-1int, 0int));
    assert(corner_of(c3, offsets_after(o, 3)[0]) == (dr, dc - 1));
    let c4 = turned_four(c3, offsets_after(o, 3)[0], 4);
    assert(c4 == ((dr, dc), (dr + 1, dc), (dr + 2, dc), (dr + 3, dc)));
    assert(four_after(t, dr, dc, 4) == c4);
}

/// The four positions of the mirrored L piece, turn by turn.
proof fn lemma_round_mirrored_l(dr: int, dc: int)
    ensures
        same_four(
            four_after(ShapeType::MirroredL, dr, dc, 4),
            four_after(ShapeType::MirroredL, dr, dc, 0),
        ),
        piece_fits(ShapeType::MirroredL, dr, dc, 0),
        piece_fits(ShapeType::MirroredL, dr, dc, 1),
        piece_fits(ShapeType::MirroredL, dr, dc, 2),
        piece_fits(ShapeType::MirroredL, dr, dc, 3),
{
    let t = ShapeType::MirroredL;
    reveal_with_fuel(four_after, 5);
    lemma_offsets_in_turn(t);
    let o = catalog(t).top_left_offset;
    let c0 = four_after(t, dr, dc, 0);
    assert(c0 == ((dr, dc + 1), (dr + 1, dc + 1), (dr + 1, dc), (dr + 1, dc - 1)));
    assert(offsets_after(o, 0)[0] == (0int, -2int));
    assert(corner_of(c0, offsets_after(o, 0)[0]) == (dr, dc - 1));
    let c1 = turned_four(c0, offsets_after(o, 0)[0], 3);
    assert(c1 == ((dr, dc - 1), (dr, dc), (dr + 1, dc), (dr + 2, dc)));
    assert(four_after(t, dr, dc, 1) == c1);
    assert(offsets_after(o, 1)[0] == (0int, 0int));
    assert(corner_of(c1, offsets_after(o, 1)[0]) == (dr, dc - 1));
    let c2 = turned_four(c1, offsets_after(o, 1)[0], 3);
    assert(c2 == ((dr + 2, dc - 1), (dr + 1, dc - 1), (dr + 1, dc), (dr + 1, dc + 1)));
    assert(four_after(t, dr, dc, 2) == c2);
    assert(offsets_after(o, 2)[0] == (-1int, 0int));
    assert(corner_of(c2, offsets_after(o, 2)[0]) == (dr, dc - 1));
    let c3 = turned_four(c2, offsets_after(o, 2)[0], 3);
    assert(c3 == ((dr + 2, dc + 1), (dr + 2, dc), (dr + 1, dc), (dr, dc)));
    assert(four_after(t, dr, dc, 3) == c3);
    assert(offsets_after(o, 3)[0] == (0int, -1int));
    assert(corner_of(c3, offsets_after(o, 3)[0]) == (dr, dc - 1));
    let c4 = turned_four(c3, offsets_after(o, 3)[0], 3);
    assert(c4 == ((dr, dc + 1), (dr + 1, dc + 1), (dr + 1, dc), (dr + 1, dc - 1)));
    assert(four_after(t, dr, dc, 4) == c4);
}

/// Four quarter turns on a grid without borders take the cells of a
/// catalog piece, as it appeared, back to where they were, and in each of
/// the four positions on the way the window holds the piece.
pub proof fn lemma_catalog_piece_comes_round(t: ShapeType, dr: int, dc: int)
    requires
        is_concrete(t),
    ensures
        same_four(four_after(t, dr, dc, 4), four_after(t, dr, dc, 0)),
        piece_fits(t, dr, dc, 0),
        piece_fits(t, dr, dc, 1),
        piece_fits(t, dr, dc, 2),
        piece_fits(t, dr, dc, 3),
{
    match t {
        ShapeType::Square => lemma_round_square(dr, dc),
        ShapeType::S => lemma_round_s(dr, dc),
        ShapeType::Z => lemma_round_z(dr, dc),
        ShapeType::T => lemma_round_t(dr, dc),
        ShapeType::L => lemma_round_l(dr, dc),
        ShapeType::Line => lemma_round_line(dr, dc),
        ShapeType::MirroredL => lemma_round_mirrored_l(dr, dc),
        ShapeType::Random => {},
    }
}

/// A quarter turn takes foursomes of the same cells to foursomes of the
/// same cells.
pub proof fn lemma_turn_keeps_same_four(x: Four, y: Four, off: Pos, side: int)
    requires
        same_four(x, y),
    ensures
        same_four(turned_four(x, off, side), turned_four(y, off, side)),
{
    let mx = first_of_four(x);
    let my = first_of_four(y);
    assert(one_of(mx, x) && one_of(my, y));
    assert(one_of(mx, y) && one_of(my, x));
    assert(one_of(x.0, x) && one_of(x.1, x) && one_of(x.2, x) && one_of(x.3, x));
    assert(one_of(y.0, y) && one_of(y.1, y) && one_of(y.2, y) && one_of(y.3, y));
    assert(mx == my);
    let k = corner_of(x, off);
    let tx = turned_four(x, off, side);
    let ty = turned_four(y, off, side);
    assert forall|q: Pos|
        #![trigger one_of(q, tx)]
        #![trigger one_of(q, ty)]
        one_of(q, tx) <==> one_of(q, ty) by {
        let src = (k.0 + (q.1 - k.1), k.1 + side - 1 - (q.0 - k.0));
        assert(one_of(q, tx) <==> one_of(src, x));
        assert(one_of(q, ty) <==> one_of(src, y));
    }
}

/// On a grid without borders every catalog piece is back where it was
/// after four more quarter turns, whatever position it was in.
pub proof fn lemma_four_more_turns(t: ShapeType, dr: int, dc: int, n: nat)
    requires
        is_concrete(t),
    ensures
        same_four(four_after(t, dr, dc, n + 4), four_after(t, dr, dc, n)),
        offsets_after(catalog(t).top_left_offset, n + 4) == offsets_after(
            catalog(t).top_left_offset,
            n,
        ),
    decreases n,
{
    let o = catalog(t).top_left_offset;
    if n == 0 {
        lemma_catalog_piece_comes_round(t, dr, dc);
        lemma_offsets_in_turn(t);
    } else {
        let m = (n - 1) as nat;
        lemma_four_more_turns(t, dr, dc, m);
        assert(offsets_after(o, n + 4) == cycled(offsets_after(o, m + 4)));
        assert(four_after(t, dr, dc, n + 4) == turned_four(
            four_after(t, dr, dc, m + 4),
            offsets_after(o, m + 4)[0],
            catalog(t).height,
        ));
        lemma_turn_keeps_same_four(
            four_after(t, dr, dc, m + 4),
            four_after(t, dr, dc, m),
            offsets_after(o, m)[0],
            catalog(t).height,
        );
    }
}

/// A window that holds four cells holds every foursome of the same cells.
pub proof fn lemma_window_holds_same(x: Four, y: Four, off: Pos, side: int)
    requires
        same_four(x, y),
        window_holds(y, off, side),
    ensures
        window_holds(x, off, side),
{
    assert(one_of(first_of_four(x), x) && one_of(first_of_four(y), y));
    assert(one_of(first_of_four(x), y) && one_of(first_of_four(y), x));
    assert(one_of(x.0, x) && one_of(x.1, x) && one_of(x.2, x) && one_of(x.3, x));
    assert(one_of(y.0, y) && one_of(y.1, y) && one_of(y.2, y) && one_of(y.3, y));
    assert(one_of(x.0, y) && one_of(x.1, y) && one_of(x.2, y) && one_of(x.3, y));
    assert(first_of_four(x) == first_of_four(y));
}

/// On a grid without borders the window of a catalog piece holds the
/// piece in every position.
pub proof fn lemma_piece_fits(t: ShapeType, dr: int, dc: int, n: nat)
    requires
        is_concrete(t),
    ensures
        piece_fits(t, dr, dc, n),
    decreases n,
{
    if n < 4 {
        lemma_catalog_piece_comes_round(t, dr, dc);
    } else {
        let m = (n - 4) as nat;
        lemma_piece_fits(t, dr, dc, m);
        lemma_four_more_turns(t, dr, dc, m);
        lemma_window_holds_same(
            four_after(t, dr, dc, n),
            four_after(t, dr, dc, m),
            offsets_after(catalog(t).top_left_offset, m)[0],
            catalog(t).height,
        );
    }
}

/// An accepted quarter turn takes a catalog piece from one of its
/// positions to the next.
pub proof fn lemma_turn_step(
    b: BoardView,
    next: BoardView,
    t: ShapeType,
    dr: int,
    dc: int,
    n: nat,
)
    requires
        b.wf(),
        stands_turned(b, t, dr, dc, n),
        b.can_turn(),
        b.turns_into(next),
    ensures
        next.wf(),
        stands_turned(next, t, dr, dc, n + 1),
        next.width == b.width,
        next.height == b.height,
{
    lemma_turn_of_four(b, next, four_after(t, dr, dc, n));
    assert(four_after(t, dr, dc, n + 1) == turned_four(
        four_after(t, dr, dc, n),
        offsets_after(catalog(t).top_left_offset, n)[0],
        catalog(t).height,
    ));
    assert(offsets_after(catalog(t).top_left_offset, n + 1) == cycled(
        offsets_after(catalog(t).top_left_offset, n),
    ));
}

/// Four quarter turns in a row, none of them refused, bring a catalog
/// piece back to the cells it occupied, with the offset correction in
/// force that was in force before. This holds of each of the seven piece
/// types, wherever the piece stands and in whichever of its positions.
pub proof fn lemma_four_turns_restore(
    b0: BoardView,
    b1: BoardView,
    b2: BoardView,
    b3: BoardView,
    b4: BoardView,
    t: ShapeType,
    dr: int,
    dc: int,
    n: nat,
)
    requires
        b0.wf(),
        stands_turned(b0, t, dr, dc, n),
        b0.can_turn(),
        b0.turns_into(b1),
        b1.can_turn(),
        b1.turns_into(b2),
        b2.can_turn(),
        b2.turns_into(b3),
        b3.can_turn(),
        b3.turns_into(b4),
    ensures
        b4.wf(),
        b4.occupied().to_set() == b0.occupied().to_set(),
        b4.running_shape.top_left_offset == b0.running_shape.top_left_offset,
        b4.cells == b0.cells,
        stands_turned(b4, t, dr, dc, n),
{
    lemma_turn_step(b0, b1, t, dr, dc, n);
    lemma_turn_step(b1, b2, t, dr, dc, n + 1);
    lemma_turn_step(b2, b3, t, dr, dc, n + 2);
    lemma_turn_step(b3, b4, t, dr, dc, n + 3);
    lemma_four_more_turns(t, dr, dc, n);
    lemma_same_cells(b4, b0, four_after(t, dr, dc, n + 4), four_after(t, dr, dc, n));
    lemma_moves_keep_settled_cells(b0, 0, b1);
    lemma_moves_keep_settled_cells(b1, 0, b2);
    lemma_moves_keep_settled_cells(b2, 0, b3);
    lemma_moves_keep_settled_cells(b3, 0, b4);
    assert(same_settled_cells(b4, b0));
    assert forall|q: Pos| b4.occupied().contains(q) <==> b0.occupied().contains(q) by {
        assert(b4.occupied().to_set().contains(q) <==> b0.occupied().to_set().contains(q));
    }
    lemma_same_grid(b4, b0);
}

/// Two boards whose pieces occupy foursomes of the same cells have the
/// same set of occupied cells.
pub proof fn lemma_same_cells(a: BoardView, b: BoardView, x: Four, y: Four)
    requires
        same_four(x, y),
        forall|q: Pos| #[trigger] a.occupied().contains(q) <==> one_of(q, x),
        forall|q: Pos| #[trigger] b.occupied().contains(q) <==> one_of(q, y),
    ensures
        a.occupied().to_set() == b.occupied().to_set(),
        forall|q: Pos| #[trigger] a.occupied().contains(q) <==> one_of(q, y),
{
    assert forall|q: Pos| a.occupied().contains(q) <==> b.occupied().contains(q) by {
        assert(one_of(q, x) <==> one_of(q, y));
    }
    assert(a.occupied().to_set() =~= b.occupied().to_set());
}

} // verus!

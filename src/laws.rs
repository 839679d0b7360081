//! Properties of the turn protocol that hold across calls.
use vstd::prelude::*;

use crate::board::{lemma_cell_index, Board};
use crate::cell::Direction;
use crate::game::{Game, TurnError};

verus! {

/// Pieces stack from the bottom: when rows `0 .. k` of column `x` are taken
/// and the rows above are empty, the column accepts a piece, the piece lands
/// on row `k`, and afterwards rows `0 .. k + 1` are taken and the rest empty.
pub proof fn lemma_gravity_fill(g: Game, x: int, k: int)
    requires
        g.wf(),
        0 <= x < g.board.width,
        0 <= k < g.board.height,
        g.board.column_filled_to(x, k),
    ensures
        g.turn_error(x) is None,
        g.lands_at(x, k),
        g.landing_row(x) == k,
        forall|b: Board|
            b.width == g.board.width && b.height == g.board.height && b.cells@ == g.placed(x, k)
                ==> #[trigger] b.column_filled_to(x, k + 1),
{
    let w = g.board.width as int;
    let h = g.board.height as int;
    assert(g.board.occ(x, k) == 0);
    assert(g.lands_at(x, k));
    g.lemma_landing_row(x, k);
    assert forall|b: Board|
        b.width == g.board.width && b.height == g.board.height && b.cells@ == g.placed(
            x,
            k,
        ) implies #[trigger] b.column_filled_to(x, k + 1) by {
        lemma_cell_index(w, h, x, k);
        assert forall|y: int| 0 <= y < b.height implies (#[trigger] b.occ(x, y) != 0 <==> y < k
            + 1) by {
            lemma_cell_index(w, h, x, y);
            if y != k {
                assert(b.occ(x, y) == g.board.occ(x, y));
            }
        }
    }
}

/// A column that holds `height` pieces refuses every further piece with
/// `ColumnFull`.
pub proof fn lemma_full_column_rejected(g: Game, x: int)
    requires
        g.wf(),
        0 <= x < g.board.width,
        g.board.column_filled_to(x, g.board.height as int),
    ensures
        g.turn_error(x) == Some(TurnError::ColumnFull),
{
    assert forall|y: int| 0 <= y < g.board.height implies g.board.occ(x, y) != 0 by {
        assert(g.board.occ(x, y) != 0 <==> y < g.board.height);
    }
}

/// The player to move after `n` turns that began with player `a`, among `p`.
pub open spec fn rotated(a: int, p: int, n: nat) -> int
    decreases n,
{
    if n == 0 {
        a
    } else {
        (rotated(a, p, (n - 1) as nat) + 1) % p
    }
}

/// Player `i` is to move after some turn count of at least `k`.
pub open spec fn moves_again(p: int, i: int, k: nat) -> bool {
    exists|m: nat| m >= k && #[trigger] rotated(0, p, m) == i
}

proof fn lemma_rotated_mod(p: int, n: nat)
    requires
        p > 0,
    ensures
        rotated(0, p, n) == (n as int) % p,
    decreases n,
{
    if n > 0 {
        let m: nat = (n - 1) as nat;
        lemma_rotated_mod(p, m);
        assert(rotated(0, p, n) == (rotated(0, p, m) + 1) % p);
        assert(m as int + 1 == n as int);
        vstd::arithmetic::div_mod::lemma_add_mod_noop(m as int, 1, p);
        if p > 1 {
            vstd::arithmetic::div_mod::lemma_small_mod(1, p as nat);
            assert(((m as int % p) + 1) % p == (m as int + 1) % p);
        } else {
            vstd::arithmetic::div_mod::lemma_mod_bound(n as int, p);
            vstd::arithmetic::div_mod::lemma_mod_bound(rotated(0, p, m) + 1, p);
        }
    } else {
        vstd::arithmetic::div_mod::lemma_small_mod(0, p as nat);
    }
}

/// Turns go round the table: after `n` turns from player 0, player `n % p` is
/// to move, and every player is to move again after any number of turns.
pub proof fn lemma_round_robin(p: int, n: nat)
    requires
        p > 0,
    ensures
        rotated(0, p, n) == (n as int) % p,
        forall|i: int, k: nat| 0 <= i < p ==> #[trigger] moves_again(p, i, k),
{
    lemma_rotated_mod(p, n);
    assert forall|i: int, k: nat| 0 <= i < p implies #[trigger] moves_again(p, i, k) by {
        let m: nat = (p * k + i) as nat;
        assert(p * k >= k) by (nonlinear_arith)
            requires
                p > 0,
                k >= 0,
        ;
        lemma_rotated_mod(p, m);
        vstd::arithmetic::div_mod::lemma_mod_multiples_vanish(k as int, i, p);
        vstd::arithmetic::div_mod::lemma_small_mod(i as nat, p as nat);
        assert(rotated(0, p, m) == i);
    }
}

/// A line of equal occupants through (x, y) along the axis of `d`, reaching
/// `hi` cells along `d` and `lo` cells the other way, gives that axis a length
/// of at least `1 + lo + hi`; once that reaches `connect_size` the piece on
/// (x, y) wins, whatever the other axes hold.
pub proof fn lemma_line_wins(g: Game, x: int, y: int, d: Direction, lo: nat, hi: nat)
    requires
        g.wf(),
        g.board.run_along(x, y, d, hi),
        g.board.run_along(x, y, d.opposite(), lo),
        1 + lo + hi >= g.connect_size,
    ensures
        g.axis_len(x, y, d) >= 1 + lo + hi,
        g.wins_at(x, y),
{
    g.board.lemma_line_len_at_least(x, y, d, hi);
    g.board.lemma_line_len_at_least(x, y, d.opposite(), lo);
}

/// A line of equal occupants through (x, y) that cannot be extended at either
/// end gives its axis exactly its own length `1 + lo + hi`; a line shorter
/// than `connect_size` therefore does not win along that axis.
pub proof fn lemma_line_exact(g: Game, x: int, y: int, d: Direction, lo: nat, hi: nat)
    requires
        g.wf(),
        g.board.run_along(x, y, d, hi),
        g.board.run_ends(x, y, d, hi),
        g.board.run_along(x, y, d.opposite(), lo),
        g.board.run_ends(x, y, d.opposite(), lo),
    ensures
        g.axis_len(x, y, d) == 1 + lo + hi,
        1 + lo + hi < g.connect_size ==> g.axis_len(x, y, d) < g.connect_size,
{
    g.board.lemma_line_len_exact(x, y, d, hi);
    g.board.lemma_line_len_exact(x, y, d.opposite(), lo);
}

} // verus!

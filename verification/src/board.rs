//! The board engine: grid state, the shuffled stone supply, cursor
//! selection, move validation, scoring, and game-over detection.
//!
//! The grid is 12 columns by 8 rows, held as a flat sequence of 96 cells
//! indexed by `y * 12 + x`. The supply starts as two copies of each of the
//! 36 (color, symbol) combinations, is shuffled once at game start, and is
//! drawn from the back. A placement is legal only if it satisfies the
//! adjacency-matching rule for its occupied orthogonal neighbors.

use vstd::prelude::*;
use vstd::multiset::Multiset;
use vstd::pervasive::VecAdditionalExecFns;
use rand::seq::SliceRandom;

use crate::stone::{Color, Stone, Symbol};

verus! {

/// Why a placement attempt was rejected. The board state is unchanged
/// whenever one of these is returned.
#[derive(Copy, Clone, Debug, PartialEq, Eq, Structural)]
pub enum MoveError {
    /// No stones are left to draw.
    StackEmpty,
    /// The target cell is already occupied.
    DoublePlace,
    /// The drawn stone fails the adjacency rule at the target cell.
    InvalidMove,
}

/// A cursor movement direction.
#[derive(Copy, Clone, Debug, PartialEq, Eq, Structural)]
pub enum Direction {
    Up,
    Down,
    Left,
    Right,
}

/// The column offset of one cursor step in `d`.
pub open spec fn dir_dx(d: Direction) -> int {
    match d {
        Direction::Left => -1,
        Direction::Right => 1,
        _ => 0,
    }
}

/// The row offset of one cursor step in `d`.
pub open spec fn dir_dy(d: Direction) -> int {
    match d {
        Direction::Up => -1,
        Direction::Down => 1,
        _ => 0,
    }
}

/// `n` clamped to the interval `[min, max]`.
pub open spec fn clamped(n: int, min: int, max: int) -> int {
    if n < min {
        min
    } else if n > max {
        max
    } else {
        n
    }
}

/// Clamp `n` to the interval `[min, max]`.
pub fn clamp(n: i64, min: i64, max: i64) -> (r: i64)
    requires
        min <= max,
    ensures
        r == clamped(n as int, min as int, max as int),
{
    if n < min {
        min
    } else if n > max {
        max
    } else {
        n
    }
}

/// Whether `(x, y)` lies on the 12-column by 8-row grid.
pub open spec fn in_bounds(x: int, y: int) -> bool {
    0 <= x < 12 && 0 <= y < 8
}

/// The flat index of the grid cell `(x, y)`.
pub open spec fn cell_index(x: int, y: int) -> int {
    y * 12 + x
}

/// The content of cell `(x, y)`, or `None` when `(x, y)` is off the grid.
pub open spec fn grid_at(cells: Seq<Option<Stone>>, x: int, y: int) -> Option<Stone> {
    if in_bounds(x, y) {
        cells[cell_index(x, y)]
    } else {
        None
    }
}

/// An occupied cell as a one-element sequence, an empty one as none.
pub open spec fn opt_stone_seq(c: Option<Stone>) -> Seq<Stone> {
    match c {
        Some(s) => seq![s],
        None => Seq::empty(),
    }
}

/// The stones in the occupied orthogonal neighbor cells of `(x, y)`,
/// gathered east, west, south, north.
pub open spec fn neighbors_of(cells: Seq<Option<Stone>>, x: int, y: int) -> Seq<Stone> {
    opt_stone_seq(grid_at(cells, x + 1, y)) + opt_stone_seq(grid_at(cells, x - 1, y))
        + opt_stone_seq(grid_at(cells, x, y + 1)) + opt_stone_seq(grid_at(cells, x, y - 1))
}

/// Whether the neighbor stone `n` shares its color with the new stone `s`.
pub open spec fn color_match(n: Stone, s: Stone) -> bool {
    n.color == s.color
}

/// Whether the neighbor stone `n` shares its symbol with the new stone `s`.
pub open spec fn symbol_match(n: Stone, s: Stone) -> bool {
    n.symbol == s.symbol
}

/// The adjacency-matching rule, stated over the multiset of neighbors by a
/// search over assignments of neighbors to matching roles:
/// - no neighbor: never legal;
/// - one neighbor: it must share the new stone's color or its symbol;
/// - two neighbors: one must share the color and the other the symbol;
/// - three neighbors: under some ordering, two share the color and the
///   third the symbol, or two share the symbol and the third the color;
/// - four neighbors: under some ordering, two share the color and the
///   other two the symbol.
pub open spec fn legal_move(ns: Seq<Stone>, s: Stone) -> bool {
    if ns.len() == 1 {
        color_match(ns[0], s) || symbol_match(ns[0], s)
    } else if ns.len() == 2 {
        exists|i: int, j: int|
            #![trigger ns[i], ns[j]]
            {
                &&& 0 <= i < 2
                &&& 0 <= j < 2
                &&& i != j
                &&& color_match(ns[i], s)
                &&& symbol_match(ns[j], s)
            }
    } else if ns.len() == 3 {
        exists|i: int, j: int, l: int|
            #![trigger ns[i], ns[j], ns[l]]
            {
                &&& 0 <= i < 3
                &&& 0 <= j < 3
                &&& 0 <= l < 3
                &&& i != j && i != l && j != l
                &&& {
                    ||| (color_match(ns[i], s) && color_match(ns[j], s) && symbol_match(ns[l], s))
                    ||| (symbol_match(ns[i], s) && symbol_match(ns[j], s) && color_match(ns[l], s))
                }
            }
    } else if ns.len() == 4 {
        exists|i: int, j: int, l: int, m: int|
            #![trigger ns[i], ns[j], ns[l], ns[m]]
            {
                &&& 0 <= i < 4
                &&& 0 <= j < 4
                &&& 0 <= l < 4
                &&& 0 <= m < 4
                &&& i != j && i != l && i != m && j != l && j != m && l != m
                &&& color_match(ns[i], s)
                &&& color_match(ns[j], s)
                &&& symbol_match(ns[l], s)
                &&& symbol_match(ns[m], s)
            }
    } else {
        false
    }
}

/// With two neighbors, the assignment search comes down to two cases.
pub proof fn lemma_legal_two(ns: Seq<Stone>, s: Stone)
    requires
        ns.len() == 2,
    ensures
        legal_move(ns, s) <==> {
            ||| (color_match(ns[0], s) && symbol_match(ns[1], s))
            ||| (color_match(ns[1], s) && symbol_match(ns[0], s))
        },
{
    if legal_move(ns, s) {
        let (i, j) = choose|i: int, j: int|
            #![trigger ns[i], ns[j]]
            {
                &&& 0 <= i < 2
                &&& 0 <= j < 2
                &&& i != j
                &&& color_match(ns[i], s)
                &&& symbol_match(ns[j], s)
            };
        assert(i == 0 || i == 1);
    }
}

/// With three neighbors, the assignment search comes down to picking which
/// neighbor fills the single role.
pub proof fn lemma_legal_three(ns: Seq<Stone>, s: Stone)
    requires
        ns.len() == 3,
    ensures
        legal_move(ns, s) <==> {
            ||| (color_match(ns[0], s) && color_match(ns[1], s) && symbol_match(ns[2], s))
            ||| (color_match(ns[0], s) && color_match(ns[2], s) && symbol_match(ns[1], s))
            ||| (color_match(ns[1], s) && color_match(ns[2], s) && symbol_match(ns[0], s))
            ||| (symbol_match(ns[0], s) && symbol_match(ns[1], s) && color_match(ns[2], s))
            ||| (symbol_match(ns[0], s) && symbol_match(ns[2], s) && color_match(ns[1], s))
            ||| (symbol_match(ns[1], s) && symbol_match(ns[2], s) && color_match(ns[0], s))
        },
{
    if legal_move(ns, s) {
        let (i, j, l) = choose|i: int, j: int, l: int|
            #![trigger ns[i], ns[j], ns[l]]
            {
                &&& 0 <= i < 3
                &&& 0 <= j < 3
                &&& 0 <= l < 3
                &&& i != j && i != l && j != l
                &&& {
                    ||| (color_match(ns[i], s) && color_match(ns[j], s) && symbol_match(ns[l], s))
                    ||| (symbol_match(ns[i], s) && symbol_match(ns[j], s) && color_match(ns[l], s))
                }
            };
        assert(0 <= i < 3 && 0 <= j < 3 && 0 <= l < 3);
    }
}

/// With four neighbors, the assignment search comes down to choosing the
/// pair of color-matching neighbors.
pub proof fn lemma_legal_four(ns: Seq<Stone>, s: Stone)
    requires
        ns.len() == 4,
    ensures
        legal_move(ns, s) <==> {
            ||| (color_match(ns[0], s) && color_match(ns[1], s) && symbol_match(ns[2], s)
                && symbol_match(ns[3], s))
            ||| (color_match(ns[0], s) && color_match(ns[2], s) && symbol_match(ns[1], s)
                && symbol_match(ns[3], s))
            ||| (color_match(ns[0], s) && color_match(ns[3], s) && symbol_match(ns[1], s)
                && symbol_match(ns[2], s))
            ||| (color_match(ns[1], s) && color_match(ns[2], s) && symbol_match(ns[0], s)
                && symbol_match(ns[3], s))
            ||| (color_match(ns[1], s) && color_match(ns[3], s) && symbol_match(ns[0], s)
                && symbol_match(ns[2], s))
            ||| (color_match(ns[2], s) && color_match(ns[3], s) && symbol_match(ns[0], s)
                && symbol_match(ns[1], s))
        },
{
    if legal_move(ns, s) {
        let (i, j, l, m) = choose|i: int, j: int, l: int, m: int|
            #![trigger ns[i], ns[j], ns[l], ns[m]]
            {
                &&& 0 <= i < 4
                &&& 0 <= j < 4
                &&& 0 <= l < 4
                &&& 0 <= m < 4
                &&& i != j && i != l && i != m && j != l && j != m && l != m
                &&& color_match(ns[i], s)
                &&& color_match(ns[j], s)
                &&& symbol_match(ns[l], s)
                &&& symbol_match(ns[m], s)
            };
        assert(0 <= i < 4 && 0 <= j < 4 && 0 <= l < 4 && 0 <= m < 4);
    }
}

/// How many cells of `cells` are occupied.
pub open spec fn occupied_count(cells: Seq<Option<Stone>>) -> int
    decreases cells.len(),
{
    if cells.len() == 0 {
        0
    } else {
        occupied_count(cells.drop_last()) + if cells.last() is Some {
            1int
        } else {
            0int
        }
    }
}

/// The occupied-cell count of any grid lies between 0 and its length.
pub proof fn lemma_occupied_count_bounds(cells: Seq<Option<Stone>>)
    ensures
        0 <= occupied_count(cells) <= cells.len(),
    decreases cells.len(),
{
    if cells.len() > 0 {
        lemma_occupied_count_bounds(cells.drop_last());
    }
}

/// Appending a cell adds its occupancy to the count.
pub proof fn lemma_occupied_count_push(cells: Seq<Option<Stone>>, c: Option<Stone>)
    ensures
        occupied_count(cells.push(c)) == occupied_count(cells) + if c is Some {
            1int
        } else {
            0int
        },
{
    assert(cells.push(c).drop_last() =~= cells);
    assert(cells.push(c).last() == c);
}

/// Filling an empty cell raises the occupied-cell count by one.
pub proof fn lemma_occupied_count_fill(cells: Seq<Option<Stone>>, i: int, s: Stone)
    requires
        0 <= i < cells.len(),
        cells[i] is None,
    ensures
        occupied_count(cells.update(i, Some(s))) == occupied_count(cells) + 1,
    decreases cells.len(),
{
    let updated = cells.update(i, Some(s));
    if i == cells.len() - 1 {
        assert(updated.drop_last() =~= cells.drop_last());
    } else {
        assert(updated.drop_last() =~= cells.drop_last().update(i, Some(s)));
        lemma_occupied_count_fill(cells.drop_last(), i, s);
    }
}

/// Two to the power `e`.
pub open spec fn pow2(e: nat) -> nat
    decreases e,
{
    if e == 0 {
        1
    } else {
        2 * pow2((e - 1) as nat)
    }
}

/// `pow2` is monotone.
pub proof fn lemma_pow2_monotone(a: nat, b: nat)
    requires
        a <= b,
    ensures
        pow2(a) <= pow2(b),
    decreases b,
{
    if a < b {
        lemma_pow2_monotone(a, (b - 1) as nat);
    }
}

/// The values of `pow2` that scoring can reach.
pub proof fn lemma_pow2_14()
    ensures
        pow2(14) == 16384,
{
    assert(pow2(0) == 1);
    assert(pow2(1) == 2);
    assert(pow2(2) == 4);
    assert(pow2(3) == 8);
    assert(pow2(4) == 16);
    assert(pow2(5) == 32);
    assert(pow2(6) == 64);
    assert(pow2(7) == 128);
    assert(pow2(8) == 256);
    assert(pow2(9) == 512);
    assert(pow2(10) == 1024);
    assert(pow2(11) == 2048);
    assert(pow2(12) == 4096);
    assert(pow2(13) == 8192);
    assert(pow2(14) == 16384);
}

/// Two to the power `e`, for the small exponents scoring reaches.
fn pow2_u64(e: u64) -> (r: u64)
    requires
        e <= 14,
    ensures
        r == pow2(e as nat),
{
    proof {
        lemma_pow2_14();
    }
    let mut r: u64 = 1;
    let mut i: u64 = 0;
    while i < e
        invariant
            i <= e <= 14,
            r == pow2(i as nat),
            r <= 16384,
        decreases e - i,
    {
        proof {
            lemma_pow2_monotone((i + 1) as nat, 14);
            lemma_pow2_14();
        }
        r = r * 2;
        i = i + 1;
    }
    r
}

/// The fixed ascending bonus table for full four-neighbor matches,
/// indexed by the combo counter at the time of the match.
pub open spec fn match_bonus(m: int) -> int {
    if m == 0 {
        25
    } else if m == 1 {
        50
    } else if m == 2 {
        100
    } else if m == 3 {
        200
    } else if m == 4 {
        400
    } else if m == 5 {
        600
    } else if m == 6 {
        800
    } else if m == 7 {
        1000
    } else if m == 8 {
        5000
    } else if m == 9 {
        10000
    } else if m == 10 {
        25000
    } else {
        50000
    }
}

/// Look up the full-match bonus for combo counter `m`.
fn match_bonus_u64(m: u64) -> (r: u64)
    requires
        m < 12,
    ensures
        r == match_bonus(m as int),
{
    if m == 0 {
        25
    } else if m == 1 {
        50
    } else if m == 2 {
        100
    } else if m == 3 {
        200
    } else if m == 4 {
        400
    } else if m == 5 {
        600
    } else if m == 6 {
        800
    } else if m == 7 {
        1000
    } else if m == 8 {
        5000
    } else if m == 9 {
        10000
    } else if m == 10 {
        25000
    } else {
        50000
    }
}

/// What a legal placement with `k` occupied neighbors adds to the score
/// when the combo counter stands at `m`: `2^(k + m - 1)`, plus the bonus
/// from the table on a full four-neighbor match.
pub open spec fn score_gain(k: int, m: int) -> int {
    pow2((k + m - 1) as nat) + if k == 4 {
        match_bonus(m)
    } else {
        0
    }
}

/// A single placement adds at most 66384 points: `2^14` from the power
/// term plus the top table bonus of 50000.
pub proof fn lemma_score_gain_bound(k: int, m: int)
    requires
        1 <= k <= 4,
        0 <= m <= 12,
        k == 4 ==> m < 12,
    ensures
        0 <= score_gain(k, m) <= 66384,
{
    lemma_pow2_monotone((k + m - 1) as nat, 14);
    lemma_pow2_14();
}

/// The multiset of stones placed on a grid.
pub open spec fn placed_multiset(cells: Seq<Option<Stone>>) -> Multiset<Stone>
    decreases cells.len(),
{
    if cells.len() == 0 {
        Multiset::empty()
    } else {
        let rest = placed_multiset(cells.drop_last());
        match cells.last() {
            Some(s) => rest.insert(s),
            None => rest,
        }
    }
}

/// Appending a cell adds its stone, if any, to the placed multiset.
proof fn lemma_placed_multiset_push(cells: Seq<Option<Stone>>, c: Option<Stone>)
    ensures
        placed_multiset(cells.push(c)) == match c {
            Some(s) => placed_multiset(cells).insert(s),
            None => placed_multiset(cells),
        },
{
    assert(cells.push(c).drop_last() =~= cells);
    assert(cells.push(c).last() == c);
}

/// Filling an empty cell adds exactly its stone to the placed multiset.
proof fn lemma_placed_multiset_fill(cells: Seq<Option<Stone>>, i: int, s: Stone)
    requires
        0 <= i < cells.len(),
        cells[i] is None,
    ensures
        placed_multiset(cells.update(i, Some(s))) == placed_multiset(cells).insert(s),
    decreases cells.len(),
{
    broadcast use vstd::multiset::group_multiset_axioms;

    let updated = cells.update(i, Some(s));
    if i == cells.len() - 1 {
        assert(updated.drop_last() =~= cells.drop_last());
    } else {
        assert(updated.drop_last() =~= cells.drop_last().update(i, Some(s)));
        lemma_placed_multiset_fill(cells.drop_last(), i, s);
        if cells.last() is Some {
            assert(placed_multiset(updated) =~= placed_multiset(cells).insert(s));
        }
    }
}

/// Count the occupied cells of a grid.
fn count_occupied(cells: &Vec<Option<Stone>>) -> (n: usize)
    ensures
        n as int == occupied_count(cells@),
{
    let mut n: usize = 0;
    let mut i: usize = 0;
    while i < cells.len()
        invariant
            i <= cells@.len(),
            n <= i,
            n as int == occupied_count(cells@.take(i as int)),
        decreases cells@.len() - i,
    {
        proof {
            assert(cells@.take(i + 1).drop_last() =~= cells@.take(i as int));
            assert(cells@.take(i + 1).last() == cells@[i as int]);
        }
        if cells[i].is_some() {
            n += 1;
        }
        i += 1;
    }
    proof {
        assert(cells@.take(cells@.len() as int) =~= cells@);
    }
    n
}

/// Whether no stone can be drawn, or the next stone to be drawn has no
/// cell anywhere on the grid where placing it would be legal.
pub open spec fn game_over_now(b: Board) -> bool {
    b.stones@.len() == 0 || forall|x: int, y: int|
        in_bounds(x, y) ==> !legal_move(#[trigger] neighbors_of(b.cells@, x, y), b.stones@.last())
}

/// The column of the `a`-th anchor cell, in seeding order: the four
/// corners, then two interior cells.
pub open spec fn anchor_x(a: int) -> int {
    if a == 0 {
        0
    } else if a == 1 {
        11
    } else if a == 2 {
        0
    } else if a == 3 {
        11
    } else if a == 4 {
        5
    } else {
        6
    }
}

/// The row of the `a`-th anchor cell.
pub open spec fn anchor_y(a: int) -> int {
    if a == 0 {
        0
    } else if a == 1 {
        0
    } else if a == 2 {
        7
    } else if a == 3 {
        7
    } else if a == 4 {
        3
    } else {
        4
    }
}

/// The flat index of the `a`-th anchor cell.
pub open spec fn anchor_index(a: int) -> int {
    cell_index(anchor_x(a), anchor_y(a))
}

/// The coordinates of the `a`-th anchor cell.
fn anchor_coords(a: usize) -> (r: (usize, usize))
    requires
        a < 6,
    ensures
        r.0 == anchor_x(a as int),
        r.1 == anchor_y(a as int),
{
    match a {
        0 => (0, 0),
        1 => (11, 0),
        2 => (0, 7),
        3 => (11, 7),
        4 => (5, 3),
        _ => (6, 4),
    }
}

/// Whether `s` can still serve as a starter stone: neither its color nor
/// its symbol is already used by an earlier starter.
pub open spec fn qualifies(s: Stone, uc: Seq<Color>, uy: Seq<Symbol>) -> bool {
    !uc.contains(s.color) && !uy.contains(s.symbol)
}

/// The position of the first stone of `sup` that qualifies as the next
/// starter, or -1 when none does.
pub open spec fn find_candidate(sup: Seq<Stone>, uc: Seq<Color>, uy: Seq<Symbol>) -> int
    decreases sup.len(),
{
    if sup.len() == 0 {
        -1
    } else if qualifies(sup[0], uc, uy) {
        0
    } else {
        let rest = find_candidate(sup.drop_first(), uc, uy);
        if rest < 0 {
            -1
        } else {
            rest + 1
        }
    }
}

/// `find_candidate` returns the first qualifying position.
proof fn lemma_find_candidate_at(sup: Seq<Stone>, uc: Seq<Color>, uy: Seq<Symbol>, j: int)
    requires
        0 <= j < sup.len(),
        qualifies(sup[j], uc, uy),
        forall|i: int| 0 <= i < j ==> !qualifies(#[trigger] sup[i], uc, uy),
    ensures
        find_candidate(sup, uc, uy) == j,
    decreases j,
{
    if j > 0 {
        let rest = sup.drop_first();
        assert(rest[j - 1] == sup[j]);
        assert forall|i: int| 0 <= i < j - 1 implies !qualifies(#[trigger] rest[i], uc, uy) by {
            assert(rest[i] == sup[i + 1]);
        }
        lemma_find_candidate_at(rest, uc, uy, j - 1);
    }
}

/// Among any five or fewer used colors, some color of the six remains
/// unused.
proof fn lemma_unused_color(uc: Seq<Color>)
    requires
        uc.len() <= 5,
    ensures
        exists|c: Color| !uc.contains(c),
{
    if uc.contains(Color::Blue) && uc.contains(Color::Green) && uc.contains(Color::Orange)
        && uc.contains(Color::Pink) && uc.contains(Color::Red) && uc.contains(Color::White) {
        let i0 = choose|i: int| 0 <= i < uc.len() && uc[i] == Color::Blue;
        let i1 = choose|i: int| 0 <= i < uc.len() && uc[i] == Color::Green;
        let i2 = choose|i: int| 0 <= i < uc.len() && uc[i] == Color::Orange;
        let i3 = choose|i: int| 0 <= i < uc.len() && uc[i] == Color::Pink;
        let i4 = choose|i: int| 0 <= i < uc.len() && uc[i] == Color::Red;
        let i5 = choose|i: int| 0 <= i < uc.len() && uc[i] == Color::White;
        assert(i0 != i1 && i0 != i2 && i0 != i3 && i0 != i4 && i0 != i5 && i1 != i2 && i1 != i3
            && i1 != i4 && i1 != i5 && i2 != i3 && i2 != i4 && i2 != i5 && i3 != i4 && i3 != i5
            && i4 != i5);
        assert(false);
    }
}

/// Among any five or fewer used symbols, some symbol of the six remains
/// unused.
proof fn lemma_unused_symbol(uy: Seq<Symbol>)
    requires
        uy.len() <= 5,
    ensures
        exists|y: Symbol| !uy.contains(y),
{
    if uy.contains(Symbol::And) && uy.contains(Symbol::Carrot) && uy.contains(Symbol::Equals)
        && uy.contains(Symbol::Hash) && uy.contains(Symbol::Line) && uy.contains(Symbol::Star) {
        let i0 = choose|i: int| 0 <= i < uy.len() && uy[i] == Symbol::And;
        let i1 = choose|i: int| 0 <= i < uy.len() && uy[i] == Symbol::Carrot;
        let i2 = choose|i: int| 0 <= i < uy.len() && uy[i] == Symbol::Equals;
        let i3 = choose|i: int| 0 <= i < uy.len() && uy[i] == Symbol::Hash;
        let i4 = choose|i: int| 0 <= i < uy.len() && uy[i] == Symbol::Line;
        let i5 = choose|i: int| 0 <= i < uy.len() && uy[i] == Symbol::Star;
        assert(i0 != i1 && i0 != i2 && i0 != i3 && i0 != i4 && i0 != i5 && i1 != i2 && i1 != i3
            && i1 != i4 && i1 != i5 && i2 != i3 && i2 != i4 && i2 != i5 && i3 != i4 && i3 != i5
            && i4 != i5);
        assert(false);
    }
}

/// While the supply still holds two copies of every combination whose
/// color is unused, some qualifying starter stone can be found in it.
proof fn lemma_candidate_exists(sup: Seq<Stone>, uc: Seq<Color>, uy: Seq<Symbol>)
    requires
        uc.len() <= 5,
        uy.len() <= 5,
        forall|s: Stone|
            !uc.contains(s.color) ==> #[trigger] sup.to_multiset().count(s) == 2,
    ensures
        exists|i: int| 0 <= i < sup.len() && qualifies(#[trigger] sup[i], uc, uy),
{
    broadcast use vstd::seq_lib::group_to_multiset_ensures;

    lemma_unused_color(uc);
    lemma_unused_symbol(uy);
    let c = choose|c: Color| !uc.contains(c);
    let y = choose|y: Symbol| !uy.contains(y);
    let s = (Stone { color: c, symbol: y });
    assert(sup.to_multiset().count(s) == 2);
    assert(sup.contains(s));
    let i = choose|i: int| 0 <= i < sup.len() && sup[i] == s;
    assert(qualifies(sup[i], uc, uy));
}

/// The empty 96-cell grid.
pub open spec fn empty_grid() -> Seq<Option<Stone>> {
    Seq::new(96, |i: int| None)
}

/// The state of starter seeding after `k` starters have been placed on a
/// supply that began as `stones`: the grid, the remaining supply, and the
/// colors and symbols used so far, in anchor order. Each step removes the
/// first stone whose color and symbol are both still unused and places it
/// at the next anchor (if no stone qualifies, which the starting supply
/// of two copies per combination rules out, the step places nothing).
pub open spec fn seed_state(stones: Seq<Stone>, k: int) -> (
    Seq<Option<Stone>>,
    Seq<Stone>,
    Seq<Color>,
    Seq<Symbol>,
)
    decreases k,
{
    if k <= 0 {
        (empty_grid(), stones, Seq::<Color>::empty(), Seq::<Symbol>::empty())
    } else {
        let prev = seed_state(stones, k - 1);
        let j = find_candidate(prev.1, prev.2, prev.3);
        if 0 <= j < prev.1.len() {
            let s = prev.1[j];
            (
                prev.0.update(anchor_index(k - 1), Some(s)),
                prev.1.remove(j),
                prev.2.push(s.color),
                prev.3.push(s.symbol),
            )
        } else {
            prev
        }
    }
}

/// Whether `i` is the flat index of one of the first `k` anchors.
pub open spec fn seeded_anchor(i: int, k: int) -> bool {
    exists|p: int| 0 <= p < k && #[trigger] anchor_index(p) == i
}

/// Whether the six starter stones on the anchor cells have pairwise
/// distinct colors and pairwise distinct symbols.
pub open spec fn starters_distinct(cells: Seq<Option<Stone>>) -> bool {
    forall|a1: int, a2: int|
        0 <= a1 < a2 < 6 ==> {
            &&& (#[trigger] cells[anchor_index(a1)])->0.color != (#[trigger] cells[anchor_index(
                a2,
            )])->0.color
            &&& cells[anchor_index(a1)]->0.symbol != cells[anchor_index(a2)]->0.symbol
        }
}

/// Whether the colors of `uc` are pairwise distinct.
pub open spec fn colors_distinct(uc: Seq<Color>) -> bool {
    forall|p: int, q: int| 0 <= p < q < uc.len() ==> uc[p] != uc[q]
}

/// Whether the symbols of `uy` are pairwise distinct.
pub open spec fn symbols_distinct(uy: Seq<Symbol>) -> bool {
    forall|p: int, q: int| 0 <= p < q < uy.len() ==> uy[p] != uy[q]
}

/// Whether `v` holds the color `c`.
fn contains_color(v: &Vec<Color>, c: Color) -> (r: bool)
    ensures
        r == v@.contains(c),
{
    let mut i: usize = 0;
    while i < v.len()
        invariant
            i <= v@.len(),
            forall|p: int| 0 <= p < i ==> v@[p] != c,
        decreases v@.len() - i,
    {
        if v[i] == c {
            return true;
        }
        i += 1;
    }
    false
}

/// Whether `v` holds the symbol `y`.
fn contains_symbol(v: &Vec<Symbol>, y: Symbol) -> (r: bool)
    ensures
        r == v@.contains(y),
{
    let mut i: usize = 0;
    while i < v.len()
        invariant
            i <= v@.len(),
            forall|p: int| 0 <= p < i ==> v@[p] != y,
        decreases v@.len() - i,
    {
        if v[i] == y {
            return true;
        }
        i += 1;
    }
    false
}

/// Whether the `j`-th stone of the supply qualifies as the next starter.
fn stone_qualifies(sup: &Vec<Stone>, j: usize, uc: &Vec<Color>, uy: &Vec<Symbol>) -> (r: bool)
    requires
        j < sup@.len(),
    ensures
        r == qualifies(sup@[j as int], uc@, uy@),
{
    let s = sup[j];
    !contains_color(uc, s.color) && !contains_symbol(uy, s.symbol)
}

/// Scan the supply front to back for the first qualifying starter stone.
fn find_first_qualifying(sup: &Vec<Stone>, uc: &Vec<Color>, uy: &Vec<Symbol>) -> (j: usize)
    requires
        exists|i: int| 0 <= i < sup@.len() && qualifies(#[trigger] sup@[i], uc@, uy@),
    ensures
        j < sup@.len(),
        qualifies(sup@[j as int], uc@, uy@),
        j as int == find_candidate(sup@, uc@, uy@),
{
    let n = sup.len();
    let mut j: usize = 0;
    while !stone_qualifies(sup, j, uc, uy)
        invariant
            n == sup@.len(),
            j <= sup@.len(),
            forall|i: int| 0 <= i < j ==> !qualifies(#[trigger] sup@[i], uc@, uy@),
            exists|i: int| j <= i < sup@.len() && qualifies(#[trigger] sup@[i], uc@, uy@),
        decreases sup@.len() - j,
    {
        proof {
            let i = choose|i: int| j <= i < sup@.len() && qualifies(#[trigger] sup@[i], uc@, uy@);
            assert(j < n);
        }
        j += 1;
    }
    proof {
        lemma_find_candidate_at(sup@, uc@, uy@, j as int);
    }
    j
}

/// Relies on rand's `SliceRandom::shuffle`: an in-place Fisher-Yates
/// pass that only swaps elements of the slice, so the result holds
/// exactly the same stones, rearranged.
#[verifier::external_body]
fn shuffle_stones(v: &mut Vec<Stone>)
    ensures
        final(v)@.to_multiset() == old(v)@.to_multiset(),
        final(v)@.len() == old(v)@.len(),
{
    v.shuffle(&mut rand::thread_rng());
}

/// The game state: grid, cursor, shuffled supply, score, combo counter
/// and the sticky game-over flag.
pub struct Board {
    /// The 96 grid cells, row-major: cell `(x, y)` is at `y * 12 + x`.
    pub cells: Vec<Option<Stone>>,
    /// Cursor column, within `[0, 11]`.
    pub cursor_x: usize,
    /// Cursor row, within `[0, 7]`.
    pub cursor_y: usize,
    /// The remaining undealt stones; the next stone to play is the last.
    pub stones: Vec<Stone>,
    /// Total score, non-decreasing across the game.
    pub score: u64,
    /// Combo counter: raised by one on each full four-neighbor match.
    pub multiplier_exp: u64,
    /// Set after a placement that leaves no legal follow-up; never reset.
    pub game_over: bool,
}

impl Board {
    /// Well-formedness: the shape of the grid and cursor, the stone-count
    /// bookkeeping (supply plus placed stones is always the full 72), the
    /// bounds that keep the scoring arithmetic exact, and the promise
    /// carried by the game-over flag.
    pub open spec fn wf(self) -> bool {
        &&& self.cells@.len() == 96
        &&& self.cursor_x < 12
        &&& self.cursor_y < 8
        &&& self.stones@.len() <= 72
        &&& occupied_count(self.cells@) + self.stones@.len() == 72
        &&& self.multiplier_exp <= 12
        &&& self.score <= 66384 * (72 - self.stones@.len())
        &&& (self.game_over ==> game_over_now(self))
    }

    /// Build a board from a given full 72-stone supply (two copies of
    /// every combination, in any order): seed the six starter stones from
    /// it, scanning front to back, and leave the rest as the draw pile.
    ///
    /// The grid and the remaining supply are exactly what `seed_state`
    /// prescribes, so a game built from a known supply order is fully
    /// determined.
    pub fn new_with_supply(stones: Vec<Stone>) -> (b: Board)
        requires
            stones@.len() == 72,
            forall|s: Stone| #[trigger] stones@.to_multiset().count(s) == 2,
        ensures
            b.wf(),
            b.cursor_x == 0 && b.cursor_y == 0,
            b.score == 0 && b.multiplier_exp == 0 && !b.game_over,
            b.stones@.len() == 66,
            b.cells@ == seed_state(stones@, 6).0,
            b.stones@ == seed_state(stones@, 6).1,
            forall|p: int| 0 <= p < 6 ==> #[trigger] b.cells@[anchor_index(p)] is Some,
            forall|i: int| 0 <= i < 96 && !seeded_anchor(i, 6) ==> b.cells@[i] is None,
            starters_distinct(b.cells@),
            forall|s: Stone|
                #[trigger] placed_multiset(b.cells@).count(s) + b.stones@.to_multiset().count(s)
                    == 2,
    {
        broadcast use vstd::seq_lib::group_to_multiset_ensures;
        broadcast use vstd::multiset::group_multiset_axioms;

        let ghost orig = stones@;
        let mut cells: Vec<Option<Stone>> = Vec::new();
        let mut i: usize = 0;
        while i < 96
            invariant
                i <= 96,
                cells@.len() == i,
                forall|p: int| 0 <= p < i ==> cells@[p] is None,
                occupied_count(cells@) == 0,
                placed_multiset(cells@) == Multiset::<Stone>::empty(),
            decreases 96 - i,
        {
            proof {
                lemma_occupied_count_push(cells@, None);
                lemma_placed_multiset_push(cells@, None);
            }
            cells.push(None);
            i += 1;
        }
        assert(cells@ =~= empty_grid());

        let mut supply = stones;
        let mut used_colors: Vec<Color> = Vec::new();
        let mut used_symbols: Vec<Symbol> = Vec::new();
        let mut a: usize = 0;
        while a < 6
            invariant
                a <= 6,
                cells@.len() == 96,
                supply@.len() == 72 - a,
                used_colors@.len() == a as int,
                used_symbols@.len() == a as int,
                cells@ == seed_state(orig, a as int).0,
                supply@ == seed_state(orig, a as int).1,
                used_colors@ == seed_state(orig, a as int).2,
                used_symbols@ == seed_state(orig, a as int).3,
                forall|s: Stone|
                    !used_colors@.contains(s.color) ==> #[trigger] supply@.to_multiset().count(s)
                        == 2,
                forall|s: Stone|
                    #[trigger] placed_multiset(cells@).count(s) + supply@.to_multiset().count(s)
                        == 2,
                occupied_count(cells@) == a as int,
                colors_distinct(used_colors@),
                symbols_distinct(used_symbols@),
                forall|p: int|
                    0 <= p < a ==> #[trigger] cells@[anchor_index(p)] == Some(
                        (Stone { color: used_colors@[p], symbol: used_symbols@[p] }),
                    ),
                forall|i: int| 0 <= i < 96 && !seeded_anchor(i, a as int) ==> cells@[i] is None,
            decreases 6 - a,
        {
            broadcast use vstd::seq_lib::group_to_multiset_ensures;
            broadcast use vstd::multiset::group_multiset_axioms;

            proof {
                lemma_candidate_exists(supply@, used_colors@, used_symbols@);
            }
            let j = find_first_qualifying(&supply, &used_colors, &used_symbols);
            let s = supply[j];
            let ghost old_cells = cells@;
            let ghost old_supply = supply@;
            let ghost old_uc = used_colors@;
            let ghost old_uy = used_symbols@;
            supply.remove(j);
            used_colors.push(s.color);
            used_symbols.push(s.symbol);
            let coords = anchor_coords(a);
            let ci = coords.1 * 12 + coords.0;
            proof {
                assert(anchor_index(0) == 0 && anchor_index(1) == 11 && anchor_index(2) == 84
                    && anchor_index(3) == 95 && anchor_index(4) == 41 && anchor_index(5) == 54);
                assert(ci as int == anchor_index(a as int));
                assert(!seeded_anchor(ci as int, a as int));
                assert(old_cells[ci as int] is None);
                lemma_occupied_count_fill(old_cells, ci as int, s);
                lemma_placed_multiset_fill(old_cells, ci as int, s);
            }
            cells.set(ci, Some(s));
            proof {
                // The step matches one unfolding of the seeding spec.
                assert(seed_state(orig, a + 1).0 == cells@ && seed_state(orig, a + 1).1
                    == supply@ && seed_state(orig, a + 1).2 == used_colors@ && seed_state(
                    orig,
                    a + 1,
                ).3 == used_symbols@);
                // Two copies of every combination with an unused color remain.
                assert(supply@.to_multiset() == old_supply.to_multiset().remove(old_supply[j as int]));
                assert forall|t: Stone| !used_colors@.contains(t.color) implies #[trigger] supply@.to_multiset().count(t) == 2 by {
                    assert(used_colors@[a as int] == s.color);
                    assert(!old_uc.contains(t.color)) by {
                        assert(forall|p: int|
                            0 <= p < old_uc.len() ==> used_colors@[p] == #[trigger] old_uc[p]);
                    }
                    assert(t != s);
                    assert(old_supply.to_multiset().count(t) == 2);
                }
                // One stone moved from the supply to the grid: the two
                // copies of every combination are still accounted for.
                assert(placed_multiset(cells@) == placed_multiset(old_cells).insert(s));
                assert(old_supply.contains(s));
                assert forall|t: Stone|
                    #[trigger] placed_multiset(cells@).count(t) + supply@.to_multiset().count(t)
                        == 2 by {
                    assert(placed_multiset(old_cells).count(t)
                        + old_supply.to_multiset().count(t) == 2);
                }
                // The new starter keeps colors and symbols pairwise distinct.
                assert(!old_uc.contains(s.color) && !old_uy.contains(s.symbol));
                assert forall|p: int, q: int|
                    0 <= p < q < used_colors@.len() implies used_colors@[p]
                    != used_colors@[q] by {
                    if q < a {
                        assert(old_uc[p] != old_uc[q]);
                    } else {
                        assert(used_colors@[q] == s.color);
                        assert(old_uc.contains(old_uc[p]));
                    }
                }
                assert forall|p: int, q: int|
                    0 <= p < q < used_symbols@.len() implies used_symbols@[p]
                    != used_symbols@[q] by {
                    if q < a {
                        assert(old_uy[p] != old_uy[q]);
                    } else {
                        assert(used_symbols@[q] == s.symbol);
                        assert(old_uy.contains(old_uy[p]));
                    }
                }
                // Anchor cells seeded so far, and only those, are occupied.
                assert forall|p: int|
                    0 <= p < a + 1 implies #[trigger] cells@[anchor_index(p)] == Some(
                    (Stone { color: used_colors@[p], symbol: used_symbols@[p] }),
                ) by {
                    if p < a {
                        assert(anchor_index(p) != anchor_index(a as int));
                    }
                }
                assert forall|ii: int|
                    0 <= ii < 96 && !seeded_anchor(ii, a + 1) implies cells@[ii] is None by {
                    assert(!seeded_anchor(ii, a as int));
                    assert(ii != ci as int);
                }
            }
            a += 1;
        }
        let b = Board {
            cells,
            cursor_x: 0,
            cursor_y: 0,
            stones: supply,
            score: 0,
            multiplier_exp: 0,
            game_over: false,
        };
        proof {
            assert forall|a1: int, a2: int| 0 <= a1 < a2 < 6 implies {
                &&& (#[trigger] b.cells@[anchor_index(a1)])->0.color
                    != (#[trigger] b.cells@[anchor_index(a2)])->0.color
                &&& b.cells@[anchor_index(a1)]->0.symbol != b.cells@[anchor_index(a2)]->0.symbol
            } by {
                assert(b.cells@[anchor_index(a1)] == Some(
                    (Stone { color: used_colors@[a1], symbol: used_symbols@[a1] }),
                ));
                assert(b.cells@[anchor_index(a2)] == Some(
                    (Stone { color: used_colors@[a2], symbol: used_symbols@[a2] }),
                ));
            }
        }
        b
    }

    /// Start a fresh game: build the 72-stone supply, two of every
    /// color-symbol combination, shuffle it, and seed the six starter
    /// stones onto the anchor cells.
    pub fn new() -> (b: Board)
        ensures
            b.wf(),
            b.cursor_x == 0 && b.cursor_y == 0,
            b.score == 0 && b.multiplier_exp == 0 && !b.game_over,
            b.stones@.len() == 66,
            forall|p: int| 0 <= p < 6 ==> #[trigger] b.cells@[anchor_index(p)] is Some,
            forall|i: int| 0 <= i < 96 && !seeded_anchor(i, 6) ==> b.cells@[i] is None,
            starters_distinct(b.cells@),
            forall|s: Stone|
                #[trigger] placed_multiset(b.cells@).count(s) + b.stones@.to_multiset().count(s)
                    == 2,
    {
        broadcast use vstd::seq_lib::group_to_multiset_ensures;
        broadcast use vstd::multiset::group_multiset_axioms;

        let mut stones: Vec<Stone> = Vec::new();
        assert forall|s: Stone| #[trigger] stones@.to_multiset().count(s) == 0 by {
            assert(!stones@.contains(s));
        }
        let mut i: usize = 0;
        while i < 36
            invariant
                i <= 36,
                stones@.len() == 2 * i,
                forall|s: Stone|
                    #[trigger] stones@.to_multiset().count(s) == if crate::stone::combo_index(s)
                        < i as int {
                        2nat
                    } else {
                        0nat
                    },
            decreases 36 - i,
        {
            broadcast use vstd::seq_lib::group_to_multiset_ensures;
            broadcast use vstd::multiset::group_multiset_axioms;

            let c = crate::stone::color_at(i / 6);
            let y = crate::stone::symbol_at(i % 6);
            let q = Stone { color: c, symbol: y };
            let ghost before = stones@;
            stones.push(q);
            stones.push(q);
            proof {
                assert(i as int == 6 * ((i / 6) as int) + ((i % 6) as int));
                assert(crate::stone::combo_index(q) == i as int);
                assert(stones@.to_multiset() =~= before.to_multiset().insert(q).insert(q));
                assert forall|s: Stone|
                    #[trigger] stones@.to_multiset().count(s) == if crate::stone::combo_index(s)
                        < i + 1 {
                        2nat
                    } else {
                        0nat
                    } by {
                    if s == q {
                        assert(before.to_multiset().count(s) == 0);
                    } else {
                        assert(crate::stone::combo_index(s) != i as int) by {
                            if crate::stone::combo_index(s) == i as int {
                                crate::stone::lemma_combo_index_injective(s, q);
                            }
                        }
                    }
                }
            }
            i += 1;
        }
        proof {
            assert forall|s: Stone| #[trigger] stones@.to_multiset().count(s) == 2 by {
                crate::stone::lemma_combo_index_range(s);
            }
        }
        shuffle_stones(&mut stones);
        Board::new_with_supply(stones)
    }

    /// Build a board from an explicit position: grid contents, remaining
    /// supply, score and combo counter, with the cursor at the origin and
    /// the game-over flag clear. Returns `None`, and no board, when the
    /// pieces do not form a well-formed position: wrong grid size, stones
    /// unaccounted for (occupied cells plus supply must make 72), a combo
    /// counter past the bonus table, or a score too large to have been
    /// reached with the stones already spent.
    pub fn from_parts(
        cells: Vec<Option<Stone>>,
        stones: Vec<Stone>,
        score: u64,
        multiplier_exp: u64,
    ) -> (r: Option<Board>)
        ensures
            r is Some <==> {
                &&& cells@.len() == 96
                &&& occupied_count(cells@) + stones@.len() == 72
                &&& multiplier_exp <= 12
                &&& score <= 66384 * (72 - stones@.len())
            },
            r is Some ==> {
                let b = r->0;
                &&& b.wf()
                &&& b.cells@ == cells@
                &&& b.stones@ == stones@
                &&& b.score == score
                &&& b.multiplier_exp == multiplier_exp
                &&& b.cursor_x == 0 && b.cursor_y == 0
                &&& !b.game_over
            },
    {
        proof {
            lemma_occupied_count_bounds(cells@);
        }
        if cells.len() != 96 {
            return None;
        }
        let occ = count_occupied(&cells);
        if stones.len() > 72 {
            return None;
        }
        if occ + stones.len() != 72 {
            return None;
        }
        if multiplier_exp > 12 {
            return None;
        }
        let cap: u64 = 66384 * (72 - stones.len() as u64);
        if score > cap {
            return None;
        }
        Some(
            Board {
                cells,
                cursor_x: 0,
                cursor_y: 0,
                stones,
                score,
                multiplier_exp,
                game_over: false,
            },
        )
    }

    /// The content of cell `(x, y)`, or `None` when `(x, y)` is off the
    /// grid.
    pub fn cell_at(&self, x: usize, y: usize) -> (c: Option<Stone>)
        requires
            self.cells@.len() == 96,
        ensures
            c == grid_at(self.cells@, x as int, y as int),
    {
        if x < 12 && y < 8 {
            self.cells[y * 12 + x]
        } else {
            None
        }
    }

    /// The stones in the occupied orthogonal neighbor cells of `(x, y)`.
    #[verifier::rlimit(50)]
    fn gather_neighbors(&self, x: usize, y: usize) -> (ns: Vec<Stone>)
        requires
            self.cells@.len() == 96,
            x < 12,
            y < 8,
        ensures
            ns@ == neighbors_of(self.cells@, x as int, y as int),
    {
        let east = self.cell_at(x + 1, y);
        let west = if x >= 1 {
            self.cell_at(x - 1, y)
        } else {
            None
        };
        let south = self.cell_at(x, y + 1);
        let north = if y >= 1 {
            self.cell_at(x, y - 1)
        } else {
            None
        };
        let mut ns: Vec<Stone> = Vec::new();
        if let Some(s) = east {
            ns.push(s);
        }
        assert(ns@ =~= opt_stone_seq(east));
        if let Some(s) = west {
            ns.push(s);
        }
        assert(ns@ =~= opt_stone_seq(east) + opt_stone_seq(west));
        if let Some(s) = south {
            ns.push(s);
        }
        assert(ns@ =~= opt_stone_seq(east) + opt_stone_seq(west) + opt_stone_seq(south));
        if let Some(s) = north {
            ns.push(s);
        }
        assert(ns@ =~= opt_stone_seq(east) + opt_stone_seq(west) + opt_stone_seq(south)
            + opt_stone_seq(north));
        assert(west == grid_at(self.cells@, x - 1, y as int));
        assert(north == grid_at(self.cells@, x as int, y - 1));
        ns
    }

    /// The move-legality test: whether placing `stone` at `(x, y)` would be
    /// legal, together with the count of occupied orthogonal neighbors that
    /// the rule was judged on (the count also feeds scoring).
    pub fn is_valid_move(&self, x: usize, y: usize, stone: &Stone) -> (r: (bool, usize))
        requires
            self.cells@.len() == 96,
            x < 12,
            y < 8,
        ensures
            r.1 == neighbors_of(self.cells@, x as int, y as int).len(),
            r.0 == legal_move(neighbors_of(self.cells@, x as int, y as int), *stone),
    {
        let ns = self.gather_neighbors(x, y);
        let k = ns.len();
        let legal = if k == 1 {
            ns[0].color == stone.color || ns[0].symbol == stone.symbol
        } else if k == 2 {
            proof {
                lemma_legal_two(ns@, *stone);
            }
            (ns[0].color == stone.color && ns[1].symbol == stone.symbol) || (ns[1].color
                == stone.color && ns[0].symbol == stone.symbol)
        } else if k == 3 {
            proof {
                lemma_legal_three(ns@, *stone);
            }
            let c0 = ns[0].color == stone.color;
            let c1 = ns[1].color == stone.color;
            let c2 = ns[2].color == stone.color;
            let s0 = ns[0].symbol == stone.symbol;
            let s1 = ns[1].symbol == stone.symbol;
            let s2 = ns[2].symbol == stone.symbol;
            (c0 && c1 && s2) || (c0 && c2 && s1) || (c1 && c2 && s0) || (s0 && s1 && c2) || (s0
                && s2 && c1) || (s1 && s2 && c0)
        } else if k == 4 {
            proof {
                lemma_legal_four(ns@, *stone);
            }
            let c0 = ns[0].color == stone.color;
            let c1 = ns[1].color == stone.color;
            let c2 = ns[2].color == stone.color;
            let c3 = ns[3].color == stone.color;
            let s0 = ns[0].symbol == stone.symbol;
            let s1 = ns[1].symbol == stone.symbol;
            let s2 = ns[2].symbol == stone.symbol;
            let s3 = ns[3].symbol == stone.symbol;
            (c0 && c1 && s2 && s3) || (c0 && c2 && s1 && s3) || (c0 && c3 && s1 && s2) || (c1 && c2
                && s0 && s3) || (c1 && c3 && s0 && s2) || (c2 && c3 && s0 && s1)
        } else {
            false
        };
        (legal, k)
    }

    /// The content of the cell the cursor rests on.
    pub open spec fn cursor_cell(self) -> Option<Stone> {
        grid_at(self.cells@, self.cursor_x as int, self.cursor_y as int)
    }

    /// The occupied neighbors of the cell the cursor rests on.
    pub open spec fn cursor_neighbors(self) -> Seq<Stone> {
        neighbors_of(self.cells@, self.cursor_x as int, self.cursor_y as int)
    }

    /// Whether a placement attempt right now would score a full
    /// four-neighbor match.
    pub open spec fn pending_full_match(self) -> bool {
        &&& self.cursor_cell() is None
        &&& self.stones@.len() > 0
        &&& self.cursor_neighbors().len() == 4
        &&& legal_move(self.cursor_neighbors(), self.stones@.last())
    }

    /// Attempt to place the next stone of the supply at the cursor.
    ///
    /// Exactly one of four things happens, and the result says which:
    /// the cursor cell was occupied (`DoublePlace`), the supply was empty
    /// (`StackEmpty`), the drawn stone failed the adjacency rule and was
    /// returned to the supply (`InvalidMove`) — all three leaving the
    /// board unchanged — or the stone was placed for good, the score and
    /// combo counter were updated, and the game-over scan ran, its verdict
    /// both stored and returned.
    ///
    /// The combo bonus table has twelve entries, so a thirteenth full
    /// match cannot be scored; the caller keeps such a call out.
    pub fn place_stone(&mut self) -> (r: Result<bool, MoveError>)
        requires
            old(self).wf(),
            old(self).pending_full_match() ==> old(self).multiplier_exp < 12,
        ensures
            final(self).wf(),
            final(self).cursor_x == old(self).cursor_x,
            final(self).cursor_y == old(self).cursor_y,
            r == Err::<bool, MoveError>(MoveError::DoublePlace) <==> old(self).cursor_cell()
                is Some,
            r == Err::<bool, MoveError>(MoveError::StackEmpty) <==> (old(self).cursor_cell()
                is None && old(self).stones@.len() == 0),
            r == Err::<bool, MoveError>(MoveError::InvalidMove) <==> (old(self).cursor_cell()
                is None && old(self).stones@.len() > 0 && !legal_move(
                old(self).cursor_neighbors(),
                old(self).stones@.last(),
            )),
            r is Err ==> {
                &&& final(self).cells@ == old(self).cells@
                &&& final(self).stones@ == old(self).stones@
                &&& final(self).score == old(self).score
                &&& final(self).multiplier_exp == old(self).multiplier_exp
                &&& final(self).game_over == old(self).game_over
            },
            r is Ok <==> (old(self).cursor_cell() is None && old(self).stones@.len() > 0
                && legal_move(old(self).cursor_neighbors(), old(self).stones@.last())),
            r is Ok ==> {
                let k = old(self).cursor_neighbors().len() as int;
                &&& final(self).cells@ == old(self).cells@.update(
                    cell_index(old(self).cursor_x as int, old(self).cursor_y as int),
                    Some(old(self).stones@.last()),
                )
                &&& final(self).stones@ == old(self).stones@.drop_last()
                &&& final(self).score == old(self).score + score_gain(
                    k,
                    old(self).multiplier_exp as int,
                )
                &&& final(self).multiplier_exp == old(self).multiplier_exp + if k == 4 {
                    1int
                } else {
                    0int
                }
                &&& final(self).game_over == game_over_now(*final(self))
                &&& r == Ok::<bool, MoveError>(final(self).game_over)
            },
            forall|i: int|
                0 <= i < 96 && old(self).cells@[i] is Some ==> final(self).cells@[i] == old(
                    self,
                ).cells@[i],
            final(self).score >= old(self).score,
            final(self).multiplier_exp >= old(self).multiplier_exp,
            old(self).game_over ==> r is Err && final(self).game_over,
    {
        let cx = self.cursor_x;
        let cy = self.cursor_y;
        let ci = cy * 12 + cx;
        if self.cells[ci].is_some() {
            return Err(MoveError::DoublePlace);
        }
        if self.stones.len() == 0 {
            return Err(MoveError::StackEmpty);
        }
        let s = self.stones.pop().unwrap();
        let res = self.is_valid_move(cx, cy, &s);
        let valid = res.0;
        let k: usize = res.1;
        if !valid {
            self.stones.push(s);
            proof {
                assert(self.stones@ =~= old(self).stones@);
            }
            return Err(MoveError::InvalidMove);
        }
        proof {
            // A legal move has between one and four occupied neighbors.
            assert(opt_stone_seq(grid_at(old(self).cells@, cx + 1, cy as int)).len() <= 1);
            assert(opt_stone_seq(grid_at(old(self).cells@, cx - 1, cy as int)).len() <= 1);
            assert(opt_stone_seq(grid_at(old(self).cells@, cx as int, cy + 1)).len() <= 1);
            assert(opt_stone_seq(grid_at(old(self).cells@, cx as int, cy - 1)).len() <= 1);
            assert(1 <= k <= 4);
            lemma_score_gain_bound(k as int, old(self).multiplier_exp as int);
            lemma_pow2_monotone((k + old(self).multiplier_exp - 1) as nat, 14);
            lemma_pow2_14();
            lemma_occupied_count_fill(old(self).cells@, ci as int, s);
        }
        self.cells.set(ci, Some(s));
        let m = self.multiplier_exp;
        let gain = pow2_u64(k as u64 + m - 1);
        self.score = self.score + gain;
        if k == 4 {
            let bonus = match_bonus_u64(m);
            self.score = self.score + bonus;
            self.multiplier_exp = m + 1;
        }
        let over = self.is_game_over();
        self.game_over = over;
        Ok(over)
    }

    /// Move the cursor one cell in `dir`, clamped to the grid: a no-op at
    /// the edges. Nothing else of the state changes.
    pub fn move_cursor(&mut self, dir: Direction)
        requires
            old(self).wf(),
        ensures
            final(self).wf(),
            final(self).cursor_x == clamped(old(self).cursor_x + dir_dx(dir), 0, 11),
            final(self).cursor_y == clamped(old(self).cursor_y + dir_dy(dir), 0, 7),
            final(self).cells@ == old(self).cells@,
            final(self).stones@ == old(self).stones@,
            final(self).score == old(self).score,
            final(self).multiplier_exp == old(self).multiplier_exp,
            final(self).game_over == old(self).game_over,
    {
        let dx: i64 = match dir {
            Direction::Left => -1,
            Direction::Right => 1,
            _ => 0,
        };
        let dy: i64 = match dir {
            Direction::Up => -1,
            Direction::Down => 1,
            _ => 0,
        };
        let nx = clamp(self.cursor_x as i64 + dx, 0, 11);
        let ny = clamp(self.cursor_y as i64 + dy, 0, 7);
        self.cursor_x = nx as usize;
        self.cursor_y = ny as usize;
        proof {
            if self.game_over {
                assert(game_over_now(*self)) by {
                    assert(self.cells@ == old(self).cells@);
                    assert(self.stones@ == old(self).stones@);
                }
            }
        }
    }

    /// The next stone that a placement attempt would draw, left in place.
    pub fn peek_next_stone(&self) -> (r: Option<Stone>)
        ensures
            r == if self.stones@.len() == 0 {
                None::<Stone>
            } else {
                Some(self.stones@.last())
            },
    {
        if self.stones.len() == 0 {
            None
        } else {
            Some(self.stones[self.stones.len() - 1])
        }
    }

    /// The game-over scan: the game is over when no stone can be drawn, or
    /// when no cell of the grid would make a legal move for the next stone.
    pub fn is_game_over(&self) -> (r: bool)
        requires
            self.cells@.len() == 96,
        ensures
            r == game_over_now(*self),
    {
        if self.stones.len() == 0 {
            return true;
        }
        let next = self.stones[self.stones.len() - 1];
        let mut y: usize = 0;
        while y < 8
            invariant
                y <= 8,
                self.cells@.len() == 96,
                self.stones@.len() > 0,
                next == self.stones@.last(),
                forall|xx: int, yy: int|
                    in_bounds(xx, yy) && yy < y ==> !legal_move(
                        #[trigger] neighbors_of(self.cells@, xx, yy),
                        next,
                    ),
            decreases 8 - y,
        {
            let mut x: usize = 0;
            while x < 12
                invariant
                    x <= 12,
                    y < 8,
                    self.cells@.len() == 96,
                    self.stones@.len() > 0,
                    next == self.stones@.last(),
                    forall|xx: int, yy: int|
                        in_bounds(xx, yy) && yy < y ==> !legal_move(
                            #[trigger] neighbors_of(self.cells@, xx, yy),
                            next,
                        ),
                    forall|xx: int|
                        0 <= xx < x ==> !legal_move(
                            #[trigger] neighbors_of(self.cells@, xx, y as int),
                            next,
                        ),
                decreases 12 - x,
            {
                if self.is_valid_move(x, y, &next).0 {
                    return false;
                }
                x += 1;
            }
            y += 1;
        }
        true
    }
}

} // verus!


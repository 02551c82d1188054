//! Tile values, and why a board with a free cell always has room for one more
//! tile.

use crate::line::{gapless, tiles, total, lemma_tiles_shape};
use vstd::prelude::*;

verus! {

/// The largest sum that the tiles of a board may reach.
pub const MAX_TOTAL: u32 = 0xffff_ffff;

/// A tile holds a power of two, and at least 2.
pub open spec fn is_tile(v: nat) -> bool
    decreases v,
{
    v == 2 || (v > 2 && v % 2 == 0 && is_tile(v / 2))
}

/// Every cell is empty or holds a tile.
pub open spec fn all_tiles(cells: Seq<nat>) -> bool {
    forall|i: int| 0 <= i < cells.len() ==> cells[i] == 0 || is_tile(#[trigger] cells[i])
}

/// The number of ones in the binary form of `n`.
pub open spec fn ones(n: nat) -> nat
    decreases n,
{
    if n == 0 {
        0
    } else {
        n % 2 + ones(n / 2)
    }
}

/// Adding a power of two raises the number of binary ones by one at most.
pub proof fn lemma_ones_add_power(x: nat, t: nat)
    requires
        t == 1 || is_tile(t),
    ensures
        ones(x + t) <= ones(x) + 1,
    decreases t, x,
{
    if t == 1 {
        if x % 2 == 1 {
            lemma_ones_add_power(x / 2, 1);
            assert((x + 1) / 2 == x / 2 + 1);
        } else {
            assert((x + 1) / 2 == x / 2);
        }
    } else {
        lemma_ones_add_power(x / 2, t / 2);
        assert((x + t) / 2 == x / 2 + t / 2);
        assert((x + t) % 2 == x % 2);
    }
}

/// The sum of some tiles has no more binary ones than there are tiles.
pub proof fn lemma_ones_of_total(cells: Seq<nat>)
    requires
        all_tiles(cells),
    ensures
        ones(total(cells)) <= tiles(cells).len(),
    decreases cells.len(),
{
    if cells.len() > 0 {
        let rest = cells.drop_first();
        assert forall|i: int| 0 <= i < rest.len() implies rest[i] == 0 || is_tile(
            #[trigger] rest[i],
        ) by {
            assert(rest[i] == cells[i + 1]);
        }
        lemma_ones_of_total(rest);
        if cells[0] != 0 {
            lemma_ones_add_power(total(rest), cells[0]);
        }
    }
}

/// Two to the power of `k`.
pub open spec fn two_to(k: nat) -> nat
    decreases k,
{
    if k == 0 {
        1
    } else {
        2 * two_to((k - 1) as nat)
    }
}

/// The numbers just below a power of two are nearly all ones.
pub proof fn lemma_ones_below_power(n: nat, k: nat)
    requires
        k >= 2,
        two_to(k) - 4 <= n < two_to(k),
    ensures
        ones(n) + 2 >= k,
        n + 2 >= two_to(k) ==> ones(n) + 1 >= k,
        n + 1 == two_to(k) ==> ones(n) == k,
    decreases k,
{
    if k == 2 {
        reveal_with_fuel(two_to, 3);
        reveal_with_fuel(ones, 3);
    } else {
        lemma_ones_below_power(n / 2, (k - 1) as nat);
    }
}

/// The four largest values of a board's sum take thirty tiles or more.
pub proof fn lemma_ones_near_limit(n: nat)
    requires
        MAX_TOTAL - 4 < n <= MAX_TOTAL,
    ensures
        ones(n) >= 30,
{
    assert(two_to(32) == 0x1_0000_0000) by {
        reveal_with_fuel(two_to, 33);
    }
    lemma_ones_below_power(n, 32);
}

/// A board with a free cell has room for a new tile: its sixteenth tile
/// cannot take the sum past the limit.
pub proof fn lemma_headroom(cells: Seq<nat>, free: int)
    requires
        cells.len() == 16,
        all_tiles(cells),
        total(cells) <= MAX_TOTAL,
        0 <= free < 16,
        cells[free] == 0,
    ensures
        total(cells) + 4 <= MAX_TOTAL,
{
    lemma_ones_of_total(cells);
    lemma_tiles_shape(cells);
    if tiles(cells).len() == cells.len() {
        assert(gapless(cells));
    }
    if total(cells) + 4 > MAX_TOTAL {
        lemma_ones_near_limit(total(cells));
    }
}

/// Doubling a tile gives a tile.
pub proof fn lemma_double_is_tile(v: nat)
    requires
        is_tile(v),
    ensures
        is_tile(v + v),
{
    assert((v + v) / 2 == v);
}

} // verus!

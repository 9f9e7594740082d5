//! What holds of the enumeration as a whole: its order, its contents and
//! its length.

use vstd::prelude::*;
use vstd::arithmetic::power::*;
use vstd::arithmetic::power2::*;
use crate::address::{TileAddress, grid_width, grid_size, column, level_from, tiles, MAX_ZOOM};

verus! {

/// `a` comes before `b` when ordered by zoom, then x, then y.
pub open spec fn precedes(a: TileAddress, b: TileAddress) -> bool {
    a.zoom < b.zoom || (a.zoom == b.zoom && (a.x < b.x || (a.x == b.x && a.y < b.y)))
}

/// Every element comes before every later one.
pub open spec fn ascending(s: Seq<TileAddress>) -> bool {
    forall|i: int, j: int| 0 <= i < j < s.len() ==> precedes(#[trigger] s[i], #[trigger] s[j])
}

/// `t` lies in one of the levels `first_zoom ..= last_zoom`, inside that
/// level's grid and at or past both offsets.
pub open spec fn in_range(
    t: TileAddress,
    first_zoom: int,
    last_zoom: int,
    start_x: int,
    start_y: int,
) -> bool {
    &&& first_zoom <= t.zoom <= last_zoom
    &&& start_x <= t.x < grid_width(t.zoom as int)
    &&& start_y <= t.y < grid_width(t.zoom as int)
}

/// Number of tiles of one level at or past both offsets.
pub open spec fn level_count(zoom: int, start_x: int, start_y: int) -> int {
    let n = grid_width(zoom);
    if start_x < n && start_y < n {
        (n - start_x) * (n - start_y)
    } else {
        0
    }
}

/// Sum of `level_count` over the levels `first_zoom ..= last_zoom`.
pub open spec fn tile_count(first_zoom: int, last_zoom: int, start_x: int, start_y: int) -> int
    decreases last_zoom + 1 - first_zoom,
{
    if first_zoom > last_zoom {
        0
    } else {
        level_count(first_zoom, start_x, start_y) + tile_count(
            first_zoom + 1,
            last_zoom,
            start_x,
            start_y,
        )
    }
}

/// Sum of `4^z` over the levels `first_zoom ..= last_zoom`.
pub open spec fn full_count(first_zoom: int, last_zoom: int) -> int
    decreases last_zoom + 1 - first_zoom,
{
    if first_zoom > last_zoom {
        0
    } else {
        pow(4, first_zoom as nat) + full_count(first_zoom + 1, last_zoom)
    }
}

proof fn lemma_grid_width_bound(zoom: int)
    requires
        0 <= zoom <= MAX_ZOOM,
    ensures
        1 <= grid_width(zoom) <= 0x8000_0000,
{
    lemma2_to64();
    lemma_pow2_pos(zoom as nat);
    if zoom < 31 {
        lemma_pow2_strictly_increases(zoom as nat, 31);
    }
}

proof fn lemma_level(zoom: int, x: int, start_y: int, n: int)
    requires
        0 <= zoom <= u32::MAX,
        0 <= x,
        0 <= start_y,
        n <= 0x1_0000_0000,
    ensures
        ({
            let s = level_from(zoom, x, start_y, n);
            &&& forall|k: int|
                0 <= k < s.len() ==> (#[trigger] s[k]).zoom == zoom && x <= s[k].x < n && start_y
                    <= s[k].y < n
            &&& ascending(s)
            &&& forall|t: TileAddress|
                t.zoom == zoom && x <= t.x < n && start_y <= t.y < n ==> s.contains(t)
            &&& s.len() == if x < n && start_y < n {
                (n - x) * (n - start_y)
            } else {
                0
            }
        }),
    decreases n - x,
{
    let s = level_from(zoom, x, start_y, n);
    if x < n {
        let first = column(zoom, x, start_y, n);
        let rest = level_from(zoom, x + 1, start_y, n);
        lemma_level(zoom, x + 1, start_y, n);
        assert(s == first + rest);
        assert forall|k: int| 0 <= k < first.len() implies (#[trigger] first[k]).zoom == zoom
            && first[k].x == x && first[k].y == start_y + k by {}
        assert forall|k: int| 0 <= k < s.len() implies (#[trigger] s[k]).zoom == zoom && x
            <= s[k].x < n && start_y <= s[k].y < n by {
            if k >= first.len() {
                assert(s[k] == rest[k - first.len()]);
            } else {
                assert(s[k] == first[k]);
            }
        }
        assert forall|i: int, j: int| 0 <= i < j < s.len() implies precedes(
            #[trigger] s[i],
            #[trigger] s[j],
        ) by {
            if j < first.len() {
                assert(s[i] == first[i] && s[j] == first[j]);
            } else if i < first.len() {
                assert(s[i] == first[i] && s[j] == rest[j - first.len()]);
            } else {
                assert(s[i] == rest[i - first.len()] && s[j] == rest[j - first.len()]);
            }
        }
        assert forall|t: TileAddress|
            t.zoom == zoom && x <= t.x < n && start_y <= t.y < n implies s.contains(t) by {
            if t.x == x {
                let k = t.y - start_y;
                assert(first[k] == t);
                assert(s[k] == t);
            } else {
                assert(rest.contains(t));
                let k = choose|k: int| 0 <= k < rest.len() && rest[k] == t;
                assert(s[first.len() + k] == t);
            }
        }
        assert(s.len() == first.len() + rest.len());
        if start_y < n {
            assert(first.len() == n - start_y);
            assert((n - x) * (n - start_y) == (n - start_y) + (n - (x + 1)) * (n - start_y))
                by (nonlinear_arith);
            if x + 1 >= n {
                assert((n - (x + 1)) * (n - start_y) == 0) by (nonlinear_arith)
                    requires
                        x + 1 == n,
                ;
            }
        } else {
            assert(first.len() == 0);
        }
    } else {
        assert(s.len() == 0);
    }
}

proof fn lemma_tiles(first_zoom: int, last_zoom: int, start_x: int, start_y: int)
    requires
        0 <= first_zoom,
        last_zoom <= MAX_ZOOM,
        0 <= start_x,
        0 <= start_y,
    ensures
        ({
            let s = tiles(first_zoom, last_zoom, start_x, start_y);
            &&& forall|k: int|
                0 <= k < s.len() ==> in_range(
                    #[trigger] s[k],
                    first_zoom,
                    last_zoom,
                    start_x,
                    start_y,
                )
            &&& ascending(s)
            &&& forall|t: TileAddress|
                in_range(t, first_zoom, last_zoom, start_x, start_y) ==> s.contains(t)
            &&& s.len() == tile_count(first_zoom, last_zoom, start_x, start_y)
        }),
    decreases last_zoom + 1 - first_zoom,
{
    let s = tiles(first_zoom, last_zoom, start_x, start_y);
    if first_zoom <= last_zoom {
        let n = grid_width(first_zoom);
        let first = level_from(first_zoom, start_x, start_y, n);
        let rest = tiles(first_zoom + 1, last_zoom, start_x, start_y);
        lemma_grid_width_bound(first_zoom);
        lemma_level(first_zoom, start_x, start_y, n);
        lemma_tiles(first_zoom + 1, last_zoom, start_x, start_y);
        assert(s == first + rest);
        assert forall|k: int| 0 <= k < s.len() implies in_range(
            #[trigger] s[k],
            first_zoom,
            last_zoom,
            start_x,
            start_y,
        ) by {
            if k >= first.len() {
                assert(s[k] == rest[k - first.len()]);
            } else {
                assert(s[k] == first[k]);
            }
        }
        assert forall|i: int, j: int| 0 <= i < j < s.len() implies precedes(
            #[trigger] s[i],
            #[trigger] s[j],
        ) by {
            if j < first.len() {
                assert(s[i] == first[i] && s[j] == first[j]);
            } else if i < first.len() {
                assert(s[i] == first[i] && s[j] == rest[j - first.len()]);
            } else {
                assert(s[i] == rest[i - first.len()] && s[j] == rest[j - first.len()]);
            }
        }
        assert forall|t: TileAddress|
            in_range(t, first_zoom, last_zoom, start_x, start_y) implies s.contains(t) by {
            if t.zoom == first_zoom {
                assert(first.contains(t));
                let k = choose|k: int| 0 <= k < first.len() && first[k] == t;
                assert(s[k] == t);
            } else {
                assert(in_range(t, first_zoom + 1, last_zoom, start_x, start_y));
                assert(rest.contains(t));
                let k = choose|k: int| 0 <= k < rest.len() && rest[k] == t;
                assert(s[first.len() + k] == t);
            }
        }
    }
}

/// A level of width `n` has `(n - x) * (n - start_y)` tiles from column `x`
/// and row `start_y` on, and none where either lies past the grid.
pub proof fn level_length(zoom: int, x: int, start_y: int, n: int)
    requires
        0 <= zoom <= u32::MAX,
        0 <= x,
        0 <= start_y,
        n <= 0x1_0000_0000,
    ensures
        level_from(zoom, x, start_y, n).len() == if x < n && start_y < n {
            (n - x) * (n - start_y)
        } else {
            0
        },
{
    lemma_level(zoom, x, start_y, n);
}

/// No level has more than `2^62` tiles, so no range of levels has more than
/// that for each of its levels.
pub proof fn tile_count_bounded(first_zoom: int, last_zoom: int, start_x: int, start_y: int)
    requires
        0 <= first_zoom,
        last_zoom <= MAX_ZOOM,
        0 <= start_x,
        0 <= start_y,
    ensures
        0 <= tile_count(first_zoom, last_zoom, start_x, start_y) <= if first_zoom <= last_zoom {
            (last_zoom + 1 - first_zoom) * 0x4000_0000_0000_0000
        } else {
            0
        },
    decreases last_zoom + 1 - first_zoom,
{
    if first_zoom <= last_zoom {
        let n = grid_width(first_zoom);
        lemma_grid_width_bound(first_zoom);
        if start_x < n && start_y < n {
            let a = n - start_x;
            let b = n - start_y;
            assert(0 <= a * b <= 0x8000_0000 * 0x8000_0000) by (nonlinear_arith)
                requires
                    0 < a <= 0x8000_0000,
                    0 < b <= 0x8000_0000,
            ;
        }
        tile_count_bounded(first_zoom + 1, last_zoom, start_x, start_y);
    }
}

/// Counts the tiles of the levels `start_zoom ..= end_zoom` at or past both
/// offsets, without walking them.
pub fn tile_total(start_zoom: u32, end_zoom: u32, start_x: u32, start_y: u32) -> (total: u128)
    requires
        end_zoom <= MAX_ZOOM,
    ensures
        total == tile_count(start_zoom as int, end_zoom as int, start_x as int, start_y as int),
        total == tiles(start_zoom as int, end_zoom as int, start_x as int, start_y as int).len(),
{
    proof {
        enumeration_length(start_zoom as int, end_zoom as int, start_x as int, start_y as int);
    }
    let mut total: u128 = 0;
    let mut zoom: u32 = end_zoom;
    if start_zoom > end_zoom {
        return 0;
    }
    loop
        invariant
            start_zoom <= zoom <= end_zoom <= MAX_ZOOM,
            total == tile_count(zoom + 1, end_zoom as int, start_x as int, start_y as int),
            tiles(start_zoom as int, end_zoom as int, start_x as int, start_y as int).len()
                == tile_count(start_zoom as int, end_zoom as int, start_x as int, start_y as int),
        decreases zoom,
    {
        proof {
            tile_count_bounded(zoom as int, end_zoom as int, start_x as int, start_y as int);
            tile_count_bounded(zoom + 1, end_zoom as int, start_x as int, start_y as int);
            tile_count_bounded(zoom as int, zoom as int, start_x as int, start_y as int);
            assert(tile_count(zoom + 1, zoom as int, start_x as int, start_y as int) == 0);
        }
        let n: u32 = grid_size(zoom);
        if start_x < n && start_y < n {
            let across: u128 = (n - start_x) as u128;
            let down: u128 = (n - start_y) as u128;
            assert(across * down == level_count(zoom as int, start_x as int, start_y as int));
            assert(across * down <= 0x4000_0000_0000_0000);
            total = total + across * down;
        }
        if zoom == start_zoom {
            return total;
        }
        zoom = zoom - 1;
    }
}

/// The enumeration is strictly ascending by zoom, then x, then y.
pub proof fn enumeration_ascending(first_zoom: int, last_zoom: int, start_x: int, start_y: int)
    requires
        0 <= first_zoom,
        last_zoom <= MAX_ZOOM,
        0 <= start_x,
        0 <= start_y,
    ensures
        ascending(tiles(first_zoom, last_zoom, start_x, start_y)),
{
    lemma_tiles(first_zoom, last_zoom, start_x, start_y);
}

/// The enumeration holds exactly the tiles of the requested levels that lie
/// at or past both offsets, and none of them twice.
pub proof fn enumeration_exact(first_zoom: int, last_zoom: int, start_x: int, start_y: int)
    requires
        0 <= first_zoom,
        last_zoom <= MAX_ZOOM,
        0 <= start_x,
        0 <= start_y,
    ensures
        forall|t: TileAddress|
            tiles(first_zoom, last_zoom, start_x, start_y).contains(t) <==> in_range(
                t,
                first_zoom,
                last_zoom,
                start_x,
                start_y,
            ),
        tiles(first_zoom, last_zoom, start_x, start_y).no_duplicates(),
{
    let s = tiles(first_zoom, last_zoom, start_x, start_y);
    lemma_tiles(first_zoom, last_zoom, start_x, start_y);
    assert forall|t: TileAddress| s.contains(t) implies in_range(
        t,
        first_zoom,
        last_zoom,
        start_x,
        start_y,
    ) by {
        let k = choose|k: int| 0 <= k < s.len() && s[k] == t;
        assert(in_range(s[k], first_zoom, last_zoom, start_x, start_y));
    }
    assert forall|i: int, j: int| 0 <= i < s.len() && 0 <= j < s.len() && i != j implies s[i]
        != s[j] by {
        if i < j {
            assert(precedes(s[i], s[j]));
        } else {
            assert(precedes(s[j], s[i]));
        }
    }
}

/// The enumeration has as many tiles as its levels have at or past both
/// offsets: `(n - start_x) * (n - start_y)` for each level of width `n` that
/// reaches past them.
pub proof fn enumeration_length(first_zoom: int, last_zoom: int, start_x: int, start_y: int)
    requires
        0 <= first_zoom,
        last_zoom <= MAX_ZOOM,
        0 <= start_x,
        0 <= start_y,
    ensures
        tiles(first_zoom, last_zoom, start_x, start_y).len() == tile_count(
            first_zoom,
            last_zoom,
            start_x,
            start_y,
        ),
{
    lemma_tiles(first_zoom, last_zoom, start_x, start_y);
}

/// Without offsets the enumeration has `4^z` tiles for each level `z`.
pub proof fn full_enumeration_length(first_zoom: int, last_zoom: int)
    requires
        0 <= first_zoom,
        last_zoom <= MAX_ZOOM,
    ensures
        tiles(first_zoom, last_zoom, 0, 0).len() == full_count(first_zoom, last_zoom),
        tile_count(first_zoom, last_zoom, 0, 0) == full_count(first_zoom, last_zoom),
    decreases last_zoom + 1 - first_zoom,
{
    enumeration_length(first_zoom, last_zoom, 0, 0);
    if first_zoom <= last_zoom {
        full_enumeration_length(first_zoom + 1, last_zoom);
        let e = first_zoom as nat;
        lemma_pow2(e);
        lemma_pow2_pos(e);
        lemma_pow_distributes(2, 2, e);
        assert(pow(4, e) == pow(2, e) * pow(2, e));
    }
}

/// A level whose grid ends at or before the first column, or the first row,
/// contributes no tile.
pub proof fn offset_past_grid(zoom: int, start_x: int, start_y: int)
    requires
        start_x >= grid_width(zoom) || start_y >= grid_width(zoom),
    ensures
        level_from(zoom, start_x, start_y, grid_width(zoom)).len() == 0,
        tiles(zoom, zoom, start_x, start_y).len() == 0,
{
    crate::address::lemma_level_empty(zoom, start_x, start_y, grid_width(zoom));
    assert(tiles(zoom + 1, zoom, start_x, start_y) =~= Seq::empty());
}

} // verus!

use std::collections::HashSet;
use tile_fetch::address::{grid_size, Enumerator, TileAddress};
use tile_fetch::order::tile_total;

fn collect(start_zoom: u32, end_zoom: u32, start_x: u32, start_y: u32) -> Vec<TileAddress> {
    let mut walk = Enumerator::new(start_zoom, end_zoom, start_x, start_y);
    let mut out: Vec<TileAddress> = Vec::new();
    while let Some(t) = walk.next() {
        out.push(t);
    }
    assert_eq!(walk.next(), None);
    out
}

fn key(t: &TileAddress) -> (u32, u32, u32) {
    (t.zoom, t.x, t.y)
}

#[test]
fn grid_size_is_a_power_of_two() {
    assert_eq!(grid_size(0), 1);
    assert_eq!(grid_size(1), 2);
    assert_eq!(grid_size(3), 8);
    assert_eq!(grid_size(20), 1_048_576);
    assert_eq!(grid_size(31), 2_147_483_648);
}

#[test]
fn single_level_zero_has_one_tile() {
    assert_eq!(collect(0, 0, 0, 0), vec![TileAddress { zoom: 0, x: 0, y: 0 }]);
}

#[test]
fn level_one_in_order() {
    let got: Vec<(u32, u32, u32)> = collect(1, 1, 0, 0).iter().map(key).collect();
    assert_eq!(got, vec![(1, 0, 0), (1, 0, 1), (1, 1, 0), (1, 1, 1)]);
}

#[test]
fn full_enumeration_has_every_tile_once() {
    let tiles = collect(0, 3, 0, 0);
    assert_eq!(tiles.len(), 1 + 4 + 16 + 64);
    let distinct: HashSet<TileAddress> = tiles.iter().copied().collect();
    assert_eq!(distinct.len(), tiles.len());
    for zoom in 0u32..=3 {
        let n: u32 = 1 << zoom;
        for x in 0..n {
            for y in 0..n {
                assert!(distinct.contains(&TileAddress { zoom, x, y }));
            }
        }
    }
}

#[test]
fn full_enumeration_of_two_levels_counts_powers_of_four() {
    assert_eq!(collect(2, 3, 0, 0).len(), 16 + 64);
    assert_eq!(collect(5, 5, 0, 0).len(), 1024);
}

#[test]
fn enumeration_is_strictly_ascending() {
    let tiles = collect(0, 4, 1, 2);
    assert!(!tiles.is_empty());
    for pair in tiles.windows(2) {
        assert!(key(&pair[0]) < key(&pair[1]));
    }
}

#[test]
fn offsets_apply_at_every_level() {
    let got: Vec<(u32, u32, u32)> = collect(1, 2, 1, 3).iter().map(key).collect();
    assert_eq!(got, vec![(2, 1, 3), (2, 2, 3), (2, 3, 3)]);
}

#[test]
fn offset_count_is_product_of_what_is_left() {
    // level 3 has width 8: (8 - 5) * (8 - 2) tiles
    assert_eq!(collect(3, 3, 5, 2).len(), 18);
    // level 2 gives (4 - 1) * (4 - 1), level 3 gives (8 - 1) * (8 - 1)
    assert_eq!(collect(2, 3, 1, 1).len(), 9 + 49);
}

#[test]
fn start_x_at_grid_width_skips_the_level() {
    assert_eq!(collect(1, 1, 2, 0), vec![]);
    let tiles = collect(1, 2, 2, 0);
    assert_eq!(tiles.len(), 8);
    assert!(tiles.iter().all(|t| t.zoom == 2 && t.x >= 2));
}

#[test]
fn start_y_past_grid_skips_the_level() {
    assert_eq!(collect(0, 1, 0, 2), vec![]);
    assert_eq!(collect(0, 2, 0, 3).len(), 4);
}

#[test]
fn start_zoom_after_end_zoom_is_empty() {
    assert_eq!(collect(3, 2, 0, 0), vec![]);
}

#[test]
fn deepest_level_starts_without_walking_it() {
    let last: u32 = 2_147_483_647;
    let mut walk = Enumerator::new(31, 31, last, last);
    assert_eq!(walk.next(), Some(TileAddress { zoom: 31, x: last, y: last }));
    assert_eq!(walk.next(), None);
}

#[test]
fn walk_is_lazy_on_a_huge_range() {
    let mut walk = Enumerator::new(20, 31, 0, 0);
    assert_eq!(walk.next(), Some(TileAddress { zoom: 20, x: 0, y: 0 }));
    assert_eq!(walk.next(), Some(TileAddress { zoom: 20, x: 0, y: 1 }));
}

#[test]
fn exhaustion_is_seen_without_taking_a_tile() {
    let mut walk = Enumerator::new(0, 0, 0, 0);
    assert!(!walk.is_exhausted());
    assert!(!walk.is_exhausted());
    assert_eq!(walk.next(), Some(TileAddress { zoom: 0, x: 0, y: 0 }));
    assert!(walk.is_exhausted());
    assert!(Enumerator::new(0, 4, 16, 0).is_exhausted());
}

#[test]
fn total_matches_the_walk() {
    assert_eq!(tile_total(0, 3, 0, 0), 85);
    assert_eq!(tile_total(2, 3, 1, 1), 58);
    assert_eq!(tile_total(3, 3, 5, 2), 18);
    assert_eq!(tile_total(1, 2, 2, 0), 8);
    assert_eq!(tile_total(3, 2, 0, 0), 0);
    assert_eq!(tile_total(0, 4, 1, 2), collect(0, 4, 1, 2).len() as u128);
}

#[test]
fn total_of_deep_levels() {
    // 4^20
    assert_eq!(tile_total(20, 20, 0, 0), 1_099_511_627_776);
    // (4^32 - 1) / 3
    assert_eq!(tile_total(0, 31, 0, 0), 6_148_914_691_236_517_205);
}

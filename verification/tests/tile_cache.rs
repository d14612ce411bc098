use terramenta::tile_cache::{
    ascending_tiles, TileCache, TileState, MAX_NEW_REQUESTS_PER_FRAME, MAX_TILES_IN_FLIGHT,
    RETIRE_AFTER_FRAMES,
};
use terramenta::tiles::TileId;

fn tile(level: u8, x: u32, y: u32) -> TileId {
    TileId { level, x, y }
}

#[test]
fn a_missing_tile_falls_back_to_what_has_arrived_above_it() {
    let mut cache = TileCache::new();
    assert!(cache.begin_frame(0, true).is_empty());
    let root = tile(0, 0, 0);
    let child = tile(1, 1, 0);

    // Nothing asked for yet: the whole branch is wanted, finest first.
    let (drawn, wanted) = cache.fallback(child);
    assert_eq!(drawn, None);
    assert_eq!(wanted, vec![child, root]);

    let requests = cache.request(&vec![root], "wms", "jpg");
    assert_eq!(requests.len(), 1);
    assert_eq!(requests[0].0, root);
    assert_eq!(requests[0].1, "wms://0/0/0/0.jpg");
    assert!(cache.is_requested(root));
    assert!(!cache.is_ready(root));

    // Asked for but not arrived: not wanted again, not drawn either.
    assert_eq!(cache.fallback(child), (None, vec![child]));

    assert!(cache.settle(root, true));
    assert!(!cache.settle(root, false), "only a loading tile settles");
    assert_eq!(cache.fallback(child), (Some(root), vec![child]));
    assert_eq!(cache.fallback(root), (Some(root), vec![]));
}

#[test]
fn requests_go_out_coarse_first_and_within_budget() {
    let mut cache = TileCache::new();
    cache.begin_frame(1, true);
    let mut wanted = Vec::new();
    for x in (0..16u32).rev() {
        wanted.push(tile(3, x, 0));
    }
    wanted.push(tile(1, 0, 0));
    wanted.push(tile(1, 0, 0));
    let requests = cache.request(&wanted, "imagery", "png");
    assert_eq!(requests.len(), MAX_NEW_REQUESTS_PER_FRAME);
    assert_eq!(requests[0].0, tile(1, 0, 0));
    assert_eq!(requests[1].0, tile(3, 0, 0));
    assert_eq!(requests[5].0, tile(3, 4, 0));
    assert_eq!(requests[0].1, "imagery://1/1/0/0.png");

    // Frame after frame, the tiles in flight never pass their budget.
    for _ in 0..10 {
        cache.begin_frame(1, true);
        cache.request(&wanted, "imagery", "png");
        let loading = cache
            .slot_list()
            .iter()
            .filter(|slot| slot.state == TileState::Pending)
            .count();
        assert!(loading <= MAX_TILES_IN_FLIGHT);
    }
    assert_eq!(cache.slot_list().len(), 17);
}

#[test]
fn the_sort_is_by_level_then_column_then_row_and_once_each() {
    let sorted = ascending_tiles(&vec![tile(2, 1, 1), tile(0, 1, 0), tile(2, 1, 0), tile(0, 1, 0), tile(2, 0, 3)]);
    assert_eq!(sorted, vec![tile(0, 1, 0), tile(2, 0, 3), tile(2, 1, 0), tile(2, 1, 1)]);
}

#[test]
fn a_drawn_tile_is_spawned_once_and_retired_when_unwanted() {
    let mut cache = TileCache::new();
    cache.begin_frame(0, true);
    let root = tile(0, 1, 0);
    cache.request(&vec![root], "wms", "jpg");
    cache.settle(root, true);

    let (spawn, retired) = cache.finish_frame(&vec![root]);
    assert_eq!(spawn, vec![root]);
    assert!(retired.is_empty());
    assert_eq!(cache.visible_tiles(), 1);
    assert_eq!(cache.loading_tiles(), 0);
    assert_eq!(cache.deepest_level(), 0);

    cache.begin_frame(0, true);
    let (spawn, _) = cache.finish_frame(&vec![root]);
    assert!(spawn.is_empty(), "already has something to draw it with");

    // Unwanted from here on: kept for the grace period, then dropped.
    for _ in 0..RETIRE_AFTER_FRAMES {
        cache.begin_frame(0, true);
        let (_, retired) = cache.finish_frame(&vec![]);
        assert!(retired.is_empty());
        assert_eq!(cache.visible_tiles(), 0);
    }
    cache.begin_frame(0, true);
    let (_, retired) = cache.finish_frame(&vec![]);
    assert_eq!(retired, vec![root]);
    assert!(cache.slot_list().is_empty());
}

#[test]
fn a_new_layer_or_switching_off_drops_everything() {
    let mut cache = TileCache::new();
    cache.begin_frame(0, true);
    let a = tile(0, 0, 0);
    let b = tile(0, 1, 0);
    cache.request(&vec![a, b], "wms", "jpg");
    cache.finish_frame(&vec![tile(4, 2, 1)]);
    assert_eq!(cache.deepest_level(), 4);
    assert_eq!(cache.loading_tiles(), 2);

    assert_eq!(cache.begin_frame(1, true), vec![a, b]);
    assert_eq!(cache.generation(), 1);
    cache.request(&vec![a], "wms", "jpg");
    assert_eq!(cache.begin_frame(1, false), vec![a]);
    assert_eq!(cache.visible_tiles(), 0);
    assert_eq!(cache.loading_tiles(), 0);
    assert_eq!(cache.deepest_level(), 0);
    assert_eq!(cache.frame(), 3);
}

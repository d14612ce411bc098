use terramenta::tiles::{parse_tile_path, tile_asset_path, tile_path, TileId};

#[test]
fn tile_paths_round_trip() {
    let tile = TileId { level: 4, x: 9, y: 3 };
    assert_eq!(parse_tile_path("7/4/9/3.jpg"), Some(tile));
    assert_eq!(parse_tile_path("not-a-tile"), None);
}

#[test]
fn wms_tile_paths_round_trip() {
    let tile = TileId { level: 4, x: 9, y: 3 };
    assert_eq!(parse_tile_path("7/4/9/3.jpg"), Some(tile));
    assert_eq!(parse_tile_path("not-a-tile"), None);
}

#[test]
fn imagery_tile_paths_round_trip() {
    let tile = TileId { level: 4, x: 9, y: 3 };
    assert_eq!(parse_tile_path("7/4/9/3.jpg"), Some(tile));
    assert_eq!(parse_tile_path("not-a-tile"), None);
}

#[test]
fn a_written_tile_path_reads_back_as_its_tile() {
    let tile = TileId { level: 12, x: 4095, y: 2047 };
    let path = tile_path(3, tile, "png");
    assert_eq!(path, "3/12/4095/2047.png");
    assert_eq!(parse_tile_path(&path), Some(tile));
    assert_eq!(tile_asset_path("wms", 0, tile, "jpg"), "wms://0/12/4095/2047.jpg");
}

#[test]
fn a_level_past_what_a_tile_can_hold_is_refused() {
    assert_eq!(parse_tile_path("0/256/0/0.jpg"), None);
    assert_eq!(parse_tile_path("0/1/2"), None);
}

#[test]
fn children_name_their_parent_and_the_roots_have_none() {
    let tile = TileId { level: 2, x: 5, y: 1 };
    let children = tile.children();
    assert_eq!(children[0], TileId { level: 3, x: 10, y: 2 });
    assert_eq!(children[3], TileId { level: 3, x: 11, y: 3 });
    for child in children {
        assert_eq!(child.parent(), Some(tile));
    }
    for root in TileId::roots() {
        assert_eq!(root.parent(), None);
    }
    assert_eq!(TileId::roots()[1], TileId { level: 0, x: 1, y: 0 });
}

use terramenta::mvt::{layer_is_wanted, matrix_size, open_tile, MvtError};

#[test]
fn gzipped_bytes_say_so_rather_than_reporting_a_broken_protobuf() {
    assert!(matches!(open_tile(&[0x1f, 0x8b, 0x08, 0x00]), Err(MvtError::Gzipped)));
}

#[test]
fn bytes_that_were_never_a_tile_are_an_error() {
    assert!(matches!(open_tile(b"<html>not a tile</html>"), Err(MvtError::Malformed(_))));
}

#[test]
fn an_empty_buffer_is_an_empty_tile() {
    let tile = open_tile(&[]).ok().expect("a tile");
    assert!(tile.layers.is_empty());
}

#[test]
fn the_grid_doubles_every_level() {
    assert_eq!(matrix_size(0), 1);
    assert_eq!(matrix_size(1), 2);
    assert_eq!(matrix_size(14), 16384);
    assert_eq!(matrix_size(31), 1 << 31);
}

#[test]
fn only_the_named_layers_are_wanted_unless_none_are_named() {
    assert!(layer_is_wanted(&[], "water"));
    let wanted = vec!["water".to_string(), "boundary".to_string()];
    assert!(layer_is_wanted(&wanted, "boundary"));
    assert!(!layer_is_wanted(&wanted, "transportation"));
}

#[test]
fn each_error_says_what_happened() {
    assert!(MvtError::Gzipped.message().contains("gzipped"));
    assert_eq!(
        MvtError::Malformed("bad wire type".to_string()).message(),
        "not a vector tile: bad wire type"
    );
    assert_eq!(
        MvtError::Geometry("open ring".to_string()).message(),
        "unreadable tile geometry: open ring"
    );
}

use terramenta::features::{FeatureSet, FeatureSetBuilder};

/// A coordinate as the store keeps it: longitude, latitude, height.
type Position = [f64; 3];

fn at(lat: f64, lon: f64) -> Position {
    [lon, lat, 0.0]
}

#[test]
fn an_empty_set_is_readable_rather_than_absent() {
    let empty: FeatureSet<Position> = FeatureSet::default();
    assert_eq!(empty.feature_count(), 0);
    assert_eq!(empty.point_count(), 0);
    assert_eq!(empty.line_count(), 0);
    assert_eq!(empty.polygon_count(), 0);
    assert!(empty.line_coords().is_empty());
    // The offset buffers still open with the zero Arrow requires.
    assert_eq!(empty.line_offsets(), &[0]);
    assert_eq!(empty.polygon_offsets(), &[0]);
}

#[test]
fn coordinates_land_in_one_contiguous_buffer() {
    let mut builder = FeatureSetBuilder::new();
    let feature = builder.feature(Some("a".into()), Some(r#"{"mag":4.2}"#.into()));
    builder.push_point(feature, [10.0, 20.0, 1500.0]);
    builder.push_line(feature, &[at(0.0, 0.0), at(1.0, 1.0), at(2.0, 2.0)]);
    let set = builder.finish();

    // Longitude, latitude, height — GeoJSON's order, which is GeoArrow's.
    assert_eq!(set.point_coords(), &[[10.0, 20.0, 1500.0]]);
    assert_eq!(set.line_coords().len(), 3);
    assert_eq!(set.line_offsets(), &[0, 3]);
    assert_eq!(set.point_owners(), &[0]);

    let (owner, point) = set.point(0);
    assert_eq!(owner, 0);
    assert_eq!(point, [10.0, 20.0, 1500.0]);
    assert_eq!(set.feature_id(0), Some("a"));
    let properties: serde_json::Value =
        serde_json::from_str(set.feature_properties_text(0).expect("properties")).expect("JSON");
    let expected: serde_json::Value = serde_json::from_str(r#"{"mag": 4.2}"#).expect("JSON");
    assert_eq!(properties, expected);
}

#[test]
fn precision_survives_the_round_trip() {
    // A coordinate with more significant digits than an `f32` can hold.
    let exact: Position = [-122.419_415_998_3, 37.774_929_496_1, 0.0];
    let mut builder = FeatureSetBuilder::new();
    let feature = builder.feature(None, None);
    builder.push_point(feature, exact);
    let set = builder.finish();
    assert_eq!(set.point(0).1, exact);
}

#[test]
fn a_polygon_keeps_its_rings_in_order() {
    let mut builder = FeatureSetBuilder::new();
    let feature = builder.feature(None, None);
    assert!(builder.push_polygon(
        feature,
        &vec![
            vec![at(0.0, 0.0), at(0.0, 4.0), at(4.0, 4.0), at(4.0, 0.0)],
            vec![at(1.0, 1.0), at(1.0, 2.0), at(2.0, 2.0)],
        ],
    ));
    let set = builder.finish();

    let (_, polygon) = set.polygon(0);
    assert_eq!(polygon.ring_count(), 2);
    assert_eq!(polygon.outer().len(), 4);
    assert_eq!(polygon.holes().len(), 1);
    assert_eq!(polygon.holes()[0].len(), 3);
    assert_eq!(polygon.outer().get(1), at(0.0, 4.0));
    // A ring is stored open, so walking its edges wraps.
    assert_eq!(polygon.outer().wrapping(4), at(0.0, 0.0));
}

#[test]
fn a_shape_too_small_to_draw_is_dropped_whole() {
    let mut builder = FeatureSetBuilder::new();
    let feature = builder.feature(None, None);
    assert!(!builder.push_line(feature, &[at(0.0, 0.0)]));
    assert!(!builder.push_polygon(feature, &vec![vec![at(0.0, 0.0), at(1.0, 1.0)]]));
    // A hole without a usable outer ring takes the polygon with it.
    assert!(!builder.push_polygon(
        feature,
        &vec![
            vec![at(0.0, 0.0), at(1.0, 1.0)],
            vec![at(1.0, 1.0), at(1.0, 2.0), at(2.0, 2.0)],
        ],
    ));

    let set = builder.finish();
    assert_eq!(set.line_count(), 0);
    assert_eq!(set.polygon_count(), 0);
    // Nothing half-written was left behind in the buffers.
    assert!(set.line_coords().is_empty());
    assert!(set.polygon_coords().is_empty());
    assert_eq!(set.ring_offsets(), &[0]);
    // The feature is still counted: a feed reporting one reported one.
    assert_eq!(set.feature_count(), 1);
}

#[test]
fn a_hole_that_is_too_small_does_not_take_its_polygon_with_it() {
    let mut builder = FeatureSetBuilder::new();
    let feature = builder.feature(None, None);
    assert!(builder.push_polygon(
        feature,
        &vec![
            vec![at(0.0, 0.0), at(0.0, 4.0), at(4.0, 4.0)],
            vec![at(1.0, 1.0), at(1.0, 2.0)],
        ],
    ));
    let set = builder.finish();
    assert_eq!(set.polygon(0).1.ring_count(), 1);
}

#[test]
fn a_feature_with_no_properties_reads_as_null() {
    let mut builder: FeatureSetBuilder<Position> = FeatureSetBuilder::new();
    builder.feature(None, None);
    let set = builder.finish();
    assert_eq!(set.feature_id(0), None);
    assert_eq!(set.feature_properties_text(0), None);
    // And so does one that is not there at all.
    assert_eq!(set.feature_properties_text(7), None);
}

#[test]
fn shapes_keep_the_feature_they_were_filed_under() {
    let mut builder = FeatureSetBuilder::new();
    let first = builder.feature(Some("first".into()), None);
    let second = builder.feature(None, Some("{}".into()));
    assert_eq!((first, second), (0, 1));
    builder.push_point(second, at(1.0, 1.0));
    builder.push_line(first, &[at(0.0, 0.0), at(0.0, 1.0)]);
    builder.push_line(second, &[at(0.0, 0.0), at(0.0, 1.0), at(0.0, 2.0)]);
    let set = builder.finish();
    assert_eq!(set.point_owners(), &[1]);
    assert_eq!(set.line_owners(), &[0, 1]);
    assert_eq!(set.line_offsets(), &[0, 2, 5]);
    assert_eq!(set.line(1).1.iter(), vec![at(0.0, 0.0), at(0.0, 1.0), at(0.0, 2.0)]);
    assert_eq!(set.feature_properties_text(1), Some("{}"));
}

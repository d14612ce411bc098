use terramenta::features::FeatureSet;
use terramenta::geojson::{flatten, GeoObject, GeoPosition, GeoRing, Place};

/// A coordinate as the store keeps it: longitude, latitude, height.
type Position = [f64; 3];

fn at(lat: f64, lon: f64) -> Option<Position> {
    Some([lon, lat, 0.0])
}

fn feature(geometry: Option<GeoObject<Position>>, properties: Option<&str>, id: Option<&str>) -> GeoObject<Position> {
    GeoObject::Feature {
        geometry: geometry.map(Box::new),
        properties: properties.map(String::from),
        id: id.map(String::from),
    }
}

/// A coordinate as a number that is the same exactly when the coordinate is.
fn key(value: f64) -> u64 {
    if value == 0.0 {
        0
    } else {
        value.to_bits()
    }
}

fn ring(positions: Vec<Option<Position>>) -> GeoRing<Position> {
    GeoRing {
        positions: positions
            .into_iter()
            .map(|position| {
                position.map(|coord| GeoPosition {
                    coord,
                    place: Place { latitude: key(coord[1]), longitude: key(coord[0]) },
                })
            })
            .collect(),
    }
}

fn flattened(document: GeoObject<Position>) -> FeatureSet<Position> {
    flatten(&document).expect("a document this small fits")
}

fn points(set: &FeatureSet<Position>) -> Vec<(u32, Position)> {
    (0..set.point_count()).map(|index| set.point(index)).collect()
}

#[test]
fn flattening_a_feature_collection_keeps_which_feature_each_shape_came_from() {
    let set = flattened(GeoObject::FeatureCollection {
        features: vec![
            feature(
                Some(GeoObject::Point { coordinates: Some([-122.4, 37.8, -8000.0]) }),
                Some(r#"{"mag":4.2}"#),
                None,
            ),
            feature(
                Some(GeoObject::MultiLineString {
                    coordinates: vec![
                        vec![at(0.0, 0.0), at(1.0, 1.0)],
                        vec![at(2.0, 2.0), at(3.0, 3.0), at(4.0, 4.0)],
                    ],
                }),
                None,
                None,
            ),
        ],
    });
    assert_eq!(set.feature_count(), 2);
    // The third element is kept exactly as it was read.
    assert_eq!(points(&set), vec![(0, [-122.4, 37.8, -8000.0])]);
    assert_eq!(set.line_count(), 2);
    assert_eq!(set.line(1).1.len(), 3);
    // Both strands of the `MultiLineString` belong to the second feature.
    assert_eq!(set.line(0).0, 1);
    assert_eq!(set.line(1).0, 1);
    assert_eq!(set.feature_properties_text(0), Some(r#"{"mag":4.2}"#));
    assert_eq!(set.feature_properties_text(1), None);
}

#[test]
fn flattening_keeps_each_features_id_as_it_was_given() {
    let set = flattened(GeoObject::FeatureCollection {
        features: vec![
            feature(None, None, Some("nc75096121")),
            feature(None, None, Some("42")),
            feature(None, None, None),
        ],
    });
    let ids: Vec<Option<&str>> = (0..set.feature_count()).map(|index| set.feature_id(index)).collect();
    assert_eq!(ids, vec![Some("nc75096121"), Some("42"), None]);
    assert_eq!(set.feature_id(3), None);
}

#[test]
fn flattening_gives_a_bare_geometry_a_feature_of_its_own() {
    let set = flattened(GeoObject::Point { coordinates: at(20.0, 10.0) });
    assert_eq!(points(&set), vec![(0, [10.0, 20.0, 0.0])]);
    assert_eq!(set.feature_count(), 1);
    assert_eq!(set.feature_id(0), None);
    assert_eq!(set.feature_properties_text(0), None);
}

#[test]
fn flattening_nested_geometry_collections_gives_each_geometry_a_feature() {
    let set = flattened(GeoObject::GeometryCollection {
        geometries: vec![
            GeoObject::Point { coordinates: at(2.0, 1.0) },
            GeoObject::GeometryCollection {
                geometries: vec![GeoObject::Point { coordinates: at(4.0, 3.0) }],
            },
        ],
    });
    assert_eq!(set.point_count(), 2);
    assert_eq!(set.feature_count(), 2);
    assert_eq!(set.point(1).0, 1);
}

#[test]
fn flattening_opens_rings_and_keeps_holes_in_order() {
    let set = flattened(GeoObject::Polygon {
        coordinates: vec![
            ring(vec![at(0.0, 0.0), at(0.0, 4.0), at(4.0, 4.0), at(4.0, 0.0), at(0.0, 0.0)]),
            ring(vec![at(1.0, 1.0), at(1.0, 2.0), at(2.0, 2.0), at(2.0, 1.0), at(1.0, 1.0)]),
        ],
    });
    let (owner, polygon) = set.polygon(0);
    assert_eq!(owner, 0);
    assert_eq!(polygon.outer().len(), 4);
    assert_eq!(polygon.holes().len(), 1);
    assert_eq!(polygon.holes()[0].len(), 4);
}

#[test]
fn flattening_keeps_every_feature_when_records_are_unusable() {
    let set = flattened(GeoObject::FeatureCollection {
        features: vec![
            feature(None, None, None),
            feature(Some(GeoObject::Point { coordinates: None }), None, None),
            feature(Some(GeoObject::LineString { coordinates: vec![at(0.0, 0.0)] }), None, None),
            feature(
                Some(GeoObject::Polygon {
                    coordinates: vec![ring(vec![at(0.0, 0.0), at(0.0, 1.0), at(0.0, 0.0)])],
                }),
                None,
                None,
            ),
            feature(Some(GeoObject::Point { coordinates: at(6.0, 5.0) }), None, None),
        ],
    });
    // A feed reporting five records reported five.
    assert_eq!(set.feature_count(), 5);
    assert_eq!(points(&set), vec![(4, [5.0, 6.0, 0.0])]);
    assert_eq!(set.line_count(), 0);
    assert_eq!(set.polygon_count(), 0);
}

#[test]
fn flattening_a_ring_closing_at_another_height_drops_the_repeat() {
    let set = flattened(GeoObject::Polygon {
        coordinates: vec![ring(
            vec![
                Some([0.0, 0.0, 100.0]),
                Some([0.0, 1.0, 200.0]),
                Some([1.0, 1.0, 300.0]),
                Some([0.0, 0.0, 400.0]),
            ])],
    });
    let (_, polygon) = set.polygon(0);
    assert_eq!(polygon.outer().len(), 3);
    assert_eq!(polygon.outer().get(0)[2], 100.0);
}

#[test]
fn flattening_skips_unreadable_positions_and_keeps_the_rest() {
    let set = flattened(GeoObject::MultiPoint {
        coordinates: vec![Some([10.0, 20.0, 1500.0]), None, at(21.0, 11.0)],
    });
    assert_eq!(points(&set), vec![(0, [10.0, 20.0, 1500.0]), (0, [11.0, 21.0, 0.0])]);
    assert_eq!(set.feature_count(), 1);
}

#[test]
fn flattening_a_line_that_lost_its_points_invents_no_feature() {
    let set = flattened(GeoObject::MultiLineString {
        coordinates: vec![vec![at(0.0, 0.0), None], vec![at(0.0, 0.0), at(1.0, 1.0)]],
    });
    // Only the usable strand is drawn, and only it was given a feature.
    assert_eq!(set.line_count(), 1);
    assert_eq!(set.feature_count(), 1);
    assert_eq!(set.line(0).0, 0);
}

#[test]
fn flattening_drops_a_polygon_whose_outer_ring_is_lost() {
    let set = flattened(GeoObject::Polygon {
        coordinates: vec![
            ring(vec![at(0.0, 0.0), None, at(0.0, 0.0)]),
            ring(vec![at(1.0, 1.0), at(1.0, 2.0), at(2.0, 2.0), at(1.0, 1.0)]),
        ],
    });
    // The hole is not promoted to an outer ring: the polygon goes whole.
    assert_eq!(set.polygon_count(), 0);
    assert_eq!(set.feature_count(), 0);
}

#[test]
fn flattening_a_multipolygon_files_every_island_under_one_feature() {
    let square = |lat: f64| {
        vec![ring(
            vec![at(lat, 0.0), at(lat, 1.0), at(lat + 1.0, 1.0), at(lat + 1.0, 0.0), at(lat, 0.0)])]
    };
    let set = flattened(GeoObject::FeatureCollection {
        features: vec![
            feature(None, None, Some("first")),
            feature(
                Some(GeoObject::MultiPolygon { coordinates: vec![square(0.0), square(5.0), square(10.0)] }),
                None,
                Some("islands"),
            ),
        ],
    });
    assert_eq!(set.polygon_count(), 3);
    assert_eq!(set.polygon_owners(), &[1, 1, 1]);
    assert_eq!(set.feature_count(), 2);
    // Open rings of four corners each, end to end.
    assert_eq!(set.ring_offsets(), &[0, 4, 8, 12]);
    assert_eq!(set.polygon_offsets(), &[0, 1, 2, 3]);
}

#[test]
fn flattening_a_ring_that_does_not_close_keeps_its_last_corner() {
    let set = flattened(GeoObject::Polygon {
        coordinates: vec![ring(vec![at(0.0, 0.0), at(0.0, 1.0), at(1.0, 1.0), at(1.0, 0.0)])],
    });
    assert_eq!(set.polygon(0).1.outer().len(), 4);
}

#[test]
fn flattening_drops_a_ring_with_fewer_than_three_distinct_corners() {
    // Four positions, the closing one included, but two distinct corners.
    let set = flattened(GeoObject::Polygon {
        coordinates: vec![ring(vec![at(0.0, 0.0), at(0.0, 0.0), at(0.0, 1.0), at(0.0, 0.0)])],
    });
    assert_eq!(set.polygon_count(), 0);
    assert_eq!(set.feature_count(), 0);

    // A hole with two distinct corners is dropped and the polygon kept.
    let set = flattened(GeoObject::Polygon {
        coordinates: vec![
            ring(vec![at(0.0, 0.0), at(0.0, 4.0), at(4.0, 4.0), at(0.0, 0.0)]),
            ring(vec![at(1.0, 1.0), at(1.0, 1.0), at(1.0, 2.0), at(1.0, 1.0)]),
        ],
    });
    assert_eq!(set.polygon_count(), 1);
    assert_eq!(set.polygon(0).1.outer().len(), 3);
    assert!(set.polygon(0).1.holes().is_empty());
}

#[test]
fn flattening_counts_corners_by_place_not_by_height() {
    // Three positions, but two of them are one place at different heights.
    let set = flattened(GeoObject::Polygon {
        coordinates: vec![ring(vec![Some([0.0, 0.0, 0.0]), Some([0.0, 0.0, 50.0]), Some([1.0, 1.0, 0.0])])],
    });
    assert_eq!(set.polygon_count(), 0);
}

use terramenta::hud::{format_readout, PickedFeature, ReadoutInput, TileRow};

fn quiet() -> ReadoutInput {
    ReadoutInput {
        cursor: None,
        altitude: "20000".to_string(),
        frame_label: "ECEF · Earth-fixed".to_string(),
        subsolar: "23.4°N 12.0°W".to_string(),
        shaded: true,
        clock: "2026-06-21 12:00:00 UTC".to_string(),
        paused: false,
        imagery: None,
        vectors: None,
        overlays: (0, 0, true),
        pinned: None,
        hovered: None,
    }
}

#[test]
fn a_quiet_readout_has_no_overlay_or_pick_rows() {
    assert_eq!(
        format_readout(&quiet()),
        "TERRAMENTA\ncursor    —\naltitude  20000 km\nframe     ECEF · Earth-fixed\n\
         sun over  23.4°N 12.0°W\nclock     2026-06-21 12:00:00 UTC\nimagery   off\nvectors   off"
    );
}

#[test]
fn a_busy_readout_reports_every_row() {
    let input = ReadoutInput {
        cursor: Some("51.5°N 0.1°W".to_string()),
        shaded: false,
        paused: true,
        imagery: Some(TileRow { label: "Blue Marble".to_string(), level: 4, drawn: 30, loading: 2 }),
        vectors: Some((TileRow { label: "Countries".to_string(), level: 3, drawn: 12, loading: 0 }, 812)),
        overlays: (1, 3, false),
        pinned: None,
        hovered: Some(PickedFeature { label: "quakes".to_string(), id: None, index: 7 }),
        ..quiet()
    };
    assert_eq!(
        format_readout(&input),
        "TERRAMENTA\ncursor    51.5°N 0.1°W\naltitude  20000 km\nframe     ECEF · Earth-fixed\n\
         sun over  23.4°N 12.0°W  (unshaded)\nclock     2026-06-21 12:00:00 UTC  (paused)\n\
         imagery   Blue Marble\n           level 4 · 30 drawn · 2 loading\n\
         vectors   Countries\n           level 3 · 12 drawn · 0 loading · 812 features\n\
         overlays  1 of 3 drawn  (off)\npicked    quakes · #7"
    );
}

#[test]
fn the_pinned_feature_is_reported_over_the_hovered_one() {
    let input = ReadoutInput {
        overlays: (2, 2, true),
        pinned: Some(PickedFeature { label: "quakes".to_string(), id: Some("nc75096121".to_string()), index: 0 }),
        hovered: Some(PickedFeature { label: "sample".to_string(), id: None, index: 3 }),
        ..quiet()
    };
    let text = format_readout(&input);
    assert!(text.ends_with("\noverlays  2 of 2 drawn\npicked    quakes · nc75096121"));
}

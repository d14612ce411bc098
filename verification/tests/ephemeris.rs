use terramenta::ephemeris::{
    clamp_samples, trail_samples, EphemerisRequest, EphemerisSettings, EphemerisStatus, LayerSource,
    SatellitePick, Selection, TrailPath, MAX_TRACKED, MAX_TRAILED, MAX_TRAIL_SAMPLES,
    MIN_TRAIL_SAMPLES,
};
use terramenta::gnc::{resolve_focus, GncSettings, SatelliteFocus};
use terramenta::omm::{catalogue_from_records, display_name, Catalogue, CatalogueEntry};

fn entry(norad_id: u64, name: &str) -> Option<CatalogueEntry> {
    Some(CatalogueEntry {
        norad_id,
        name: name.to_string(),
        international_designator: None,
    })
}

fn catalogue(ids: &[u64]) -> Catalogue {
    let records = ids.iter().map(|id| entry(*id, "OBJECT")).collect();
    catalogue_from_records(records).ok().expect("a catalogue")
}

/// A layer put up from text, with its document already adopted.
fn settings_with(ids: &[u64]) -> EphemerisSettings {
    let mut settings = EphemerisSettings::new(true);
    settings.add(EphemerisRequest {
        source: LayerSource::Text(String::new()),
        ..EphemerisRequest::from_url("stations", "")
    });
    let slot = settings.slot_of("stations").expect("a slot");
    assert!(settings.deliver(slot, catalogue(ids)));
    assert_eq!(settings.adopt(), vec![slot]);
    settings
}

fn settings() -> EphemerisSettings {
    settings_with(&[25544])
}

/// One record, which is enough to exercise everything that is not a fetch.
const ISS: &str = r#"[{
    "OBJECT_NAME": "ISS (ZARYA)",
    "OBJECT_ID": "1998-067A",
    "EPOCH": "2026-09-16T03:25:57.950976",
    "MEAN_MOTION": 15.49133683,
    "ECCENTRICITY": 0.00049077,
    "INCLINATION": 51.631,
    "RA_OF_ASC_NODE": 209.9325,
    "ARG_OF_PERICENTER": 145.256,
    "MEAN_ANOMALY": 214.875,
    "EPHEMERIS_TYPE": 0,
    "CLASSIFICATION_TYPE": "U",
    "NORAD_CAT_ID": 25544,
    "ELEMENT_SET_NO": 999,
    "REV_AT_EPOCH": 58585,
    "BSTAR": 0.00013461457,
    "MEAN_MOTION_DOT": 7.008e-5,
    "MEAN_MOTION_DDOT": 0
}]"#;

/// Reads an OMM array as the globe does: each record becomes an entry.
fn parsed(text: &str) -> Catalogue {
    let records: Vec<sgp4::Elements> = serde_json::from_str(text).expect("a document");
    let entries = records
        .into_iter()
        .map(|elements| {
            Some(CatalogueEntry {
                norad_id: elements.norad_id,
                name: display_name(elements.object_name.clone(), elements.norad_id),
                international_designator: elements.international_designator.clone(),
            })
        })
        .collect();
    catalogue_from_records(entries).ok().expect("a catalogue")
}

#[test]
fn a_text_source_is_parsed_on_the_spot() {
    let mut settings = EphemerisSettings::new(true);
    settings.add(EphemerisRequest {
        source: LayerSource::Text(ISS.to_string()),
        ..EphemerisRequest::from_url("stations", "")
    });
    let slot = settings.slot_of("stations").expect("a slot");
    let LayerSource::Text(text) = &settings.layer_list()[0].source else {
        panic!("a text source");
    };
    let document = parsed(text);
    assert!(settings.deliver(slot, document));
    // Parsed and waiting, not yet adopted.
    assert!(matches!(settings.layer_list()[0].status, EphemerisStatus::Loading));

    assert_eq!(settings.adopt(), vec![slot]);
    let layer = &settings.layer_list()[0];
    assert_eq!(layer.catalogue.as_ref().expect("a catalogue").len(), 1);
    assert_eq!(layer.counts(), (1, 1));
}

#[test]
fn a_selection_names_objects_rather_than_positions() {
    let mut settings = settings();
    assert!(settings.set_selection("stations", Selection::only(&[99999])));
    assert_eq!(settings.layer_list()[0].counts(), (0, 0));

    assert!(settings.set_selection("stations", Selection::only(&[25544])));
    assert_eq!(settings.layer_list()[0].counts(), (1, 1));
}

#[test]
fn a_pin_names_an_object_rather_than_a_row() {
    let mut settings = settings();
    assert!(settings.pin("stations", 25544));
    assert_eq!(settings.highlight_target().map(|pick| pick.norad_id), Some(25544));

    // Nothing else in the document, and no layer by that name.
    assert!(!settings.pin("stations", 99999));
    assert!(!settings.pin("elsewhere", 25544));
    // A refused pin leaves the one that was held.
    assert_eq!(settings.highlight_target().map(|pick| pick.norad_id), Some(25544));

    settings.clear_pin();
    assert_eq!(settings.highlight_target(), None);
}

#[test]
fn a_pin_outlives_a_refresh_and_not_a_removal() {
    let mut settings = EphemerisSettings::new(true);
    settings.add(EphemerisRequest::from_url("stations", "https://example.org/stations.json"));
    let started = settings.begin_fetches();
    assert_eq!(started.len(), 1);
    assert_eq!(started[0].1, "omm://0/0.omm");
    assert!(settings.deliver(0, catalogue(&[25544])));
    settings.adopt();
    assert!(settings.pin("stations", 25544));

    // A refetch replaces the catalogue under the same slot, at the next
    // generation. The pin names a catalogue number, so it still means the
    // same satellite.
    assert!(settings.refresh("stations"));
    let started = settings.begin_fetches();
    assert_eq!(started[0].1, "omm://0/1.omm");
    assert!(settings.deliver(0, catalogue(&[25544])));
    settings.adopt();
    assert!(settings.pinned().is_some());

    assert!(settings.remove("stations"));
    assert_eq!(settings.pinned(), None);
}

#[test]
fn the_halo_follows_the_pin_and_the_cursor_follows_nothing() {
    let mut settings = settings_with(&[25544, 99999]);
    settings.hover(Some(SatellitePick { slot: 0, norad_id: 25544 }));
    // Hovered is what there is, until something is pinned over it.
    assert_eq!(settings.highlight_target(), settings.hovered());
    assert!(settings.hovered().is_some());

    assert!(settings.pin("stations", 99999));
    assert_eq!(settings.highlight_target(), settings.pinned());
    assert_eq!(settings.highlight_target().map(|pick| pick.norad_id), Some(99999));
}

#[test]
fn the_sample_budget_is_shared_out_rather_than_exceeded() {
    // One trail asking for 128 samples gets them; sixty-four share the budget.
    assert_eq!(trail_samples(128, 1), 128);
    assert_eq!(trail_samples(128, 64), 64);
    assert_eq!(trail_samples(1000, 1), MAX_TRAIL_SAMPLES);
    assert_eq!(trail_samples(1, 1), MIN_TRAIL_SAMPLES);
    assert_eq!(clamp_samples(1), MIN_TRAIL_SAMPLES);
    assert_eq!(clamp_samples(100_000), MAX_TRAIL_SAMPLES);
    assert_eq!(clamp_samples(200), 200);
}

#[test]
fn trail_paths_are_named_both_ways() {
    for path in [TrailPath::GroundTrack, TrailPath::Orbit] {
        assert_eq!(TrailPath::from_id(path.id()), Some(path));
    }
    assert_eq!(TrailPath::from_id("spiral"), None);
}

#[test]
fn the_budgets_bite_in_catalogue_order() {
    let ids: Vec<u64> = (1..=700).collect();
    let settings = settings_with(&ids);
    let layer = &settings.layer_list()[0];
    assert_eq!(layer.counts(), (MAX_TRACKED, MAX_TRAILED));
    assert!(layer.selected[MAX_TRACKED - 1]);
    assert!(!layer.selected[MAX_TRACKED]);
    assert!(layer.trailed[MAX_TRAILED - 1]);
    assert!(!layer.trailed[MAX_TRAILED]);
}

#[test]
fn selecting_past_the_budget_does_nothing() {
    let ids: Vec<u64> = (1..=700).collect();
    let mut settings = settings_with(&ids);
    let revision = settings.revision();
    assert!(settings.select("stations", 650, true));
    assert!(!settings.layer_list()[0].selected[649]);
    assert_eq!(settings.layer_list()[0].counts().0, MAX_TRACKED);
    // The layer was found, so the revision still moves.
    assert_eq!(settings.revision(), revision + 1);

    // Making room lets it in, and it becomes the explicit selection.
    assert!(settings.select("stations", 1, false));
    assert!(settings.select("stations", 650, true));
    assert!(settings.layer_list()[0].selected[649]);
    assert!(!settings.layer_list()[0].selected[0]);
}

#[test]
fn an_object_trail_is_refused_past_the_budget() {
    let ids: Vec<u64> = (1..=100).collect();
    let mut settings = settings_with(&ids);
    assert_eq!(settings.layer_list()[0].counts(), (100, MAX_TRAILED));
    assert!(settings.set_object_trail("stations", 80, true));
    assert!(!settings.layer_list()[0].trailed[79]);
    assert!(settings.set_object_trail("stations", 1, false));
    assert!(settings.set_object_trail("stations", 80, true));
    assert!(settings.layer_list()[0].trailed[79]);
    assert_eq!(settings.layer_list()[0].counts(), (100, MAX_TRAILED));
}

#[test]
fn unknown_layers_change_nothing() {
    let mut settings = settings();
    let revision = settings.revision();
    assert!(!settings.set_visible("elsewhere", false));
    assert!(!settings.set_trails("elsewhere", false));
    assert!(!settings.select("elsewhere", 25544, false));
    assert!(!settings.refresh("elsewhere"));
    assert!(!settings.remove("elsewhere"));
    assert_eq!(settings.revision(), revision);
    assert_eq!(settings.drawn(), 1);

    assert!(settings.set_visible("stations", false));
    assert_eq!(settings.drawn(), 0);
    settings.toggle_enabled();
    assert!(!settings.enabled());
}

#[test]
fn a_failed_fetch_is_reported_and_a_replaced_layer_gets_a_new_slot() {
    let mut settings = EphemerisSettings::new(true);
    settings.add(EphemerisRequest::from_url("a", "https://example.org/a.json"));
    settings.begin_fetches();
    assert!(settings.fail(0, "unreachable".to_string()));
    assert_eq!(settings.layer_list()[0].status.error(), Some("unreachable"));
    assert_eq!(settings.layer_list()[0].status.id(), "failed");

    settings.add(EphemerisRequest::from_url("a", "https://example.org/b.json"));
    assert_eq!(settings.layer_list().len(), 1);
    assert_eq!(settings.slot_of("a"), Some(1));
    assert_eq!(settings.layer_list()[0].label, "a");
}

#[test]
fn hovering_is_nothing_while_picking_is_off() {
    let mut settings = settings();
    settings.set_picking(false);
    settings.hover(Some(SatellitePick { slot: 0, norad_id: 25544 }));
    assert_eq!(settings.hovered(), None);
    settings.set_picking(true);
    // A pick naming no layer is nothing too.
    settings.hover(Some(SatellitePick { slot: 9, norad_id: 25544 }));
    assert_eq!(settings.hovered(), None);
}

#[test]
fn a_focus_follows_the_pin_unless_one_is_named() {
    let mut settings = settings();
    let mut gnc = GncSettings::default();
    assert_eq!(resolve_focus(&gnc, &settings), None);
    assert!(settings.pin("stations", 25544));
    assert_eq!(settings.pinned_object(), Some(("stations".to_string(), 25544)));
    assert_eq!(resolve_focus(&gnc, &settings), Some(("stations".to_string(), 25544)));
    gnc.focus = Some(SatelliteFocus { layer: "other".to_string(), norad_id: 1 });
    assert_eq!(resolve_focus(&gnc, &settings), Some(("other".to_string(), 1)));
}

#[test]
fn a_choice_made_object_by_object_survives_a_refresh() {
    let mut settings = EphemerisSettings::new(true);
    settings.add(EphemerisRequest::from_url("group", "https://example.org/group.json"));
    settings.begin_fetches();
    assert!(settings.deliver(0, catalogue(&[1, 2, 3])));
    settings.adopt();
    assert!(settings.select("group", 2, false));
    assert_eq!(settings.layer_list()[0].selected, vec![true, false, true]);

    // The same objects come back in another order; the choice follows them.
    assert!(settings.refresh("group"));
    settings.begin_fetches();
    assert!(settings.deliver(0, catalogue(&[3, 2, 1])));
    settings.adopt();
    assert_eq!(settings.layer_list()[0].selected, vec![true, false, true]);
    assert_eq!(settings.layer_list()[0].counts(), (2, 2));
}

#[test]
fn a_delivery_is_refused_unless_the_layer_is_waiting_for_one() {
    let mut settings = settings();
    // Ready, not loading: a stray document is not adopted.
    assert!(!settings.deliver(0, catalogue(&[1])));
    assert!(!settings.deliver(7, catalogue(&[1])));
    assert!(settings.adopt().is_empty());
    assert_eq!(settings.object_index("stations", 25544), Some((0, 0)));
    assert_eq!(settings.object_index("stations", 1), None);
    assert_eq!(
        settings.resolve_pick(SatellitePick { slot: 0, norad_id: 25544 }),
        Some((0, 0))
    );
}

#[test]
fn a_fetched_layer_registers_its_url_and_gives_it_up_when_removed() {
    let mut settings = EphemerisSettings::new(true);
    settings.add(EphemerisRequest::from_url("stations", "https://example.org/stations.json"));
    let slot = settings.slot_of("stations").expect("a slot");
    assert_eq!(
        settings.slot_urls().get(slot).map(|url| url.as_str()),
        Some("https://example.org/stations.json")
    );
    // Re-adding under the same id moves the URL to the new slot.
    settings.add(EphemerisRequest::from_url("stations", "https://example.org/other.json"));
    let moved = settings.slot_of("stations").expect("a slot");
    assert_ne!(moved, slot);
    assert_eq!(settings.slot_urls().get(slot), None);
    assert_eq!(
        settings.slot_urls().get(moved).map(|url| url.as_str()),
        Some("https://example.org/other.json")
    );
    assert!(settings.remove("stations"));
    assert_eq!(settings.slot_urls().get(moved), None);
    // Text is never fetched, so it has no URL.
    settings.add(EphemerisRequest {
        source: LayerSource::Text(String::new()),
        ..EphemerisRequest::from_url("local", "")
    });
    let local = settings.slot_of("local").expect("a slot");
    assert_eq!(settings.slot_urls().get(local), None);
}

#[test]
fn a_selection_holds_each_number_once_in_order() {
    let mut settings = settings();
    assert!(settings.set_selection("stations", Selection::only(&[25544, 1, 25544])));
    match &settings.layer_list()[0].requested {
        Selection::Only(ids) => {
            assert_eq!(ids.iter().copied().collect::<Vec<u64>>(), vec![1, 25544]);
        }
        Selection::All => panic!("an explicit selection"),
    }
    assert_eq!(settings.layer_list()[0].counts(), (1, 1));
    assert!(Selection::only(&[3, 5]).wants(5));
    assert!(!Selection::only(&[3, 5]).wants(4));
    assert!(Selection::All.wants(4));
}

#[test]
fn settings_the_library_built_check_as_well_formed() {
    assert!(EphemerisSettings::new(false).is_well_formed());
    let settings = settings();
    assert!(settings.is_well_formed());
    assert!(settings.layer_list()[0].is_well_formed());
}

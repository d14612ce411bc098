use terramenta::omm::{catalogue_from_records, CatalogueEntry, OmmError};

fn iss() -> Option<CatalogueEntry> {
    Some(CatalogueEntry {
        norad_id: 25544,
        name: "ISS (ZARYA)".to_string(),
        international_designator: Some("1998-067A".to_string()),
    })
}

#[test]
fn a_bad_row_is_dropped_rather_than_taking_the_document_with_it() {
    let catalogue = catalogue_from_records(vec![iss(), None]).ok().expect("a catalogue");
    assert_eq!(catalogue.len(), 1);
    assert_eq!(catalogue.rejected, 1);
    assert_eq!(catalogue.index_of(25544), Some(0));
    assert_eq!(catalogue.index_of(1), None);
}

#[test]
fn a_document_with_nothing_to_propagate_is_refused() {
    assert!(matches!(catalogue_from_records(vec![]), Err(OmmError::Empty)));
    assert!(matches!(catalogue_from_records(vec![None, None]), Err(OmmError::Empty)));
    assert_eq!(OmmError::Empty.message(), "no propagatable objects in the document");
    assert_eq!(
        OmmError::Malformed("eof".to_string()).message(),
        "not valid OMM JSON: eof"
    );
}

#[test]
fn the_first_of_two_equal_numbers_is_the_one_found() {
    let second = Some(CatalogueEntry {
        norad_id: 25544,
        name: "DUPLICATE".to_string(),
        international_designator: None,
    });
    let catalogue = catalogue_from_records(vec![None, iss(), second]).ok().expect("a catalogue");
    assert_eq!(catalogue.index_of(25544), Some(0));
    assert_eq!(catalogue.satellites[0].name, "ISS (ZARYA)");
    assert_eq!(catalogue.len(), 2);
}

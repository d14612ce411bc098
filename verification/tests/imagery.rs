use terramenta::imagery::{percent_encode, ImageFormat, ImagerySettings};

#[test]
fn percent_encoding_escapes_what_a_path_would_otherwise_eat() {
    assert_eq!(percent_encode("image/jpeg"), "image%2Fjpeg");
    assert_eq!(percent_encode("EPSG:4326"), "EPSG%3A4326");
    assert_eq!(percent_encode("2026-09-10"), "2026-09-10");
}

#[test]
fn percent_encoding_leaves_nothing_a_query_would_read_as_structure() {
    let encoded = percent_encode("a/b:c?d&e=f#g%h+i j");
    assert_eq!(encoded, "a%2Fb%3Ac%3Fd%26e%3Df%23g%25h%2Bi%20j");
    assert!(encoded
        .chars()
        .all(|c| c.is_ascii_alphanumeric() || "-._~%".contains(c)));
}

#[test]
fn percent_encoding_tells_an_escape_from_what_it_escapes() {
    // A literal escape is itself escaped, so the two never meet.
    assert_eq!(percent_encode("A"), "A");
    assert_eq!(percent_encode("%41"), "%2541");
    assert_ne!(percent_encode("%41"), percent_encode("A"));
}

#[test]
fn percent_encoding_works_byte_by_byte() {
    assert_eq!(percent_encode("a b~c_d.e"), "a%20b~c_d.e");
    // Two bytes of UTF-8, each escaped on its own.
    assert_eq!(percent_encode("é"), "%C3%A9");
    assert_eq!(percent_encode(""), "");
}

#[test]
fn formats_name_their_mime_type_and_extension() {
    assert_eq!(ImageFormat::Jpeg.mime(), "image/jpeg");
    assert_eq!(ImageFormat::Png.mime(), "image/png");
    assert_eq!(ImageFormat::Jpeg.extension(), "jpg");
    assert_eq!(ImageFormat::Png.extension(), "png");
}

#[test]
fn presets_cycle_both_ways_and_each_switch_is_a_new_generation() {
    let mut settings = ImagerySettings::new(vec!["a", "b", "c"], "none", true);
    assert_eq!(*settings.active(), "a");
    settings.cycle_preset_back();
    assert_eq!(*settings.active(), "c");
    assert_eq!(settings.generation(), 1);
    settings.cycle_preset();
    assert_eq!(settings.preset_index(), 0);
    for _ in 0..3 {
        settings.cycle_preset();
    }
    assert_eq!(*settings.active(), "a");
    assert_eq!(settings.generation(), 5);
    settings.select_preset(7);
    assert_eq!(settings.preset_index(), 1);
}

#[test]
fn without_presets_nothing_switches() {
    let mut settings: ImagerySettings<&str> = ImagerySettings::new(vec![], "none", false);
    settings.cycle_preset();
    settings.cycle_preset_back();
    settings.select_preset(3);
    assert_eq!(*settings.active(), "none");
    assert_eq!(settings.generation(), 0);
    assert!(!settings.enabled());
    settings.set_enabled(true);
    assert!(settings.enabled());
}

#[test]
fn presets_the_library_built_check_as_well_formed() {
    let mut settings = ImagerySettings::new(vec!["a", "b", "c"], "none", true);
    assert!(settings.is_well_formed());
    settings.cycle_preset_back();
    assert!(settings.is_well_formed());
    assert!(ImagerySettings::new(Vec::<&str>::new(), "none", true).is_well_formed());
}

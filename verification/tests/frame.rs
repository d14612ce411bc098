use terramenta::frame::FrameMode;
use terramenta::gnc::{Anchor, GncSettings, Part};
use terramenta::heliocentric::HeliocentricAnchor;
use terramenta::hud::HudSettings;

#[test]
fn frames_are_named_both_ways() {
    for mode in [FrameMode::Ecef, FrameMode::Eci] {
        assert_eq!(FrameMode::from_id(mode.id()), Some(mode));
    }
    assert_eq!(FrameMode::from_id("geodetic"), None);
}

#[test]
fn a_frame_toggles_to_the_other_and_back() {
    assert_eq!(FrameMode::Ecef.toggled(), FrameMode::Eci);
    assert_eq!(FrameMode::Eci.toggled().toggled(), FrameMode::Eci);
    assert_eq!(FrameMode::default(), FrameMode::Ecef);
    assert_eq!(FrameMode::Eci.label(), "ECI · inertial");
}

#[test]
fn anchors_are_named_both_ways() {
    for anchor in [
        HeliocentricAnchor::Sun,
        HeliocentricAnchor::Earth,
        HeliocentricAnchor::Mars,
        HeliocentricAnchor::Barycenter,
    ] {
        assert_eq!(HeliocentricAnchor::from_id(anchor.id()), Some(anchor));
    }
    assert_eq!(HeliocentricAnchor::from_id("moon"), None);
    assert_eq!(HeliocentricAnchor::from_digit(4), Some(HeliocentricAnchor::Barycenter));
    assert_eq!(HeliocentricAnchor::from_digit(5), None);
}

#[test]
fn each_piece_of_the_frame_drawing_is_rigid_in_its_frame() {
    let mut settings = GncSettings::default();
    assert!(!settings.enabled);
    assert_eq!(Part::all().len(), 7);
    assert_eq!(Part::Orbit.anchor(), Anchor::Eci);
    assert_eq!(Part::GroundTrack.anchor(), Anchor::Ecef);
    assert_eq!(Part::Nadir.anchor(), Anchor::World);
    assert_eq!(Part::Sidereal.name(), "sidereal angle");
    // An angle between two things nobody is drawing is not an angle.
    assert!(Part::Sidereal.wanted(&settings));
    settings.eci_axes = false;
    assert!(!Part::Sidereal.wanted(&settings));
    assert!(Part::Graticule.wanted(&settings));
}

#[test]
fn the_help_is_shown_only_inside_a_shown_overlay() {
    let mut hud = HudSettings::default();
    assert!(hud.readout_shown() && hud.help_shown());
    hud.visible = false;
    assert!(!hud.help_shown());
    assert!(!hud.readout_shown());
}

use terramenta::commands::{apply, CommandQueue, GlobeCommand};
use terramenta::ephemeris::{EphemerisRequest, EphemerisSettings};
use terramenta::frame::FrameMode;
use terramenta::hud::{GlobeInput, HudSettings};
use terramenta::imagery::ImagerySettings;

#[derive(Debug, Clone, PartialEq)]
enum Command {
    ResetView,
    NextLayer,
}

#[test]
fn queued_commands_are_taken_once() {
    let mut queue = CommandQueue::new();
    queue.send(Command::ResetView);
    queue.send(Command::NextLayer);
    assert_eq!(queue.take_queued(), vec![Command::ResetView, Command::NextLayer]);
    assert!(queue.take_queued().is_empty());
}

#[test]
fn commands_reach_the_frame_the_presets_and_the_layers() {
    let mut frame = FrameMode::Ecef;
    let mut imagery = ImagerySettings::new(vec![1, 2, 3], 0, true);
    let mut ephemerides = EphemerisSettings::new(true);
    let mut hud = HudSettings::default();
    let mut input = GlobeInput::default();

    apply(GlobeCommand::ToggleFrame, &mut frame, &mut imagery, &mut ephemerides, &mut hud, &mut input);
    assert_eq!(frame, FrameMode::Eci);
    apply(GlobeCommand::SetFrame(FrameMode::Eci), &mut frame, &mut imagery, &mut ephemerides, &mut hud, &mut input);
    assert_eq!(frame, FrameMode::Eci);

    apply(GlobeCommand::PreviousLayer, &mut frame, &mut imagery, &mut ephemerides, &mut hud, &mut input);
    assert_eq!(*imagery.active(), 3);
    apply(GlobeCommand::SetLayer(4), &mut frame, &mut imagery, &mut ephemerides, &mut hud, &mut input);
    assert_eq!(*imagery.active(), 2);
    assert_eq!(imagery.generation(), 2);
    apply(GlobeCommand::SetImageryEnabled(false), &mut frame, &mut imagery, &mut ephemerides, &mut hud, &mut input);
    assert!(!imagery.enabled());

    let request = EphemerisRequest::from_url("stations", "https://example.org/stations.json");
    apply(GlobeCommand::AddEphemeris(request), &mut frame, &mut imagery, &mut ephemerides, &mut hud, &mut input);
    assert_eq!(ephemerides.layer_list().len(), 1);
    apply(
        GlobeCommand::SetEphemerisVisible { id: "stations".to_string(), visible: false },
        &mut frame,
        &mut imagery,
        &mut ephemerides,
        &mut hud,
        &mut input,
    );
    assert!(!ephemerides.layer_list()[0].visible);
    // Naming a layer that is not up is not an error, and changes nothing.
    let revision = ephemerides.revision();
    apply(GlobeCommand::RemoveEphemeris("elsewhere".to_string()), &mut frame, &mut imagery, &mut ephemerides, &mut hud, &mut input);
    assert_eq!(ephemerides.revision(), revision);
    apply(GlobeCommand::RemoveEphemeris("stations".to_string()), &mut frame, &mut imagery, &mut ephemerides, &mut hud, &mut input);
    assert!(ephemerides.layer_list().is_empty());
}

#[test]
fn commands_reach_the_overlay_and_the_keyboard() {
    let mut frame = FrameMode::Ecef;
    let mut imagery = ImagerySettings::new(vec![1, 2, 3], 0, true);
    let mut ephemerides = EphemerisSettings::new(true);
    let mut hud = HudSettings::default();
    let mut input = GlobeInput::default();
    apply(GlobeCommand::SetHelpVisible(false), &mut frame, &mut imagery, &mut ephemerides, &mut hud, &mut input);
    assert!(hud.visible && !hud.help_visible);
    apply(GlobeCommand::SetHudVisible(false), &mut frame, &mut imagery, &mut ephemerides, &mut hud, &mut input);
    assert!(!hud.visible && !hud.help_visible);
    assert!(input.keyboard);
    apply(GlobeCommand::SetKeyboardEnabled(false), &mut frame, &mut imagery, &mut ephemerides, &mut hud, &mut input);
    assert!(!input.keyboard);
    assert_eq!(frame, FrameMode::Ecef);
}

//! The queue commands wait in until the globe applies them.
//!
//! Commands are pushed from wherever the caller happens to be and drained once
//! a tick, so a burst of commands from one interaction lands together on the
//! next frame. Nothing is applied mid-tick.
use vstd::prelude::*;

use crate::ephemeris::{
    change_noted, object_selected, object_trailed, one_layer_changed, refetch_asked, selection_set,
    trails_set, visibility_set, EphemerisLayer, EphemerisRequest, EphemerisSettings, Selection,
};
use crate::frame::FrameMode;
use crate::hud::{GlobeInput, HudSettings};
use crate::imagery::ImagerySettings;

verus! {

/// Commands waiting to be applied, oldest first.
pub struct CommandQueue<T> {
    queued: Vec<T>,
}

impl<T> CommandQueue<T> {
    pub closed spec fn queued(&self) -> Seq<T> {
        self.queued@
    }

    /// Nothing waiting.
    pub fn new() -> (queue: Self)
        ensures
            queue.queued().len() == 0,
    {
        CommandQueue { queued: Vec::new() }
    }

    /// Queues a command behind those already waiting.
    pub fn send(&mut self, command: T)
        ensures
            final(self).queued() == old(self).queued().push(command),
    {
        self.queued.push(command);
    }

    /// Takes every waiting command, in the order they were sent, and leaves
    /// the queue empty — so each command is taken exactly once.
    pub fn take_queued(&mut self) -> (taken: Vec<T>)
        ensures
            taken@ == old(self).queued(),
            final(self).queued().len() == 0,
    {
        let mut taken: Vec<T> = Vec::new();
        std::mem::swap(&mut taken, &mut self.queued);
        taken
    }
}


/// One instruction for the globe, applied on the next tick: the ones whose
/// effect is on the frame, the imagery presets and the ephemeris layers.
pub enum GlobeCommand {
    SetFrame(FrameMode),
    ToggleFrame,
    /// Selects an imagery preset by index, wrapping past the end of the list.
    SetLayer(usize),
    NextLayer,
    PreviousLayer,
    SetImageryEnabled(bool),
    /// Puts an ephemeris layer up, replacing any already under the same id.
    AddEphemeris(EphemerisRequest),
    RemoveEphemeris(String),
    SetEphemerisVisible { id: String, visible: bool },
    /// Replaces which objects of the catalogue are drawn.
    SetEphemerisSelection { id: String, selection: Selection },
    /// Draws one object, or stops drawing it, by catalogue number.
    SelectSatellite { id: String, norad_id: u64, selected: bool },
    /// Draws one object's arc, or stops drawing it.
    SetSatelliteTrail { id: String, norad_id: u64, trail: bool },
    /// Whether the layer draws arcs at all.
    SetEphemerisTrails { id: String, trails: bool },
    /// Refetches now, whatever the period says.
    RefreshEphemeris(String),
    SetEphemeridesEnabled(bool),
    /// Whether the cursor picks anything at all.
    SetPickingEnabled(bool),
    /// Keeps a satellite selected, by catalogue number.
    PinSatellite { layer: String, norad_id: u64 },
    ClearPinnedSatellite,
    /// Shows or hides the whole on-screen overlay.
    SetHudVisible(bool),
    /// Shows or hides the key list inside it.
    SetHelpVisible(bool),
    /// Whether the globe's own keyboard shortcuts are live.
    SetKeyboardEnabled(bool),
}

/// What one command does to the frame, the imagery and the ephemerides.
/// Each names the operation that carries it out, whose contract states the
/// change; nothing a command does not name moves.
pub open spec fn globe_command_applied<L>(
    command: GlobeCommand,
    frame: (FrameMode, FrameMode),
    imagery: (ImagerySettings<L>, ImagerySettings<L>),
    ephemerides: (EphemerisSettings, EphemerisSettings),
) -> bool {
    let (frame_before, frame_after) = frame;
    let (imagery_before, imagery_after) = imagery;
    let (before, after) = ephemerides;
    let frame_kept = frame_after == frame_before;
    let imagery_kept = imagery_after == imagery_before;
    let ephemerides_kept = after == before;
    let layer_control = |id: Seq<char>, change: spec_fn(EphemerisLayer, EphemerisLayer) -> bool|
        after.controls_kept(&before, id) && one_layer_changed(before.layers(), after.layers(), id, change);
    match command {
        GlobeCommand::SetFrame(mode) => frame_after == mode && imagery_kept && ephemerides_kept,
        GlobeCommand::ToggleFrame => frame_after == frame_before.spec_toggled() && imagery_kept
            && ephemerides_kept,
        GlobeCommand::SetLayer(index) => imagery_after.switched_to(&imagery_before, index as int)
            && frame_kept && ephemerides_kept,
        GlobeCommand::NextLayer => imagery_after.switched_to(
            &imagery_before,
            imagery_before.spec_preset_index() + 1,
        ) && frame_kept && ephemerides_kept,
        GlobeCommand::PreviousLayer => imagery_after.switched_to(
            &imagery_before,
            imagery_before.spec_preset_index() + imagery_before.presets().len() - 1,
        ) && frame_kept && ephemerides_kept,
        GlobeCommand::SetImageryEnabled(enabled) => {
            &&& imagery_after.wf()
            &&& imagery_after.spec_enabled() == enabled
            &&& imagery_after.presets() == imagery_before.presets()
            &&& imagery_after.spec_fallback() == imagery_before.spec_fallback()
            &&& imagery_after.spec_preset_index() == imagery_before.spec_preset_index()
            &&& imagery_after.spec_generation() == imagery_before.spec_generation()
            &&& frame_kept
            &&& ephemerides_kept
        },
        GlobeCommand::AddEphemeris(request) => frame_kept && imagery_kept && if before.spec_next_slot()
            < u64::MAX {
            EphemerisSettings::addition(before, after, request)
        } else {
            ephemerides_kept
        },
        GlobeCommand::RemoveEphemeris(id) => frame_kept && imagery_kept && EphemerisSettings::removal(
            before,
            after,
            id@,
        ),
        GlobeCommand::SetEphemerisVisible { id, visible } => frame_kept && imagery_kept && layer_control(
            id@,
            |a: EphemerisLayer, b: EphemerisLayer| visibility_set(a, b, visible),
        ),
        GlobeCommand::SetEphemerisSelection { id, selection } => frame_kept && imagery_kept
            && layer_control(id@, |a: EphemerisLayer, b: EphemerisLayer| selection_set(a, b, selection@)),
        GlobeCommand::SelectSatellite { id, norad_id, selected } => frame_kept && imagery_kept
            && layer_control(
            id@,
            |a: EphemerisLayer, b: EphemerisLayer| object_selected(a, b, norad_id, selected),
        ),
        GlobeCommand::SetSatelliteTrail { id, norad_id, trail } => frame_kept && imagery_kept
            && layer_control(
            id@,
            |a: EphemerisLayer, b: EphemerisLayer| object_trailed(a, b, norad_id, trail),
        ),
        GlobeCommand::SetEphemerisTrails { id, trails } => frame_kept && imagery_kept && layer_control(
            id@,
            |a: EphemerisLayer, b: EphemerisLayer| trails_set(a, b, trails),
        ),
        GlobeCommand::RefreshEphemeris(id) => frame_kept && imagery_kept && layer_control(
            id@,
            |a: EphemerisLayer, b: EphemerisLayer| refetch_asked(a, b),
        ),
        GlobeCommand::SetEphemeridesEnabled(enabled) => frame_kept && imagery_kept
            && EphemerisSettings::switched(before, after, enabled, before.spec_picking()),
        GlobeCommand::SetPickingEnabled(picking) => frame_kept && imagery_kept
            && EphemerisSettings::switched(before, after, before.spec_enabled(), picking),
        GlobeCommand::PinSatellite { layer, norad_id } => frame_kept && imagery_kept
            && EphemerisSettings::pinning(before, after, layer@, norad_id),
        GlobeCommand::ClearPinnedSatellite => frame_kept && imagery_kept
            && EphemerisSettings::pin_clearing(before, after),
        GlobeCommand::SetHudVisible(_) => frame_kept && imagery_kept && ephemerides_kept,
        GlobeCommand::SetHelpVisible(_) => frame_kept && imagery_kept && ephemerides_kept,
        GlobeCommand::SetKeyboardEnabled(_) => frame_kept && imagery_kept && ephemerides_kept,
    }
}

/// What one command does to the overlay's switches and the keyboard.
pub open spec fn controls_applied(
    command: GlobeCommand,
    hud: (HudSettings, HudSettings),
    input: (GlobeInput, GlobeInput),
) -> bool {
    let (hud_before, hud_after) = hud;
    let (input_before, input_after) = input;
    &&& match command {
        GlobeCommand::SetHudVisible(visible) => hud_after == HudSettings { visible, ..hud_before },
        GlobeCommand::SetHelpVisible(visible) => hud_after == HudSettings {
            help_visible: visible,
            ..hud_before
        },
        _ => hud_after == hud_before,
    }
    &&& match command {
        GlobeCommand::SetKeyboardEnabled(enabled) => input_after.keyboard == enabled,
        _ => input_after == input_before,
    }
}

/// Applies one command to the parts of the globe it reaches. A layer the
/// command names that is not up is not an error: an interface can name one
/// the user has just removed, and it being gone is the state asked for.
pub fn apply<L>(
    command: GlobeCommand,
    frame: &mut FrameMode,
    imagery: &mut ImagerySettings<L>,
    ephemerides: &mut EphemerisSettings,
    hud: &mut HudSettings,
    input: &mut GlobeInput,
)
    requires
        old(imagery).wf(),
        old(ephemerides).wf(),
    ensures
        final(imagery).wf(),
        final(ephemerides).wf(),
        globe_command_applied(
            command,
            (*old(frame), *final(frame)),
            (*old(imagery), *final(imagery)),
            (*old(ephemerides), *final(ephemerides)),
        ),
        controls_applied(command, (*old(hud), *final(hud)), (*old(input), *final(input))),
{
    match command {
        GlobeCommand::SetFrame(mode) => *frame = mode,
        GlobeCommand::ToggleFrame => *frame = frame.toggled(),
        GlobeCommand::SetLayer(index) => imagery.select_preset(index),
        GlobeCommand::NextLayer => imagery.cycle_preset(),
        GlobeCommand::PreviousLayer => imagery.cycle_preset_back(),
        GlobeCommand::SetImageryEnabled(enabled) => imagery.set_enabled(enabled),
        GlobeCommand::AddEphemeris(request) => {
            if ephemerides.has_slot_left() {
                ephemerides.add(request);
            }
        },
        GlobeCommand::RemoveEphemeris(id) => {
            ephemerides.remove(id.as_str());
        },
        GlobeCommand::SetEphemerisVisible { id, visible } => {
            ephemerides.set_visible(id.as_str(), visible);
        },
        GlobeCommand::SetEphemerisSelection { id, selection } => {
            ephemerides.set_selection(id.as_str(), selection);
        },
        GlobeCommand::SelectSatellite { id, norad_id, selected } => {
            ephemerides.select(id.as_str(), norad_id, selected);
        },
        GlobeCommand::SetSatelliteTrail { id, norad_id, trail } => {
            ephemerides.set_object_trail(id.as_str(), norad_id, trail);
        },
        GlobeCommand::SetEphemerisTrails { id, trails } => {
            ephemerides.set_trails(id.as_str(), trails);
        },
        GlobeCommand::RefreshEphemeris(id) => {
            ephemerides.refresh(id.as_str());
        },
        GlobeCommand::SetEphemeridesEnabled(enabled) => ephemerides.set_enabled(enabled),
        GlobeCommand::SetPickingEnabled(picking) => ephemerides.set_picking(picking),
        GlobeCommand::PinSatellite { layer, norad_id } => {
            ephemerides.pin(layer.as_str(), norad_id);
        },
        GlobeCommand::ClearPinnedSatellite => ephemerides.clear_pin(),
        GlobeCommand::SetHudVisible(visible) => hud.visible = visible,
        GlobeCommand::SetHelpVisible(visible) => hud.help_visible = visible,
        GlobeCommand::SetKeyboardEnabled(enabled) => input.keyboard = enabled,
    }
}

} // verus!

//! The frame drawing: which of its pieces are on, which frame each is rigid
//! in, and which satellite its paths follow.
//!
//! The drawing explains the two reference frames: an inertial triad and an
//! Earth-fixed one, the lat/lon grid, the sidereal angle between the triads,
//! and a satellite's orbit, ground track and nadir line. Each piece is rigid in
//! one frame, so switching frames moves it by one rotation rather than a
//! rebuild. How the pieces are measured and drawn is the renderer's.
use vstd::prelude::*;

use crate::ephemeris::{find_slot, EphemerisSettings};

verus! {

/// The satellite the paths follow, named as a command names one.
pub struct SatelliteFocus {
    /// The ephemeris layer's id.
    pub layer: String,
    pub norad_id: u64,
}

/// The switches over the frame drawing.
pub struct GncSettings {
    /// The master switch. Off, nothing here is drawn.
    pub enabled: bool,
    /// The inertial triad and the celestial equator.
    pub eci_axes: bool,
    /// The Earth-fixed triad, the equator and the prime meridian.
    pub ecef_axes: bool,
    /// The lat/lon grid on the ground.
    pub graticule: bool,
    /// The arc measuring the sidereal angle between the two triads.
    pub sidereal: bool,
    /// The two satellite paths and the nadir line.
    pub track: bool,
    /// Which satellite they follow, or none to follow whichever is pinned.
    pub focus: Option<SatelliteFocus>,
}

impl Default for GncSettings {
    /// Off until asked for, with every piece switched on for when it is, and
    /// following the pin.
    fn default() -> (settings: GncSettings)
        ensures
            !settings.enabled,
            settings.eci_axes,
            settings.ecef_axes,
            settings.graticule,
            settings.sidereal,
            settings.track,
            settings.focus is None,
    {
        GncSettings {
            enabled: false,
            eci_axes: true,
            ecef_axes: true,
            graticule: true,
            sidereal: true,
            track: true,
            focus: None,
        }
    }
}

/// Which frame a piece is rigid in, and so which rotation carries it.
#[derive(Debug, Clone, Copy, PartialEq, Eq, Structural)]
pub enum Anchor {
    /// Fixed to the stars.
    Eci,
    /// Fixed to the ground.
    Ecef,
    /// Neither, because it spans both; rebuilt every tick.
    World,
}

/// The pieces of the drawing.
#[derive(Debug, Clone, Copy, PartialEq, Eq, Structural)]
pub enum Part {
    EciAxes,
    EcefAxes,
    Graticule,
    Sidereal,
    Orbit,
    GroundTrack,
    Nadir,
}

impl Part {
    /// Every piece, in drawing order.
    pub fn all() -> (parts: [Part; 7])
        ensures
            parts@ == seq![
                Part::EciAxes,
                Part::EcefAxes,
                Part::Graticule,
                Part::Sidereal,
                Part::Orbit,
                Part::GroundTrack,
                Part::Nadir,
            ],
    {
        let parts = [
            Part::EciAxes,
            Part::EcefAxes,
            Part::Graticule,
            Part::Sidereal,
            Part::Orbit,
            Part::GroundTrack,
            Part::Nadir,
        ];
        assert(parts@ =~= seq![
            Part::EciAxes,
            Part::EcefAxes,
            Part::Graticule,
            Part::Sidereal,
            Part::Orbit,
            Part::GroundTrack,
            Part::Nadir,
        ]);
        parts
    }

    /// The frame the piece is rigid in: the inertial triad and the orbit in
    /// ECI; the Earth-fixed triad, the grid and the ground track in ECEF; the
    /// sidereal arc and the nadir line in neither.
    pub fn anchor(self) -> (anchor: Anchor)
        ensures
            anchor == match self {
                Part::EciAxes | Part::Orbit => Anchor::Eci,
                Part::EcefAxes | Part::Graticule | Part::GroundTrack => Anchor::Ecef,
                Part::Sidereal | Part::Nadir => Anchor::World,
            },
    {
        match self {
            Part::EciAxes | Part::Orbit => Anchor::Eci,
            Part::EcefAxes | Part::Graticule | Part::GroundTrack => Anchor::Ecef,
            Part::Sidereal | Part::Nadir => Anchor::World,
        }
    }

    pub fn name(self) -> (name: &'static str)
        ensures
            name@ == match self {
                Part::EciAxes => "ECI axes"@,
                Part::EcefAxes => "ECEF axes"@,
                Part::Graticule => "graticule"@,
                Part::Sidereal => "sidereal angle"@,
                Part::Orbit => "inertial orbit"@,
                Part::GroundTrack => "ground track"@,
                Part::Nadir => "nadir"@,
            },
    {
        match self {
            Part::EciAxes => "ECI axes",
            Part::EcefAxes => "ECEF axes",
            Part::Graticule => "graticule",
            Part::Sidereal => "sidereal angle",
            Part::Orbit => "inertial orbit",
            Part::GroundTrack => "ground track",
            Part::Nadir => "nadir",
        }
    }

    pub open spec fn spec_wanted(self, settings: GncSettings) -> bool {
        match self {
            Part::EciAxes => settings.eci_axes,
            Part::EcefAxes => settings.ecef_axes,
            Part::Graticule => settings.graticule,
            Part::Sidereal => settings.sidereal && settings.eci_axes && settings.ecef_axes,
            Part::Orbit | Part::GroundTrack | Part::Nadir => settings.track,
        }
    }

    /// Whether this piece is switched on. The sidereal arc needs both triads
    /// as well: an angle between two things nobody is drawing is not an angle.
    pub fn wanted(self, settings: &GncSettings) -> (wanted: bool)
        ensures
            wanted == self.spec_wanted(*settings),
    {
        match self {
            Part::EciAxes => settings.eci_axes,
            Part::EcefAxes => settings.ecef_axes,
            Part::Graticule => settings.graticule,
            Part::Sidereal => settings.sidereal && settings.eci_axes && settings.ecef_axes,
            Part::Orbit | Part::GroundTrack | Part::Nadir => settings.track,
        }
    }
}

/// Which satellite the paths follow: what was asked for, or else whatever is
/// pinned, named by its layer's id and its catalogue number.
pub fn resolve_focus(settings: &GncSettings, ephemerides: &EphemerisSettings) -> (focus: Option<
    (String, u64),
>)
    requires
        ephemerides.wf(),
    ensures
        match settings.focus {
            Some(f) => match focus {
                Some((layer, norad_id)) => layer@ == f.layer@ && norad_id == f.norad_id,
                None => false,
            },
            None => match ephemerides.spec_pinned() {
                Some(p) => match focus {
                    Some((layer, norad_id)) => layer@ == ephemerides.layers()[find_slot(
                        ephemerides.layers(),
                        p.slot,
                    )->0].id@ && norad_id == p.norad_id,
                    None => false,
                },
                None => focus is None,
            },
        },
{
    match &settings.focus {
        Some(focus) => Some((focus.layer.clone(), focus.norad_id)),
        None => ephemerides.pinned_object(),
    }
}

} // verus!

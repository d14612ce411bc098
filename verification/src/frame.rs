//! The two reference frames the globe can be drawn in, and their names.
//!
//! In ECEF the ground is still and the sky moves; in ECI the sky is still and
//! the ground moves. An embedder names a frame by a stable id.
use vstd::prelude::*;

use crate::text::same_text;

verus! {

/// The frame the scene is drawn in.
#[derive(Debug, Clone, Copy, PartialEq, Eq, Structural)]
pub enum FrameMode {
    /// Earth-fixed: the ground is still, the sky moves.
    Ecef,
    /// Inertial: the sky is still, the ground moves.
    Eci,
}

impl FrameMode {
    pub open spec fn spec_id(self) -> Seq<char> {
        match self {
            FrameMode::Ecef => "ecef"@,
            FrameMode::Eci => "eci"@,
        }
    }

    pub open spec fn spec_label(self) -> Seq<char> {
        match self {
            FrameMode::Ecef => "ECEF · Earth-fixed"@,
            FrameMode::Eci => "ECI · inertial"@,
        }
    }

    pub open spec fn spec_toggled(self) -> FrameMode {
        match self {
            FrameMode::Ecef => FrameMode::Eci,
            FrameMode::Eci => FrameMode::Ecef,
        }
    }

    /// The stable name the control surface names this frame by.
    pub fn id(self) -> (id: &'static str)
        ensures
            id@ == self.spec_id(),
    {
        match self {
            FrameMode::Ecef => "ecef",
            FrameMode::Eci => "eci",
        }
    }

    /// Parses [`FrameMode::id`] back, for a frame named by an embedder.
    pub fn from_id(id: &str) -> (mode: Option<FrameMode>)
        ensures
            mode == (if id@ == "ecef"@ {
                Some(FrameMode::Ecef)
            } else if id@ == "eci"@ {
                Some(FrameMode::Eci)
            } else {
                None
            }),
    {
        if same_text(id, "ecef") {
            Some(FrameMode::Ecef)
        } else if same_text(id, "eci") {
            Some(FrameMode::Eci)
        } else {
            None
        }
    }

    pub fn label(self) -> (label: &'static str)
        ensures
            label@ == self.spec_label(),
    {
        match self {
            FrameMode::Ecef => "ECEF · Earth-fixed",
            FrameMode::Eci => "ECI · inertial",
        }
    }

    /// The other frame.
    pub fn toggled(self) -> (other: FrameMode)
        ensures
            other == self.spec_toggled(),
    {
        match self {
            FrameMode::Ecef => FrameMode::Eci,
            FrameMode::Eci => FrameMode::Ecef,
        }
    }
}

impl Default for FrameMode {
    /// Earth-fixed, where the ground a person came to look at holds still.
    fn default() -> (mode: FrameMode)
        ensures
            mode == FrameMode::Ecef,
    {
        FrameMode::Ecef
    }
}

/// Each frame is named by an id that reads back as that frame.
pub proof fn frame_ids_round_trip(mode: FrameMode)
    ensures
        (if mode.spec_id() == "ecef"@ {
            Some(FrameMode::Ecef)
        } else if mode.spec_id() == "eci"@ {
            Some(FrameMode::Eci)
        } else {
            None
        }) == Some(mode),
{
    reveal_strlit("ecef");
    reveal_strlit("eci");
    assert("ecef"@ != "eci"@) by {
        assert("ecef"@.len() != "eci"@.len());
    }
}

/// Toggling twice is where it started, and toggling always changes the frame.
pub proof fn toggling_twice_returns(mode: FrameMode)
    ensures
        mode.spec_toggled().spec_toggled() == mode,
        mode.spec_toggled() != mode,
{
}

} // verus!

//! The bodies the heliocentric camera can be anchored to, and their names.
use vstd::prelude::*;

use crate::text::same_text;

verus! {

/// A body the heliocentric camera can orbit.
#[derive(Debug, Clone, Copy, PartialEq, Eq, Structural)]
pub enum HeliocentricAnchor {
    Sun,
    Earth,
    Mars,
    /// The Solar System Barycentre: nothing is drawn there, but it is the one
    /// point in the scene that never moves.
    Barycenter,
}

impl HeliocentricAnchor {
    pub open spec fn spec_id(self) -> Seq<char> {
        match self {
            HeliocentricAnchor::Sun => "sun"@,
            HeliocentricAnchor::Earth => "earth"@,
            HeliocentricAnchor::Mars => "mars"@,
            HeliocentricAnchor::Barycenter => "barycenter"@,
        }
    }

    pub open spec fn spec_from_id(id: Seq<char>) -> Option<HeliocentricAnchor> {
        if id == "sun"@ {
            Some(HeliocentricAnchor::Sun)
        } else if id == "earth"@ {
            Some(HeliocentricAnchor::Earth)
        } else if id == "mars"@ {
            Some(HeliocentricAnchor::Mars)
        } else if id == "barycenter"@ {
            Some(HeliocentricAnchor::Barycenter)
        } else {
            None
        }
    }

    /// The stable name the control surface names this anchor by.
    pub fn id(self) -> (id: &'static str)
        ensures
            id@ == self.spec_id(),
    {
        match self {
            HeliocentricAnchor::Sun => "sun",
            HeliocentricAnchor::Earth => "earth",
            HeliocentricAnchor::Mars => "mars",
            HeliocentricAnchor::Barycenter => "barycenter",
        }
    }

    /// Parses [`HeliocentricAnchor::id`] back, for an anchor named by an
    /// embedder.
    pub fn from_id(id: &str) -> (anchor: Option<HeliocentricAnchor>)
        ensures
            anchor == Self::spec_from_id(id@),
    {
        if same_text(id, "sun") {
            Some(HeliocentricAnchor::Sun)
        } else if same_text(id, "earth") {
            Some(HeliocentricAnchor::Earth)
        } else if same_text(id, "mars") {
            Some(HeliocentricAnchor::Mars)
        } else if same_text(id, "barycenter") {
            Some(HeliocentricAnchor::Barycenter)
        } else {
            None
        }
    }

    /// The anchor a digit key picks, `1` to `4` in the order above.
    pub fn from_digit(digit: u8) -> (anchor: Option<HeliocentricAnchor>)
        ensures
            anchor == (if digit == 1 {
                Some(HeliocentricAnchor::Sun)
            } else if digit == 2 {
                Some(HeliocentricAnchor::Earth)
            } else if digit == 3 {
                Some(HeliocentricAnchor::Mars)
            } else if digit == 4 {
                Some(HeliocentricAnchor::Barycenter)
            } else {
                None
            }),
    {
        if digit == 1 {
            Some(HeliocentricAnchor::Sun)
        } else if digit == 2 {
            Some(HeliocentricAnchor::Earth)
        } else if digit == 3 {
            Some(HeliocentricAnchor::Mars)
        } else if digit == 4 {
            Some(HeliocentricAnchor::Barycenter)
        } else {
            None
        }
    }
}

/// Each anchor is named by an id that reads back as that anchor.
pub proof fn anchor_ids_round_trip(anchor: HeliocentricAnchor)
    ensures
        HeliocentricAnchor::spec_from_id(anchor.spec_id()) == Some(anchor),
{
    reveal_strlit("sun");
    reveal_strlit("earth");
    reveal_strlit("mars");
    reveal_strlit("barycenter");
    assert("sun"@ != "earth"@ && "sun"@ != "mars"@ && "sun"@ != "barycenter"@ && "earth"@ != "mars"@
        && "earth"@ != "barycenter"@ && "mars"@ != "barycenter"@) by {
        assert("sun"@[0] != "earth"@[0]);
        assert("sun"@[0] != "mars"@[0]);
        assert("sun"@[0] != "barycenter"@[0]);
        assert("earth"@[0] != "mars"@[0]);
        assert("earth"@[0] != "barycenter"@[0]);
        assert("mars"@[0] != "barycenter"@[0]);
    }
}

} // verus!

//! The on-screen readout: its switches, and the text it shows.
use vstd::prelude::*;

use crate::text::{decimal, push_decimal, push_str};

verus! {

/// What the heads-up display shows.
pub struct HudSettings {
    /// The whole overlay. Off, the globe fills the canvas with nothing on it.
    pub visible: bool,
    /// The key list alone.
    pub help_visible: bool,
}

impl Default for HudSettings {
    /// Everything shown.
    fn default() -> (settings: HudSettings)
        ensures
            settings.visible,
            settings.help_visible,
    {
        HudSettings { visible: true, help_visible: true }
    }
}

/// What the globe takes from the user directly. The pointer is always live;
/// the keyboard shortcuts can be given up to an embedder that wants them.
pub struct GlobeInput {
    pub keyboard: bool,
}

impl Default for GlobeInput {
    /// The keyboard shortcuts live.
    fn default() -> (input: GlobeInput)
        ensures
            input.keyboard,
    {
        GlobeInput { keyboard: true }
    }
}

impl HudSettings {
    /// Whether the readout is shown.
    pub fn readout_shown(&self) -> (shown: bool)
        ensures
            shown == self.visible,
    {
        self.visible
    }

    /// Whether the key list is shown: only inside a visible overlay.
    pub fn help_shown(&self) -> (shown: bool)
        ensures
            shown == (self.visible && self.help_visible),
    {
        self.visible && self.help_visible
    }
}

// ---------------------------------------------------------------------------
// The readout's text
// ---------------------------------------------------------------------------

/// One tile streamer as the readout reports it: the layer it streams, the
/// deepest level drawn, and how many tiles are drawn and loading.
pub struct TileRow {
    pub label: String,
    pub level: u8,
    pub drawn: usize,
    pub loading: usize,
}

/// A feature under the cursor or pinned: the layer it is in, its `id` if it
/// had one, and its index in that layer.
pub struct PickedFeature {
    pub label: String,
    pub id: Option<String>,
    pub index: usize,
}

/// Everything the readout shows, its numbers already written out where they
/// are not whole: the cursor's coordinate, the altitude in whole kilometres,
/// the subsolar point and the clock.
pub struct ReadoutInput {
    /// The coordinate under the cursor, or `None` off the globe.
    pub cursor: Option<String>,
    pub altitude: String,
    pub frame_label: String,
    pub subsolar: String,
    pub shaded: bool,
    pub clock: String,
    pub paused: bool,
    /// The imagery streamer, or `None` while imagery is off.
    pub imagery: Option<TileRow>,
    /// The vector tile streamer and how many features it holds, or `None`
    /// while vector tiles are off.
    pub vectors: Option<(TileRow, usize)>,
    /// Overlays drawn, overlays in all, and whether overlays are on.
    pub overlays: (usize, usize, bool),
    pub pinned: Option<PickedFeature>,
    pub hovered: Option<PickedFeature>,
}

/// The level, drawn and loading counts of a streamer's row, after its label.
pub open spec fn tile_counts(row: TileRow) -> Seq<char> {
    "\n           level "@ + decimal(row.level as nat) + " · "@ + decimal(row.drawn as nat)
        + " drawn · "@ + decimal(row.loading as nat) + " loading"@
}

pub open spec fn imagery_text(imagery: Option<TileRow>) -> Seq<char> {
    match imagery {
        Some(row) => row.label@ + tile_counts(row),
        None => "off"@,
    }
}

pub open spec fn vectors_text(vectors: Option<(TileRow, usize)>) -> Seq<char> {
    match vectors {
        Some((row, features)) => row.label@ + tile_counts(row) + " · "@ + decimal(features as nat)
            + " features"@,
        None => "off"@,
    }
}

/// A row for overlays only when there are any: a globe with none carries no
/// row reporting so.
pub open spec fn overlays_text(overlays: (usize, usize, bool)) -> Seq<char> {
    let (drawn, total, enabled) = overlays;
    if total == 0 {
        Seq::empty()
    } else {
        "\noverlays  "@ + decimal(drawn as nat) + " of "@ + decimal(total as nat) + " drawn"@ + if enabled {
            Seq::empty()
        } else {
            "  (off)"@
        }
    }
}

/// Whatever is pinned, or failing that whatever the cursor is over — the
/// preference the highlight itself follows — named by its `id`, or by its
/// index where it has none.
pub open spec fn picked_text(pinned: Option<PickedFeature>, hovered: Option<PickedFeature>) -> Seq<
    char,
> {
    let picked = match pinned {
        Some(feature) => Some(feature),
        None => hovered,
    };
    match picked {
        Some(feature) => "\npicked    "@ + feature.label@ + " · "@ + match feature.id {
            Some(id) => id@,
            None => "#"@ + decimal(feature.index as nat),
        },
        None => Seq::empty(),
    }
}

/// The readout's first rows: the title, the cursor, the altitude, the frame,
/// the sun and the clock.
pub open spec fn head_text(input: ReadoutInput) -> Seq<char> {
    "TERRAMENTA\ncursor    "@ + match input.cursor {
        Some(cursor) => cursor@,
        None => "—"@,
    } + "\naltitude  "@ + input.altitude@ + " km\nframe     "@ + input.frame_label@
        + "\nsun over  "@ + input.subsolar@ + if input.shaded {
        Seq::empty()
    } else {
        "  (unshaded)"@
    } + "\nclock     "@ + input.clock@ + if input.paused {
        "  (paused)"@
    } else {
        Seq::empty()
    }
}

/// The readout, row by row.
pub open spec fn readout_text(input: ReadoutInput) -> Seq<char> {
    head_text(input) + "\nimagery   "@ + imagery_text(input.imagery) + "\nvectors   "@ + vectors_text(
        input.vectors,
    ) + overlays_text(input.overlays) + picked_text(input.pinned, input.hovered)
}

fn push_tile_counts(out: &mut String, row: &TileRow)
    ensures
        final(out)@ == old(out)@ + tile_counts(*row),
{
    push_str(out, "\n           level ");
    push_decimal(out, row.level as u64);
    push_str(out, " · ");
    push_decimal(out, row.drawn as u64);
    push_str(out, " drawn · ");
    push_decimal(out, row.loading as u64);
    push_str(out, " loading");
    assert(out@ =~= old(out)@ + tile_counts(*row));
}

fn push_head(out: &mut String, input: &ReadoutInput)
    ensures
        final(out)@ == old(out)@ + head_text(*input),
{
    push_str(out, "TERRAMENTA\ncursor    ");
    match &input.cursor {
        Some(cursor) => push_str(out, cursor.as_str()),
        None => push_str(out, "—"),
    }
    push_str(out, "\naltitude  ");
    push_str(out, input.altitude.as_str());
    push_str(out, " km\nframe     ");
    push_str(out, input.frame_label.as_str());
    push_str(out, "\nsun over  ");
    push_str(out, input.subsolar.as_str());
    if !input.shaded {
        push_str(out, "  (unshaded)");
    }
    push_str(out, "\nclock     ");
    push_str(out, input.clock.as_str());
    if input.paused {
        push_str(out, "  (paused)");
    }
    assert(out@ =~= old(out)@ + head_text(*input));
}

fn push_imagery(out: &mut String, imagery: &Option<TileRow>)
    ensures
        final(out)@ == old(out)@ + imagery_text(*imagery),
{
    match imagery {
        Some(row) => {
            push_str(out, row.label.as_str());
            push_tile_counts(out, row);
            assert(out@ =~= old(out)@ + imagery_text(*imagery));
        },
        None => push_str(out, "off"),
    }
}

fn push_vectors(out: &mut String, vectors: &Option<(TileRow, usize)>)
    ensures
        final(out)@ == old(out)@ + vectors_text(*vectors),
{
    match vectors {
        Some((row, features)) => {
            push_str(out, row.label.as_str());
            push_tile_counts(out, row);
            push_str(out, " · ");
            push_decimal(out, *features as u64);
            push_str(out, " features");
            assert(out@ =~= old(out)@ + vectors_text(*vectors));
        },
        None => push_str(out, "off"),
    }
}

fn push_overlays(out: &mut String, overlays: (usize, usize, bool))
    ensures
        final(out)@ == old(out)@ + overlays_text(overlays),
{
    let (drawn, total, enabled) = overlays;
    if total != 0 {
        push_str(out, "\noverlays  ");
        push_decimal(out, drawn as u64);
        push_str(out, " of ");
        push_decimal(out, total as u64);
        push_str(out, " drawn");
        if !enabled {
            push_str(out, "  (off)");
        }
    }
    assert(out@ =~= old(out)@ + overlays_text(overlays));
}

fn push_picked(out: &mut String, pinned: &Option<PickedFeature>, hovered: &Option<PickedFeature>)
    ensures
        final(out)@ == old(out)@ + picked_text(*pinned, *hovered),
{
    let picked = match pinned {
        Some(feature) => Some(feature),
        None => match hovered {
            Some(feature) => Some(feature),
            None => None,
        },
    };
    match picked {
        Some(feature) => {
            push_str(out, "\npicked    ");
            push_str(out, feature.label.as_str());
            push_str(out, " · ");
            match &feature.id {
                Some(id) => push_str(out, id.as_str()),
                None => {
                    push_str(out, "#");
                    push_decimal(out, feature.index as u64);
                },
            }
        },
        None => {},
    }
    assert(out@ =~= old(out)@ + picked_text(*pinned, *hovered));
}

/// The readout's text, from what it shows.
pub fn format_readout(input: &ReadoutInput) -> (text: String)
    ensures
        text@ == readout_text(*input),
{
    let mut text = String::new();
    push_head(&mut text, input);
    push_str(&mut text, "\nimagery   ");
    push_imagery(&mut text, &input.imagery);
    push_str(&mut text, "\nvectors   ");
    push_vectors(&mut text, &input.vectors);
    push_overlays(&mut text, input.overlays);
    push_picked(&mut text, &input.pinned, &input.hovered);
    assert(text@ =~= readout_text(*input));
    text
}

} // verus!

//! Satellite ephemeris layers: which are up, what each holds, and which of its
//! objects are drawn and trailed.
//!
//! An ephemeris layer is one OMM catalogue, put up under an embedder's id and
//! given a *slot* that is never reused. Several layers can be up at once. Each
//! layer draws at most [`MAX_TRACKED`] objects and trails at most
//! [`MAX_TRAILED`] of those, in catalogue order; the budgets bite when a
//! selection is resolved, so that what an interface is told is selected is
//! what is actually drawn.
//!
//! Objects are named by catalogue number rather than by row, because a
//! refetched catalogue is renumbered: a pin or a selection survives a refresh,
//! and is quietly nothing while the object is missing from what the layer holds.
use vstd::prelude::*;

use crate::idset::{add_id, empty_ids, holds_id, ids_from, same_ids};
use std::collections::BTreeSet;
use crate::omm::{Catalogue, first_index_of};
use crate::fetch::{spec_asset_path, SlotUrls};
use crate::text::{push_str, same_text};

verus! {

/// The most objects one layer propagates and draws a marker for.
pub const MAX_TRACKED: usize = 600;

/// The most objects one layer draws a trail for.
pub const MAX_TRAILED: usize = 64;

/// The total trail samples one layer may spend, divided among whatever is
/// trailed.
pub const MAX_TRAIL_POINTS: usize = 4096;

/// The fewest samples a trail is drawn with.
pub const MIN_TRAIL_SAMPLES: u32 = 16;

/// The most samples one trail may be asked for, however the budget falls.
pub const MAX_TRAIL_SAMPLES: u32 = 512;

// ---------------------------------------------------------------------------
// Names
// ---------------------------------------------------------------------------

/// What an arc is a picture of: where the satellite passed over the ground,
/// or the orbit itself as it stands now.
#[derive(Debug, Clone, Copy, PartialEq, Eq, Structural)]
pub enum TrailPath {
    GroundTrack,
    Orbit,
}

impl TrailPath {
    pub open spec fn spec_id(self) -> Seq<char> {
        match self {
            TrailPath::GroundTrack => "track"@,
            TrailPath::Orbit => "orbit"@,
        }
    }

    pub fn id(self) -> (id: &'static str)
        ensures
            id@ == self.spec_id(),
    {
        match self {
            TrailPath::GroundTrack => "track",
            TrailPath::Orbit => "orbit",
        }
    }

    /// Parses [`TrailPath::id`] back, for a path named by an embedder.
    pub fn from_id(id: &str) -> (path: Option<TrailPath>)
        ensures
            path == (if id@ == "track"@ {
                Some(TrailPath::GroundTrack)
            } else if id@ == "orbit"@ {
                Some(TrailPath::Orbit)
            } else {
                None
            }),
    {
        if same_text(id, "track") {
            Some(TrailPath::GroundTrack)
        } else if same_text(id, "orbit") {
            Some(TrailPath::Orbit)
        } else {
            None
        }
    }

    /// A ground track, because it is the one of the two that an Earth-fixed
    /// frame alone can show.
    pub fn default() -> (path: TrailPath)
        ensures
            path == TrailPath::GroundTrack,
    {
        TrailPath::GroundTrack
    }
}

/// Each trail path is named by an id that reads back as that path.
pub proof fn trail_path_ids_round_trip(path: TrailPath)
    ensures
        (if path.spec_id() == "track"@ {
            Some(TrailPath::GroundTrack)
        } else if path.spec_id() == "orbit"@ {
            Some(TrailPath::Orbit)
        } else {
            None
        }) == Some(path),
{
    reveal_strlit("track");
    reveal_strlit("orbit");
    assert("track"@ != "orbit"@) by {
        assert("track"@[0] != "orbit"@[0]);
    }
}

/// How a layer's data is doing.
pub enum EphemerisStatus {
    Loading,
    Ready,
    /// Unreachable, not a catalogue, or refused by the browser for want of CORS.
    Failed(String),
}

/// A status as the plain values it holds.
pub enum StatusView {
    Loading,
    Ready,
    Failed(Seq<char>),
}

impl EphemerisStatus {
    pub open spec fn view(&self) -> StatusView {
        match self {
            EphemerisStatus::Loading => StatusView::Loading,
            EphemerisStatus::Ready => StatusView::Ready,
            EphemerisStatus::Failed(message) => StatusView::Failed(message@),
        }
    }

    pub fn id(&self) -> (id: &'static str)
        ensures
            id@ == match self {
                EphemerisStatus::Loading => "loading"@,
                EphemerisStatus::Ready => "ready"@,
                EphemerisStatus::Failed(_) => "failed"@,
            },
    {
        match self {
            EphemerisStatus::Loading => "loading",
            EphemerisStatus::Ready => "ready",
            EphemerisStatus::Failed(_) => "failed",
        }
    }

    pub fn error(&self) -> (error: Option<&str>)
        ensures
            match self {
                EphemerisStatus::Failed(message) => error is Some && error->0@ == message@,
                _ => error is None,
            },
    {
        match self {
            EphemerisStatus::Failed(message) => Some(message.as_str()),
            _ => None,
        }
    }

    fn same_as(&self, other: &EphemerisStatus) -> (same: bool)
        ensures
            same == (self@ == other@),
    {
        match (self, other) {
            (EphemerisStatus::Loading, EphemerisStatus::Loading) => true,
            (EphemerisStatus::Ready, EphemerisStatus::Ready) => true,
            (EphemerisStatus::Failed(a), EphemerisStatus::Failed(b)) => same_text(a.as_str(), b.as_str()),
            _ => false,
        }
    }
}

/// Which objects of a catalogue a layer is asked for, by catalogue number.
pub enum Selection {
    /// Everything the document held, down to [`MAX_TRACKED`].
    All,
    /// Only these, and nothing for a number the document did not hold.
    Only(BTreeSet<u64>),
}

/// A selection as the plain values it holds.
pub enum SelectionView {
    All,
    Only(Set<u64>),
}

impl SelectionView {
    pub open spec fn wants(self, norad_id: u64) -> bool {
        match self {
            SelectionView::All => true,
            SelectionView::Only(ids) => ids.contains(norad_id),
        }
    }
}

impl Selection {
    pub open spec fn view(&self) -> SelectionView {
        match self {
            Selection::All => SelectionView::All,
            Selection::Only(ids) => SelectionView::Only(ids@),
        }
    }

    /// Builds a selection from whatever an embedder listed.
    pub fn only(ids: &[u64]) -> (selection: Selection)
        ensures
            selection@ == SelectionView::Only(ids@.to_set()),
    {
        Selection::Only(ids_from(ids))
    }

    pub fn wants(&self, norad_id: u64) -> (wanted: bool)
        ensures
            wanted == self@.wants(norad_id),
    {
        match self {
            Selection::All => true,
            Selection::Only(ids) => holds_id(ids, norad_id),
        }
    }

    fn same_as(&self, other: &Selection) -> (same: bool)
        ensures
            same == (self@ == other@),
    {
        match (self, other) {
            (Selection::All, Selection::All) => true,
            (Selection::Only(a), Selection::Only(b)) => same_ids(a, b),
            _ => false,
        }
    }
}

/// Where a layer's document comes from.
pub enum LayerSource {
    /// Fetched, and refetched on request.
    Url(String),
    /// Handed over as text; never fetched.
    Text(String),
}

impl LayerSource {
    /// `"url"` or `"text"`, as an interface is told.
    pub fn id(&self) -> (id: &'static str)
        ensures
            id@ == match self {
                LayerSource::Url(_) => "url"@,
                LayerSource::Text(_) => "text"@,
            },
    {
        match self {
            LayerSource::Url(_) => "url",
            LayerSource::Text(_) => "text",
        }
    }

    /// The URL a fetched layer comes from; nothing for text.
    pub fn url(&self) -> (url: Option<&str>)
        ensures
            match self {
                LayerSource::Url(u) => url is Some && url->0@ == u@,
                LayerSource::Text(_) => url is None,
            },
    {
        match self {
            LayerSource::Url(u) => Some(u.as_str()),
            LayerSource::Text(_) => None,
        }
    }
}

/// One object of one layer, named by slot and catalogue number.
#[derive(Debug, Clone, Copy, PartialEq, Eq, Structural)]
pub struct SatellitePick {
    pub slot: u64,
    pub norad_id: u64,
}

/// What an embedder states to put a layer up. The layer's paint, trail window
/// and refresh period are the caller's to keep.
pub struct EphemerisRequest {
    /// The embedder's name for the layer. Adding a second under an id already
    /// in use replaces the first.
    pub id: String,
    /// What to call it in an interface. The id, if this is empty.
    pub label: String,
    pub source: LayerSource,
    /// Whether trails are drawn at all for this layer.
    pub trails: bool,
    /// Which objects to draw.
    pub selection: Selection,
    pub visible: bool,
}

impl EphemerisRequest {
    /// A layer from a URL, with everything else defaulted: labelled by its
    /// id, trailed, drawing everything, visible.
    pub fn from_url(id: &str, url: &str) -> (request: EphemerisRequest)
        ensures
            request.id@ == id@,
            request.label@.len() == 0,
            request.source matches LayerSource::Url(u) && u@ == url@,
            request.trails,
            request.selection@ == SelectionView::All,
            request.visible,
    {
        let mut id_text = String::new();
        push_str(&mut id_text, id);
        let mut url_text = String::new();
        push_str(&mut url_text, url);
        EphemerisRequest {
            id: id_text,
            label: String::new(),
            source: LayerSource::Url(url_text),
            trails: true,
            selection: Selection::All,
            visible: true,
        }
    }
}

// ---------------------------------------------------------------------------
// Budgets
// ---------------------------------------------------------------------------

pub open spec fn count_true(s: Seq<bool>) -> nat
    decreases s.len(),
{
    if s.len() == 0 {
        0
    } else {
        count_true(s.drop_last()) + if s.last() {
            1nat
        } else {
            0nat
        }
    }
}

/// How many objects are both drawn and trailed.
pub open spec fn count_both(a: Seq<bool>, b: Seq<bool>) -> nat
    decreases a.len(),
{
    if a.len() == 0 || b.len() == 0 {
        0
    } else {
        count_both(a.drop_last(), b.drop_last()) + if a.last() && b.last() {
            1nat
        } else {
            0nat
        }
    }
}

/// Which objects are drawn and which trailed once a selection is applied to a
/// catalogue: each wanted object in catalogue order while fewer than
/// [`MAX_TRACKED`] are drawn, and each of those trailed while fewer than
/// [`MAX_TRAILED`] are.
pub open spec fn resolved(ids: Seq<u64>, requested: SelectionView) -> (Seq<bool>, Seq<bool>)
    decreases ids.len(),
{
    if ids.len() == 0 {
        (Seq::empty(), Seq::empty())
    } else {
        let (selected, trailed) = resolved(ids.drop_last(), requested);
        let wanted = requested.wants(ids.last()) && count_true(selected) < MAX_TRACKED;
        let trail = wanted && count_true(trailed) < MAX_TRAILED;
        (selected.push(wanted), trailed.push(trail))
    }
}

/// The catalogue numbers of the drawn objects.
pub open spec fn drawn_ids(ids: Seq<u64>, selected: Seq<bool>) -> Set<u64> {
    Set::new(|x: u64| exists|i: int| 0 <= i < ids.len() && i < selected.len() && selected[i] && ids[i] == x)
}

proof fn lemma_count_true_update(s: Seq<bool>, i: int, v: bool)
    requires
        0 <= i < s.len(),
    ensures
        count_true(s.update(i, v)) == count_true(s) - (if s[i] {
            1int
        } else {
            0int
        }) + (if v {
            1int
        } else {
            0int
        }),
    decreases s.len(),
{
    let t = s.update(i, v);
    if i == s.len() - 1 {
        assert(t.drop_last() =~= s.drop_last());
    } else {
        lemma_count_true_update(s.drop_last(), i, v);
        assert(t.drop_last() =~= s.drop_last().update(i, v));
    }
}

proof fn lemma_count_both_update_second(a: Seq<bool>, b: Seq<bool>, i: int, v: bool)
    requires
        a.len() == b.len(),
        0 <= i < b.len(),
    ensures
        count_both(a, b.update(i, v)) == count_both(a, b) - (if a[i] && b[i] {
            1int
        } else {
            0int
        }) + (if a[i] && v {
            1int
        } else {
            0int
        }),
    decreases a.len(),
{
    let t = b.update(i, v);
    if i == b.len() - 1 {
        assert(t.drop_last() =~= b.drop_last());
    } else {
        lemma_count_both_update_second(a.drop_last(), b.drop_last(), i, v);
        assert(t.drop_last() =~= b.drop_last().update(i, v));
    }
}


proof fn lemma_count_both_le(a: Seq<bool>, b: Seq<bool>)
    ensures
        count_both(a, b) <= count_true(b),
        count_both(a, b) <= count_true(a),
    decreases a.len(),
{
    if a.len() > 0 && b.len() > 0 {
        lemma_count_both_le(a.drop_last(), b.drop_last());
        lemma_count_true_drop_many(a);
        lemma_count_true_drop_many(b);
    }
}

proof fn lemma_count_true_drop_many(s: Seq<bool>)
    ensures
        s.len() > 0 ==> count_true(s.drop_last()) <= count_true(s),
{
}


/// Resolving a selection stays within both budgets, with one flag per object.
pub proof fn resolved_within_budgets(ids: Seq<u64>, requested: SelectionView)
    ensures
        resolved(ids, requested).0.len() == ids.len(),
        resolved(ids, requested).1.len() == ids.len(),
        count_true(resolved(ids, requested).0) <= MAX_TRACKED,
        count_true(resolved(ids, requested).1) <= MAX_TRAILED,
        count_both(resolved(ids, requested).0, resolved(ids, requested).1) <= MAX_TRAILED,
        forall|i: int|
            0 <= i < ids.len() ==> (#[trigger] resolved(ids, requested).1[i]) ==> resolved(
                ids,
                requested,
            ).0[i],
        forall|i: int|
            0 <= i < ids.len() && #[trigger] resolved(ids, requested).0[i] ==> requested.wants(
                ids[i],
            ),
    decreases ids.len(),
{
    if ids.len() > 0 {
        resolved_within_budgets(ids.drop_last(), requested);
        let (s, t) = resolved(ids, requested);
        let (s0, t0) = resolved(ids.drop_last(), requested);
        assert(s.drop_last() =~= s0);
        assert(t.drop_last() =~= t0);
        lemma_count_both_le(s, t);
        assert forall|i: int| 0 <= i < ids.len() && #[trigger] s[i] implies requested.wants(ids[i]) by {
            if i < ids.len() - 1 {
                assert(s[i] == s0[i]);
                assert(ids.drop_last()[i] == ids[i]);
            }
        }
        assert forall|i: int| 0 <= i < ids.len() && #[trigger] t[i] implies s[i] by {
            if i < ids.len() - 1 {
                assert(s[i] == s0[i]);
                assert(t[i] == t0[i]);
            }
        }
    }
}

/// How finely one trail is drawn when `trailing` objects share the layer's
/// sample budget: what the window asks for, but no more than an even share of
/// [`MAX_TRAIL_POINTS`], and never outside
/// `MIN_TRAIL_SAMPLES..=MAX_TRAIL_SAMPLES`.
pub open spec fn spec_trail_samples(requested: u32, trailing: usize) -> u32 {
    let share = (MAX_TRAIL_POINTS / trailing) as u32;
    let wanted = if requested < share {
        requested
    } else {
        share
    };
    if wanted < MIN_TRAIL_SAMPLES {
        MIN_TRAIL_SAMPLES
    } else if wanted > MAX_TRAIL_SAMPLES {
        MAX_TRAIL_SAMPLES
    } else {
        wanted
    }
}

pub fn trail_samples(requested: u32, trailing: usize) -> (samples: u32)
    requires
        trailing > 0,
    ensures
        samples == spec_trail_samples(requested, trailing),
        MIN_TRAIL_SAMPLES <= samples <= MAX_TRAIL_SAMPLES,
{
    let share = (MAX_TRAIL_POINTS / trailing) as u32;
    let wanted = if requested < share {
        requested
    } else {
        share
    };
    if wanted < MIN_TRAIL_SAMPLES {
        MIN_TRAIL_SAMPLES
    } else if wanted > MAX_TRAIL_SAMPLES {
        MAX_TRAIL_SAMPLES
    } else {
        wanted
    }
}

/// Brings a requested sample count inside `MIN_TRAIL_SAMPLES..=MAX_TRAIL_SAMPLES`.
pub fn clamp_samples(samples: u32) -> (clamped: u32)
    ensures
        clamped == (if samples < MIN_TRAIL_SAMPLES {
            MIN_TRAIL_SAMPLES
        } else if samples > MAX_TRAIL_SAMPLES {
            MAX_TRAIL_SAMPLES
        } else {
            samples
        }),
{
    if samples < MIN_TRAIL_SAMPLES {
        MIN_TRAIL_SAMPLES
    } else if samples > MAX_TRAIL_SAMPLES {
        MAX_TRAIL_SAMPLES
    } else {
        samples
    }
}

// ---------------------------------------------------------------------------
// Layers
// ---------------------------------------------------------------------------

/// One live ephemeris layer.
pub struct EphemerisLayer {
    pub id: String,
    pub label: String,
    pub source: LayerSource,
    /// Identifies this layer to the asset reader. Never reused.
    pub slot: u64,
    /// Bumped by every refetch, and part of the asset path.
    pub generation: u32,
    /// Whether a fetch has ever been started for this layer.
    pub fetched: bool,
    pub trails: bool,
    pub visible: bool,
    pub status: EphemerisStatus,
    /// The catalogue, once a document has landed.
    pub catalogue: Option<Catalogue>,
    /// A document waiting to be adopted.
    pub pending: Option<Catalogue>,
    /// What an embedder asked for, kept so that a refresh re-applies it.
    pub requested: Selection,
    /// Whether each object of the catalogue is drawn, and whether it is
    /// trailed. Parallel to the catalogue.
    pub selected: Vec<bool>,
    pub trailed: Vec<bool>,
    pub wants_fetch: bool,
    /// Set when something other than the clock moved the trails.
    pub wants_trails: bool,
    /// Bumped by anything an interface has a control for.
    pub revision: u64,
}

pub open spec fn next_revision(r: u64) -> u64 {
    if r == u64::MAX {
        0
    } else {
        (r + 1) as u64
    }
}

fn bump(r: u64) -> (next: u64)
    ensures
        next == next_revision(r),
{
    if r == u64::MAX {
        0
    } else {
        r + 1
    }
}

impl EphemerisLayer {
    pub open spec fn cat_ids(&self) -> Seq<u64> {
        match self.catalogue {
            Some(c) => c.ids(),
            None => Seq::empty(),
        }
    }

    /// The layer's invariant: one flag per object, and never more than [`MAX_TRACKED`] objects drawn.
    pub open spec fn wf(&self) -> bool {
        &&& self.selected@.len() == self.cat_ids().len()
        &&& self.trailed@.len() == self.cat_ids().len()
        &&& count_true(self.selected@) <= MAX_TRACKED
    }

    pub open spec fn is_url(&self) -> bool {
        self.source is Url
    }

    /// How many objects are drawn, and how many of those are trailed.
    pub fn counts(&self) -> (counts: (usize, usize))
        requires
            self.wf(),
        ensures
            counts.0 == count_true(self.selected@),
            counts.1 == count_both(self.selected@, self.trailed@),
    {
        let mut drawing: usize = 0;
        let mut trailing: usize = 0;
        let mut i: usize = 0;
        while i < self.selected.len()
            invariant
                self.wf(),
                i <= self.selected@.len(),
                drawing == count_true(self.selected@.take(i as int)),
                trailing == count_both(self.selected@.take(i as int), self.trailed@.take(i as int)),
            decreases self.selected@.len() - i,
        {
            proof {
                let s = self.selected@;
                let t = self.trailed@;
                assert(s.take(i + 1).drop_last() =~= s.take(i as int));
                assert(t.take(i + 1).drop_last() =~= t.take(i as int));
                lemma_count_true_prefix_le(s, i as int + 1);
                lemma_count_both_le(s.take(i + 1), t.take(i + 1));
            }
            if self.selected[i] {
                drawing = drawing + 1;
                if self.trailed[i] {
                    trailing = trailing + 1;
                }
            }
            i = i + 1;
        }
        assert(self.selected@.take(self.selected@.len() as int) =~= self.selected@);
        assert(self.trailed@.take(self.trailed@.len() as int) =~= self.trailed@);
        (drawing, trailing)
    }

    /// Whether the layer keeps its invariant, for a caller that cannot carry
    /// the proof along.
    pub fn is_well_formed(&self) -> (ok: bool)
        ensures
            ok == self.wf(),
    {
        let n: usize = match &self.catalogue {
            Some(catalogue) => catalogue.len(),
            None => 0,
        };
        if self.selected.len() != n || self.trailed.len() != n {
            return false;
        }
        let mut drawing: usize = 0;
        let mut i: usize = 0;
        while i < self.selected.len()
            invariant
                i <= self.selected@.len(),
                drawing <= i,
                drawing == count_true(self.selected@.take(i as int)),
            decreases self.selected@.len() - i,
        {
            assert(self.selected@.take(i + 1).drop_last() =~= self.selected@.take(i as int));
            if self.selected[i] {
                drawing = drawing + 1;
            }
            i = i + 1;
        }
        assert(self.selected@.take(self.selected@.len() as int) =~= self.selected@);
        drawing <= MAX_TRACKED
    }

    /// Applies the requested selection to whatever catalogue is loaded.
    fn resolve_selection(&mut self)
        ensures
            final(self).wf(),
            final(self).selected@ == resolved(old(self).cat_ids(), old(self).requested@).0,
            final(self).trailed@ == resolved(old(self).cat_ids(), old(self).requested@).1,
            final(self).id == old(self).id,
            final(self).label == old(self).label,
            final(self).source == old(self).source,
            final(self).slot == old(self).slot,
            final(self).generation == old(self).generation,
            final(self).fetched == old(self).fetched,
            final(self).trails == old(self).trails,
            final(self).visible == old(self).visible,
            final(self).status == old(self).status,
            final(self).catalogue == old(self).catalogue,
            final(self).pending == old(self).pending,
            final(self).requested == old(self).requested,
            final(self).wants_fetch == old(self).wants_fetch,
            final(self).wants_trails == old(self).wants_trails,
            final(self).revision == old(self).revision,
    {
        let ghost ids = self.cat_ids();
        let mut selected: Vec<bool> = Vec::new();
        let mut trailed: Vec<bool> = Vec::new();
        let n = match &self.catalogue {
            Some(c) => c.len(),
            None => 0,
        };
        let mut drawing: usize = 0;
        let mut trailing: usize = 0;
        let mut i: usize = 0;
        while i < n
            invariant
                n == ids.len(),
                ids == self.cat_ids(),
                i <= n,
                (selected@, trailed@) == resolved(ids.take(i as int), self.requested@),
                drawing == count_true(selected@),
                trailing == count_true(trailed@),
                drawing <= MAX_TRACKED,
                trailing <= MAX_TRAILED,
            decreases n - i,
        {
            let norad_id = match &self.catalogue {
                Some(c) => c.satellites[i].norad_id,
                None => 0,
            };
            proof {
                assert(ids.take(i + 1).drop_last() =~= ids.take(i as int));
                assert(ids.take(i + 1).last() == ids[i as int]);
            }
            let wanted = self.requested.wants(norad_id) && drawing < MAX_TRACKED;
            if wanted {
                drawing = drawing + 1;
            }
            let trail = wanted && trailing < MAX_TRAILED;
            if trail {
                trailing = trailing + 1;
            }
            let ghost (s0, t0) = (selected@, trailed@);
            selected.push(wanted);
            trailed.push(trail);
            proof {
                assert(selected@.drop_last() =~= s0);
                assert(trailed@.drop_last() =~= t0);
            }
            i = i + 1;
        }
        assert(ids.take(n as int) =~= ids);
        proof {
            resolved_within_budgets(ids, self.requested@);
        }
        self.selected = selected;
        self.trailed = trailed;
    }

    /// The selection this layer is currently drawing, written out object by
    /// object — what a per-object toggle leaves behind so that a refresh
    /// re-applies the same choice to the new document.
    fn explicit(&self) -> (selection: Selection)
        requires
            self.wf(),
        ensures
            self.catalogue is None ==> selection@ == SelectionView::All,
            self.catalogue is Some ==> selection@ == SelectionView::Only(
                drawn_ids(self.cat_ids(), self.selected@),
            ),
    {
        match &self.catalogue {
            None => Selection::All,
            Some(catalogue) => {
                let mut ids = empty_ids();
                let mut i: usize = 0;
                while i < catalogue.satellites.len()
                    invariant
                        self.wf(),
                        self.catalogue == Some(*catalogue),
                        i <= catalogue.satellites@.len(),
                        ids@ == drawn_ids(self.cat_ids().take(i as int), self.selected@),
                    decreases catalogue.satellites@.len() - i,
                {
                    let ghost before = ids@;
                    if self.selected[i] {
                        add_id(&mut ids, catalogue.satellites[i].norad_id);
                    }
                    proof {
                        let all = self.cat_ids();
                        assert forall|x: u64| #[trigger] drawn_ids(all.take(i + 1), self.selected@).contains(x)
                            <==> ids@.contains(x) by {
                            if drawn_ids(all.take(i + 1), self.selected@).contains(x) {
                                let k = choose|k: int|
                                    0 <= k < all.take(i + 1).len() && k < self.selected@.len()
                                        && self.selected@[k] && all.take(i + 1)[k] == x;
                                if k < i {
                                    assert(all.take(i as int)[k] == x);
                                    assert(drawn_ids(all.take(i as int), self.selected@).contains(x));
                                }
                            }
                            if before.contains(x) {
                                let k = choose|k: int|
                                    0 <= k < all.take(i as int).len() && k < self.selected@.len()
                                        && self.selected@[k] && all.take(i as int)[k] == x;
                                assert(all.take(i + 1)[k] == x);
                            }
                            if self.selected@[i as int] && x == all[i as int] {
                                assert(all.take(i + 1)[i as int] == x);
                            }
                        }
                        assert(drawn_ids(all.take(i + 1), self.selected@) =~= ids@);
                    }
                    i = i + 1;
                }
                assert(self.cat_ids().take(catalogue.satellites@.len() as int) =~= self.cat_ids());
                Selection::Only(ids)
            },
        }
    }
}

proof fn lemma_count_true_prefix_le(s: Seq<bool>, i: int)
    requires
        0 <= i <= s.len(),
    ensures
        count_true(s.take(i)) <= count_true(s),
    decreases s.len(),
{
    if i < s.len() {
        lemma_count_true_prefix_le(s.drop_last(), i);
        assert(s.drop_last().take(i) =~= s.take(i));
    } else {
        assert(s.take(i) =~= s);
    }
}

} // verus!

verus! {

// ---------------------------------------------------------------------------
// The layers an embedder drives
// ---------------------------------------------------------------------------

/// Every ephemeris layer, and the master switch over all of them.
pub struct EphemerisSettings {
    /// Whether ephemerides are drawn at all.
    enabled: bool,
    /// Whether the cursor picks satellites at all.
    picking: bool,
    /// What the cursor is over now.
    hovered: Option<SatellitePick>,
    /// What an embedder asked to keep, whatever the cursor does afterwards.
    pinned: Option<SatellitePick>,
    layers: Vec<EphemerisLayer>,
    next_slot: u64,
    revision: u64,
    /// The URL each fetched layer's slot is fetched from, shared with
    /// whatever fetches documents.
    urls: SlotUrls,
}

/// Where the layer with this id is, if one is up.
pub open spec fn find_layer(layers: Seq<EphemerisLayer>, id: Seq<char>) -> Option<int> {
    if exists|i: int| 0 <= i < layers.len() && layers[i].id@ == id {
        Some(choose|i: int| 0 <= i < layers.len() && layers[i].id@ == id)
    } else {
        None
    }
}

/// Where the layer holding this slot is, if one is up.
pub open spec fn find_slot(layers: Seq<EphemerisLayer>, slot: u64) -> Option<int> {
    if exists|i: int| 0 <= i < layers.len() && layers[i].slot == slot {
        Some(choose|i: int| 0 <= i < layers.len() && layers[i].slot == slot)
    } else {
        None
    }
}

/// A pick that names a layer which is up.
pub open spec fn pick_ok(layers: Seq<EphemerisLayer>, pick: Option<SatellitePick>) -> bool {
    match pick {
        Some(p) => find_slot(layers, p.slot) is Some,
        None => true,
    }
}

/// What a pick becomes once the layer in `slot` is gone.
pub open spec fn forget(pick: Option<SatellitePick>, slot: u64) -> Option<SatellitePick> {
    match pick {
        Some(p) => if p.slot == slot {
            None
        } else {
            pick
        },
        None => None,
    }
}

/// What one layer becomes when an object is switched on or off: nothing but
/// its revision moves when there is no catalogue, no such object, nothing to
/// change, or no room to draw one more; otherwise the object's flag moves, a
/// newly drawn object is given a trail if there is room for one, and the
/// requested selection becomes the objects now drawn, so a refresh keeps the
/// choice.
pub open spec fn select_effect(layer: EphemerisLayer, norad_id: u64, on: bool) -> Option<
    (Seq<bool>, Seq<bool>),
> {
    match first_index_of(layer.cat_ids(), norad_id) {
        None => None,
        Some(i) => if layer.catalogue is None || layer.selected@[i] == on || (on && count_true(
            layer.selected@,
        ) >= MAX_TRACKED) {
            None
        } else {
            let selected = layer.selected@.update(i, on);
            let trailed = if on && !layer.trailed@[i] && count_both(selected, layer.trailed@)
                < MAX_TRAILED {
                layer.trailed@.update(i, true)
            } else {
                layer.trailed@
            };
            Some((selected, trailed))
        },
    }
}

/// What trailing one object, or not, does to a layer's trail flags: nothing
/// when there is no catalogue, no such object, nothing to change, or no room
/// for one more trail.
pub open spec fn trail_effect(layer: EphemerisLayer, norad_id: u64, on: bool) -> Option<
    Seq<bool>,
> {
    match first_index_of(layer.cat_ids(), norad_id) {
        None => None,
        Some(i) => if layer.catalogue is None || layer.trailed@[i] == on || (on && count_both(
            layer.selected@,
            layer.trailed@,
        ) >= MAX_TRAILED) {
            None
        } else {
            Some(layer.trailed@.update(i, on))
        },
    }
}

/// What the cursor is over, given a candidate from the hit test.
pub open spec fn hover_result(
    layers: Seq<EphemerisLayer>,
    enabled: bool,
    picking: bool,
    candidate: Option<SatellitePick>,
) -> Option<SatellitePick> {
    if enabled && picking && pick_ok(layers, candidate) {
        candidate
    } else {
        None
    }
}

/// The cursor hovers only what is drawn and pickable: while ephemerides are
/// off, or picking is, nothing is hovered whatever the candidate. Otherwise
/// the hover is the candidate exactly when it names a layer that is up, and
/// nothing when it does not.
pub proof fn hovering_reaches_only_what_is_drawn(
    layers: Seq<EphemerisLayer>,
    enabled: bool,
    picking: bool,
    candidate: Option<SatellitePick>,
)
    ensures
        !enabled ==> hover_result(layers, enabled, picking, candidate) is None,
        !picking ==> hover_result(layers, enabled, picking, candidate) is None,
        hover_result(layers, enabled, picking, candidate) matches Some(p) ==> {
            &&& candidate == Some(p)
            &&& exists|i: int| 0 <= i < layers.len() && layers[i].slot == p.slot
        },
        enabled && picking && (candidate matches Some(p) && exists|i: int|
            0 <= i < layers.len() && layers[i].slot == p.slot) ==> hover_result(
            layers,
            enabled,
            picking,
            candidate,
        ) == candidate,
{
}

/// Every layer well formed, ids and slots unique, and every slot handed out
/// below `next_slot`.
pub open spec fn layers_ok(layers: Seq<EphemerisLayer>, next_slot: u64) -> bool {
    &&& forall|i: int| 0 <= i < layers.len() ==> (#[trigger] layers[i]).wf()
    &&& forall|i: int, j: int| 0 <= i < j < layers.len() ==> layers[i].id@ != layers[j].id@
    &&& forall|i: int, j: int| 0 <= i < j < layers.len() ==> layers[i].slot != layers[j].slot
    &&& forall|i: int| 0 <= i < layers.len() ==> (#[trigger] layers[i]).slot < next_slot
}

/// Replacing one layer by a well-formed one under the same id and slot keeps
/// the layers, and every pick, valid.
proof fn lemma_replace_layer(
    layers: Seq<EphemerisLayer>,
    next_slot: u64,
    k: int,
    layer: EphemerisLayer,
    pinned: Option<SatellitePick>,
    hovered: Option<SatellitePick>,
)
    requires
        layers_ok(layers, next_slot),
        pick_ok(layers, pinned),
        pick_ok(layers, hovered),
        0 <= k < layers.len(),
        layer.wf(),
        layer.id@ == layers[k].id@,
        layer.slot == layers[k].slot,
    ensures
        layers_ok(layers.update(k, layer), next_slot),
        pick_ok(layers.update(k, layer), pinned),
        pick_ok(layers.update(k, layer), hovered),
{
    let updated = layers.update(k, layer);
    assert forall|i: int, j: int| 0 <= i < j < updated.len() implies updated[i].id@
        != updated[j].id@ && updated[i].slot != updated[j].slot by {
        assert(layers[i].id@ != layers[j].id@);
    }
    if let Some(p) = pinned {
        let i = choose|i: int| 0 <= i < layers.len() && layers[i].slot == p.slot;
        assert(updated[i].slot == p.slot);
    }
    if let Some(p) = hovered {
        let i = choose|i: int| 0 <= i < layers.len() && layers[i].slot == p.slot;
        assert(updated[i].slot == p.slot);
    }
}

impl EphemerisSettings {
    pub closed spec fn layers(&self) -> Seq<EphemerisLayer> {
        self.layers@
    }

    pub closed spec fn spec_pinned(&self) -> Option<SatellitePick> {
        self.pinned
    }

    pub closed spec fn spec_hovered(&self) -> Option<SatellitePick> {
        self.hovered
    }

    pub closed spec fn spec_revision(&self) -> u64 {
        self.revision
    }

    pub closed spec fn spec_next_slot(&self) -> u64 {
        self.next_slot
    }

    /// The URL behind each slot that is fetched.
    pub closed spec fn spec_urls(&self) -> Map<u64, Seq<char>> {
        self.urls@
    }

    pub closed spec fn spec_enabled(&self) -> bool {
        self.enabled
    }

    pub closed spec fn spec_picking(&self) -> bool {
        self.picking
    }

    /// Every layer well formed, ids and slots unique, every slot handed out
    /// below the next one, and every pick naming a layer that is up.
    pub open spec fn wf(&self) -> bool {
        &&& layers_ok(self.layers(), self.spec_next_slot())
        &&& pick_ok(self.layers(), self.spec_pinned())
        &&& pick_ok(self.layers(), self.spec_hovered())
    }

    /// Nothing up, nothing picked.
    pub fn new(enabled: bool) -> (settings: EphemerisSettings)
        ensures
            settings.wf(),
            settings.spec_enabled() == enabled,
            settings.spec_picking(),
            settings.layers().len() == 0,
            settings.spec_pinned() is None,
            settings.spec_hovered() is None,
            settings.spec_revision() == 0,
            settings.spec_next_slot() == 0,
            settings.spec_urls() == Map::<u64, Seq<char>>::empty(),
    {
        EphemerisSettings {
            enabled,
            picking: true,
            hovered: None,
            pinned: None,
            layers: Vec::new(),
            next_slot: 0,
            revision: 0,
            urls: SlotUrls::new(),
        }
    }

    /// The URL behind each slot that is fetched, for the fetcher.
    pub fn slot_urls(&self) -> (urls: &SlotUrls)
        ensures
            urls@ == self.spec_urls(),
    {
        &self.urls
    }

    pub fn revision(&self) -> (revision: u64)
        ensures
            revision == self.spec_revision(),
    {
        self.revision
    }

    /// Whether another layer can be given a slot of its own.
    pub fn has_slot_left(&self) -> (left: bool)
        ensures
            left == (self.spec_next_slot() < u64::MAX),
    {
        self.next_slot < u64::MAX
    }

    /// The layers, in the order they were added.
    pub fn layer_list(&self) -> (layers: &Vec<EphemerisLayer>)
        ensures
            layers@ == self.layers(),
    {
        &self.layers
    }

    pub fn pinned(&self) -> (pick: Option<SatellitePick>)
        ensures
            pick == self.spec_pinned(),
    {
        self.pinned
    }

    pub fn hovered(&self) -> (pick: Option<SatellitePick>)
        ensures
            pick == self.spec_hovered(),
    {
        self.hovered
    }

    /// Whether ephemerides are drawn at all.
    pub fn enabled(&self) -> (enabled: bool)
        ensures
            enabled == self.spec_enabled(),
    {
        self.enabled
    }

    /// Whether the cursor picks satellites at all.
    pub fn picking(&self) -> (picking: bool)
        ensures
            picking == self.spec_picking(),
    {
        self.picking
    }

    /// Turns every layer on or off at once. Off, every layer stays loaded and
    /// simply stops being drawn.
    pub fn set_enabled(&mut self, enabled: bool)
        requires
            old(self).wf(),
        ensures
            final(self).spec_urls() == old(self).spec_urls(),
            Self::switched(*old(self), *final(self), enabled, old(self).spec_picking()),
    {
        self.enabled = enabled;
    }

    /// Whether the cursor picks satellites. Off, nothing is hovered; a pin
    /// already set stays set.
    pub fn set_picking(&mut self, picking: bool)
        requires
            old(self).wf(),
        ensures
            final(self).spec_urls() == old(self).spec_urls(),
            Self::switched(*old(self), *final(self), old(self).spec_enabled(), picking),
    {
        self.picking = picking;
    }

    /// The key binding's switch: every layer on or off at once.
    pub fn toggle_enabled(&mut self)
        requires
            old(self).wf(),
        ensures
            final(self).spec_urls() == old(self).spec_urls(),
            final(self).wf(),
            final(self).spec_enabled() == !old(self).spec_enabled(),
            final(self).spec_revision() == next_revision(old(self).spec_revision()),
            final(self).spec_picking() == old(self).spec_picking(),
            final(self).layers() == old(self).layers(),
            final(self).spec_pinned() == old(self).spec_pinned(),
            final(self).spec_hovered() == old(self).spec_hovered(),
            final(self).spec_next_slot() == old(self).spec_next_slot(),
    {
        self.enabled = !self.enabled;
        self.revision = bump(self.revision);
    }

    /// Records what the cursor is over now: nothing while ephemerides or
    /// picking are off, and nothing for a pick that names no layer. The
    /// revision moves only when the answer does.
    pub fn hover(&mut self, candidate: Option<SatellitePick>)
        requires
            old(self).wf(),
        ensures
            final(self).spec_urls() == old(self).spec_urls(),
            final(self).wf(),
            final(self).spec_hovered() == hover_result(old(self).layers(), old(self).spec_enabled(), old(self).spec_picking(), candidate),
            final(self).spec_revision() == if final(self).spec_hovered() == old(self).spec_hovered() {
                old(self).spec_revision()
            } else {
                next_revision(old(self).spec_revision())
            },
            final(self).spec_enabled() == old(self).spec_enabled(),
            final(self).spec_picking() == old(self).spec_picking(),
            final(self).layers() == old(self).layers(),
            final(self).spec_pinned() == old(self).spec_pinned(),
            final(self).spec_next_slot() == old(self).spec_next_slot(),
    {
        let hovered = if self.enabled && self.picking {
            match candidate {
                Some(pick) => match self.position_of_slot(pick.slot) {
                    Some(k) => {
                        proof {
                            assert(find_slot(self.layers(), pick.slot) is Some);
                        }
                        Some(pick)
                    },
                    None => None,
                },
                None => None,
            }
        } else {
            None
        };
        let same = match (hovered, self.hovered) {
            (Some(a), Some(b)) => a.slot == b.slot && a.norad_id == b.norad_id,
            (None, None) => true,
            _ => false,
        };
        if !same {
            self.hovered = hovered;
            self.revision = bump(self.revision);
        }
    }

    proof fn lemma_find(&self, id: Seq<char>, k: int)
        requires
            self.wf(),
            0 <= k < self.layers().len(),
            self.layers()[k].id@ == id,
        ensures
            find_layer(self.layers(), id) == Some(k),
    {
        let c = choose|i: int| 0 <= i < self.layers().len() && self.layers()[i].id@ == id;
        if c < k {
            assert(self.layers()[c].id@ != self.layers()[k].id@);
        }
        if c > k {
            assert(self.layers()[k].id@ != self.layers()[c].id@);
        }
    }

    proof fn lemma_find_slot(&self, slot: u64, k: int)
        requires
            self.wf(),
            0 <= k < self.layers().len(),
            self.layers()[k].slot == slot,
        ensures
            find_slot(self.layers(), slot) == Some(k),
    {
        let c = choose|i: int| 0 <= i < self.layers().len() && self.layers()[i].slot == slot;
        if c < k {
            assert(self.layers()[c].slot != self.layers()[k].slot);
        }
        if c > k {
            assert(self.layers()[k].slot != self.layers()[c].slot);
        }
    }

    /// Whether some layer holds this slot, whatever else holds.
    fn holds_slot(&self, slot: u64) -> (held: bool)
        ensures
            held == (find_slot(self.layers(), slot) is Some),
    {
        let mut i: usize = 0;
        while i < self.layers.len()
            invariant
                i <= self.layers@.len(),
                forall|j: int| 0 <= j < i ==> self.layers@[j].slot != slot,
            decreases self.layers@.len() - i,
        {
            if self.layers[i].slot == slot {
                assert(self.layers@[i as int].slot == slot);
                return true;
            }
            i = i + 1;
        }
        false
    }

    /// Whether a pick names a layer that is up, whatever else holds.
    fn pick_is_up(&self, pick: Option<SatellitePick>) -> (up: bool)
        ensures
            up == pick_ok(self.layers(), pick),
    {
        match pick {
            Some(p) => self.holds_slot(p.slot),
            None => true,
        }
    }

    /// Whether the settings keep their invariant, for a caller that cannot
    /// carry the proof along.
    pub fn is_well_formed(&self) -> (ok: bool)
        ensures
            ok == self.wf(),
    {
        let n = self.layers.len();
        let ghost layers = self.layers@;
        let mut i: usize = 0;
        while i < n
            invariant
                n == layers.len(),
                layers == self.layers@,
                i <= n,
                layers_ok(layers.take(i as int), self.next_slot),
            decreases n - i,
        {
            if !self.layers[i].is_well_formed() || self.layers[i].slot >= self.next_slot {
                assert(!layers_ok(layers, self.next_slot)) by {
                    assert(!layers[i as int].wf() || layers[i as int].slot >= self.next_slot);
                }
                return false;
            }
            let mut j: usize = 0;
            while j < i
                invariant
                    n == layers.len(),
                    layers == self.layers@,
                    i < n,
                    j <= i,
                    forall|k: int|
                        0 <= k < j ==> layers[k].id@ != layers[i as int].id@ && layers[k].slot
                            != layers[i as int].slot,
                decreases i - j,
            {
                if same_text(self.layers[j].id.as_str(), self.layers[i].id.as_str())
                    || self.layers[j].slot == self.layers[i].slot {
                    assert(!layers_ok(layers, self.next_slot)) by {
                        assert(layers[j as int].id@ == layers[i as int].id@ || layers[j as int].slot
                            == layers[i as int].slot);
                    }
                    return false;
                }
                j = j + 1;
            }
            assert(layers_ok(layers.take(i + 1), self.next_slot)) by {
                let before = layers.take(i as int);
                let after = layers.take(i + 1);
                assert forall|a: int| 0 <= a < after.len() implies (#[trigger] after[a]).wf()
                    && after[a].slot < self.next_slot by {
                    if a < i {
                        assert(after[a] == before[a]);
                    }
                }
                assert forall|a: int, b: int| 0 <= a < b < after.len() implies after[a].id@
                    != after[b].id@ && after[a].slot != after[b].slot by {
                    if b < i {
                        assert(after[a] == before[a] && after[b] == before[b]);
                    } else {
                        assert(after[a] == layers[a] && after[b] == layers[i as int]);
                    }
                }
            }
            i = i + 1;
        }
        assert(layers.take(n as int) =~= layers);
        self.pick_is_up(self.pinned) && self.pick_is_up(self.hovered)
    }

    /// Where the layer with this id is.
    pub fn position(&self, id: &str) -> (k: Option<usize>)
        requires
            self.wf(),
        ensures
            match k {
                Some(k) => find_layer(self.layers(), id@) == Some(k as int),
                None => find_layer(self.layers(), id@) is None,
            },
    {
        let mut i: usize = 0;
        while i < self.layers.len()
            invariant
                self.wf(),
                i <= self.layers@.len(),
                forall|j: int| 0 <= j < i ==> self.layers@[j].id@ != id@,
            decreases self.layers@.len() - i,
        {
            if same_text(self.layers[i].id.as_str(), id) {
                proof {
                    self.lemma_find(id@, i as int);
                }
                return Some(i);
            }
            i = i + 1;
        }
        None
    }

    fn position_of_slot(&self, slot: u64) -> (k: Option<usize>)
        requires
            self.wf(),
        ensures
            match k {
                Some(k) => find_slot(self.layers(), slot) == Some(k as int),
                None => find_slot(self.layers(), slot) is None,
            },
    {
        let mut i: usize = 0;
        while i < self.layers.len()
            invariant
                self.wf(),
                i <= self.layers@.len(),
                forall|j: int| 0 <= j < i ==> self.layers@[j].slot != slot,
            decreases self.layers@.len() - i,
        {
            if self.layers[i].slot == slot {
                proof {
                    self.lemma_find_slot(slot, i as int);
                }
                return Some(i);
            }
            i = i + 1;
        }
        None
    }

    /// The slot of the layer with this id, if one is up.
    pub fn slot_of(&self, id: &str) -> (slot: Option<u64>)
        requires
            self.wf(),
        ensures
            match find_layer(self.layers(), id@) {
                Some(k) => slot == Some(self.layers()[k].slot),
                None => slot is None,
            },
    {
        match self.position(id) {
            Some(k) => Some(self.layers[k].slot),
            None => None,
        }
    }

    /// How many layers are actually on screen: none while ephemerides are
    /// off, and otherwise every visible layer whose data is ready.
    pub fn drawn(&self) -> (n: usize)
        requires
            self.wf(),
        ensures
            n == (if self.spec_enabled() {
                count_drawn(self.layers())
            } else {
                0
            }),
    {
        if !self.enabled {
            return 0;
        }
        let mut n: usize = 0;
        let mut i: usize = 0;
        while i < self.layers.len()
            invariant
                i <= self.layers@.len(),
                n == count_drawn(self.layers@.take(i as int)),
                n <= i,
            decreases self.layers@.len() - i,
        {
            assert(self.layers@.take(i + 1).drop_last() =~= self.layers@.take(i as int));
            if self.layers[i].visible && matches!(self.layers[i].status, EphemerisStatus::Ready) {
                n = n + 1;
            }
            i = i + 1;
        }
        assert(self.layers@.take(self.layers@.len() as int) =~= self.layers@);
        n
    }

    /// The two picks as a change detector compares them: the hovered object,
    /// then the pinned one, each as its slot and catalogue number.
    pub fn pick_digest(&self) -> (digest: (Option<(u64, u64)>, Option<(u64, u64)>))
        ensures
            digest.0 == match self.spec_hovered() {
                Some(p) => Some((p.slot, p.norad_id)),
                None => None,
            },
            digest.1 == match self.spec_pinned() {
                Some(p) => Some((p.slot, p.norad_id)),
                None => None,
            },
    {
        let hovered = match self.hovered {
            Some(p) => Some((p.slot, p.norad_id)),
            None => None,
        };
        let pinned = match self.pinned {
            Some(p) => Some((p.slot, p.norad_id)),
            None => None,
        };
        (hovered, pinned)
    }

    /// What the halo should be drawing: the pin if there is one, and otherwise
    /// whatever the cursor is over.
    pub fn highlight_target(&self) -> (pick: Option<SatellitePick>)
        ensures
            pick == (if self.spec_pinned() is Some {
                self.spec_pinned()
            } else {
                self.spec_hovered()
            }),
    {
        if self.pinned.is_some() {
            self.pinned
        } else {
            self.hovered
        }
    }

    /// Keeps one object selected until told otherwise. Returns whether the
    /// layer is up and holds it.
    pub fn pin(&mut self, id: &str, norad_id: u64) -> (pinned: bool)
        requires
            old(self).wf(),
        ensures
            final(self).spec_urls() == old(self).spec_urls(),
            pinned == Self::can_pin(*old(self), id@, norad_id),
            Self::pinning(*old(self), *final(self), id@, norad_id),
    {
        let Some(k) = self.position(id) else {
            return false;
        };
        let found = match &self.layers[k].catalogue {
            Some(catalogue) => catalogue.index_of(norad_id).is_some(),
            None => false,
        };
        if !found {
            return false;
        }
        self.pinned = Some(SatellitePick { slot: self.layers[k].slot, norad_id });
        self.revision = bump(self.revision);
        proof {
            self.lemma_find_slot(self.layers@[k as int].slot, k as int);
        }
        true
    }

    pub fn clear_pin(&mut self)
        requires
            old(self).wf(),
        ensures
            final(self).spec_urls() == old(self).spec_urls(),
            Self::pin_clearing(*old(self), *final(self)),
    {
        if self.pinned.is_some() {
            self.pinned = None;
            self.revision = bump(self.revision);
        }
    }

    /// The pinned object, named the way a command names one: the layer's id
    /// and the catalogue number.
    pub fn pinned_object(&self) -> (object: Option<(String, u64)>)
        requires
            self.wf(),
        ensures
            match self.spec_pinned() {
                Some(p) => match object {
                    Some((id, norad_id)) => id@ == self.layers()[find_slot(
                        self.layers(),
                        p.slot,
                    )->0].id@ && norad_id == p.norad_id,
                    None => false,
                },
                None => object is None,
            },
    {
        let pick = match self.pinned {
            Some(pick) => pick,
            None => return None,
        };
        match self.position_of_slot(pick.slot) {
            Some(k) => Some((self.layers[k].id.clone(), pick.norad_id)),
            None => None,
        }
    }

    /// Takes a layer down. Returns whether there was one. Any pick that named
    /// it is forgotten, because there is no layer left to have picked anything
    /// in.
    pub fn remove(&mut self, id: &str) -> (removed: bool)
        requires
            old(self).wf(),
        ensures
            removed == find_layer(old(self).layers(), id@) is Some,
            Self::removal(*old(self), *final(self), id@),
    {
        let Some(k) = self.position(id) else {
            return false;
        };
        let layer = self.layers.remove(k);
        let slot = layer.slot;
        self.urls.remove(slot);
        let ghost start = self.revision;
        if let Some(pick) = self.hovered {
            if pick.slot == slot {
                self.hovered = None;
                self.revision = bump(self.revision);
            }
        }
        let ghost after_hovered = self.revision;
        if let Some(pick) = self.pinned {
            if pick.slot == slot {
                self.pinned = None;
                self.revision = bump(self.revision);
            }
        }
        let ghost after_pinned = self.revision;
        self.revision = bump(self.revision);
        proof {
            let h = forget_bumps(old(self).hovered, slot);
            let p = forget_bumps(old(self).pinned, slot);
            assert(after_hovered == revision_after(start, h)) by {
                reveal_with_fuel(revision_after, 2);
            }
            assert(after_pinned == revision_after(start, h + p)) by {
                reveal_with_fuel(revision_after, 2);
            }
            assert(self.revision == revision_after(start, 1 + h + p)) by {
                reveal_with_fuel(revision_after, 2);
            }
        }
        proof {
            let old_layers = old(self).layers();
            let new_layers = self.layers@;
            assert forall|i: int| 0 <= i < new_layers.len() implies (#[trigger] new_layers[i]).wf() by {
                if i < k {
                    assert(new_layers[i] == old_layers[i]);
                } else {
                    assert(new_layers[i] == old_layers[i + 1]);
                }
            }
            assert forall|i: int, j: int| 0 <= i < j < new_layers.len() implies new_layers[i].id@
                != new_layers[j].id@ && new_layers[i].slot != new_layers[j].slot by {
                let oi = if i < k {
                    i
                } else {
                    i + 1
                };
                let oj = if j < k {
                    j
                } else {
                    j + 1
                };
                assert(new_layers[i] == old_layers[oi]);
                assert(new_layers[j] == old_layers[oj]);
            }
            assert forall|i: int| 0 <= i < new_layers.len() implies (#[trigger] new_layers[i]).slot
                < self.next_slot by {
                if i < k {
                    assert(new_layers[i] == old_layers[i]);
                } else {
                    assert(new_layers[i] == old_layers[i + 1]);
                }
            }
            lemma_pick_after_remove(old_layers, k as int, old(self).pinned, old(self).wf());
            lemma_pick_after_remove(old_layers, k as int, old(self).hovered, old(self).wf());
        }
        true
    }

    /// Puts a layer up, replacing any already under the same id. A URL is
    /// fetched on the next pass of [`EphemerisSettings::begin_fetches`]; a
    /// text source is handed its document through
    /// [`EphemerisSettings::deliver`].
    pub fn add(&mut self, request: EphemerisRequest)
        requires
            old(self).wf(),
            old(self).spec_next_slot() < u64::MAX,
        ensures
            Self::addition(*old(self), *final(self), request),
    {
        let _ = self.remove(request.id.as_str());
        let ghost before = self.layers@;
        let slot = self.next_slot;
        self.next_slot = self.next_slot + 1;
        let label = if request.label.as_str().is_empty() {
            request.id.clone()
        } else {
            request.label
        };
        let wants_fetch = match &request.source {
            LayerSource::Url(url) => {
                self.urls.insert(slot, url.clone());
                true
            },
            LayerSource::Text(_) => false,
        };
        let layer = EphemerisLayer {
            id: request.id,
            label,
            source: request.source,
            slot,
            generation: 0,
            fetched: false,
            trails: request.trails,
            visible: request.visible,
            status: EphemerisStatus::Loading,
            catalogue: None,
            pending: None,
            requested: request.selection,
            selected: Vec::new(),
            trailed: Vec::new(),
            wants_fetch,
            wants_trails: true,
            revision: 0,
        };
        assert(count_true(layer.selected@) == 0);
        assert(count_both(layer.selected@, layer.trailed@) == 0);
        self.layers.push(layer);
        self.revision = bump(self.revision);
        proof {
            let new_layers = self.layers@;
            assert(new_layers.drop_last() =~= before);
            assert forall|i: int| 0 <= i < new_layers.len() implies (#[trigger] new_layers[i]).wf() by {
                if i < before.len() {
                    assert(new_layers[i] == before[i]);
                }
            }
            assert forall|i: int| 0 <= i < new_layers.len() implies (#[trigger] new_layers[i]).slot
                < self.next_slot by {
                if i < before.len() {
                    assert(new_layers[i] == before[i]);
                }
            }
            assert forall|i: int, j: int| 0 <= i < j < new_layers.len() implies new_layers[i].id@
                != new_layers[j].id@ && new_layers[i].slot != new_layers[j].slot by {
                assert(new_layers[i] == before[i]);
                if j < before.len() {
                    assert(new_layers[j] == before[j]);
                } else {
                    // No layer with this id was left up, and every slot before
                    // this one was handed out earlier.
                    if before[i].id@ == new_layers[j].id@ {
                        assert(find_layer(before, new_layers[j].id@) is Some);
                    }
                }
            }
            lemma_pick_after_push(before, layer_for_proof(new_layers), self.pinned);
            lemma_pick_after_push(before, layer_for_proof(new_layers), self.hovered);
        }
    }
}

spec fn layer_for_proof(layers: Seq<EphemerisLayer>) -> EphemerisLayer {
    layers.last()
}

proof fn lemma_pick_after_push(
    before: Seq<EphemerisLayer>,
    added: EphemerisLayer,
    pick: Option<SatellitePick>,
)
    requires
        pick_ok(before, pick),
    ensures
        pick_ok(before.push(added), pick),
{
    if let Some(p) = pick {
        let k = choose|i: int| 0 <= i < before.len() && before[i].slot == p.slot;
        assert(before.push(added)[k].slot == p.slot);
    }
}

proof fn lemma_pick_after_remove(
    layers: Seq<EphemerisLayer>,
    k: int,
    pick: Option<SatellitePick>,
    unique: bool,
)
    requires
        0 <= k < layers.len(),
        pick_ok(layers, pick),
    ensures
        pick_ok(layers.remove(k), forget(pick, layers[k].slot)),
{
    if let Some(p) = pick {
        if p.slot != layers[k].slot {
            let i = choose|i: int| 0 <= i < layers.len() && layers[i].slot == p.slot;
            let r = layers.remove(k);
            if i < k {
                assert(r[i].slot == p.slot);
            } else {
                assert(i != k);
                assert(r[i - 1].slot == p.slot);
            }
        }
    }
}

/// How many layers are visible with their data ready.
pub open spec fn count_drawn(layers: Seq<EphemerisLayer>) -> nat
    decreases layers.len(),
{
    if layers.len() == 0 {
        0
    } else {
        count_drawn(layers.drop_last()) + if layers.last().visible && layers.last().status is Ready {
            1nat
        } else {
            0nat
        }
    }
}

/// Whether a layer is on screen: shown, with its document adopted.
pub open spec fn on_screen(layer: EphemerisLayer) -> bool {
    layer.visible && layer.status is Ready
}

/// The layers counted as drawn are exactly those shown with a catalogue
/// ready: one still loading, or whose fetch failed, is never counted, and a
/// hidden one neither.
pub proof fn only_ready_visible_layers_are_drawn(layers: Seq<EphemerisLayer>)
    ensures
        count_drawn(layers) == layers.filter(|l: EphemerisLayer| on_screen(l)).len(),
        count_drawn(layers) <= layers.len(),
        (forall|i: int| 0 <= i < layers.len() ==> !(#[trigger] layers[i]).visible
            || !(layers[i].status is Ready)) ==> count_drawn(layers) == 0,
    decreases layers.len(),
{
    reveal_with_fuel(Seq::filter, 1);
    if layers.len() > 0 {
        only_ready_visible_layers_are_drawn(layers.drop_last());
        if forall|i: int| 0 <= i < layers.len() ==> !(#[trigger] layers[i]).visible
            || !(layers[i].status is Ready) {
            assert forall|i: int| 0 <= i < layers.drop_last().len() implies !(
            #[trigger] layers.drop_last()[i]).visible || !(layers.drop_last()[i].status is Ready) by {
                assert(layers.drop_last()[i] == layers[i]);
            }
            assert(!layers[layers.len() - 1].visible || !(layers[layers.len() - 1].status is Ready));
        }
    }
}

/// Putting up a layer that is not ready, or not shown, leaves the count of
/// drawn layers where it was; one that is both adds exactly one.
pub proof fn a_layer_not_ready_adds_nothing_drawn(layers: Seq<EphemerisLayer>, layer: EphemerisLayer)
    ensures
        count_drawn(layers.push(layer)) == count_drawn(layers) + if layer.visible
            && layer.status is Ready {
            1nat
        } else {
            0nat
        },
{
    assert(layers.push(layer).drop_last() =~= layers);
}


/// The layers after one with this id had its controls changed: every other
/// layer as it was, and that one related to what it was by `change`. Nothing
/// changes where no layer has the id.
pub open spec fn one_layer_changed(
    before: Seq<EphemerisLayer>,
    after: Seq<EphemerisLayer>,
    id: Seq<char>,
    change: spec_fn(EphemerisLayer, EphemerisLayer) -> bool,
) -> bool {
    match find_layer(before, id) {
        Some(k) => {
            &&& after.len() == before.len()
            &&& forall|j: int| 0 <= j < before.len() && j != k ==> after[j] == before[j]
            &&& change(before[k], after[k])
        },
        None => after == before,
    }
}

/// A layer whose only change is that an interface has been told it moved.
pub open spec fn touched(layer: EphemerisLayer) -> EphemerisLayer {
    EphemerisLayer { revision: next_revision(layer.revision), ..layer }
}

pub open spec fn visibility_set(a: EphemerisLayer, b: EphemerisLayer, visible: bool) -> bool {
    b == EphemerisLayer { visible, ..touched(a) }
}

pub open spec fn trails_set(a: EphemerisLayer, b: EphemerisLayer, trails: bool) -> bool {
    if a.trails != trails {
        b == EphemerisLayer { trails, wants_trails: true, ..touched(a) }
    } else {
        b == touched(a)
    }
}

pub open spec fn selection_set(a: EphemerisLayer, b: EphemerisLayer, selection: SelectionView) -> bool {
    if a.requested@ != selection {
        &&& b == EphemerisLayer {
            requested: b.requested,
            selected: b.selected,
            trailed: b.trailed,
            wants_trails: true,
            ..touched(a)
        }
        &&& b.requested@ == selection
        &&& b.selected@ == resolved(a.cat_ids(), selection).0
        &&& b.trailed@ == resolved(a.cat_ids(), selection).1
    } else {
        b == touched(a)
    }
}

pub open spec fn object_selected(a: EphemerisLayer, b: EphemerisLayer, norad_id: u64, on: bool) -> bool {
    match select_effect(a, norad_id, on) {
        Some((selected, trailed)) => {
            &&& b == EphemerisLayer {
                requested: b.requested,
                selected: b.selected,
                trailed: b.trailed,
                wants_trails: true,
                ..touched(a)
            }
            &&& b.selected@ == selected
            &&& b.trailed@ == trailed
            &&& b.requested@ == SelectionView::Only(drawn_ids(a.cat_ids(), selected))
        },
        None => b == touched(a),
    }
}

pub open spec fn object_trailed(a: EphemerisLayer, b: EphemerisLayer, norad_id: u64, on: bool) -> bool {
    match trail_effect(a, norad_id, on) {
        Some(trailed) => {
            &&& b == EphemerisLayer { trailed: b.trailed, wants_trails: true, ..touched(a) }
            &&& b.trailed@ == trailed
        },
        None => b == touched(a),
    }
}

pub open spec fn refetch_asked(a: EphemerisLayer, b: EphemerisLayer) -> bool {
    if a.is_url() {
        b == EphemerisLayer { wants_fetch: true, ..touched(a) }
    } else {
        b == touched(a)
    }
}

pub open spec fn change_noted(a: EphemerisLayer, b: EphemerisLayer, trails_moved: bool) -> bool {
    b == EphemerisLayer { wants_trails: a.wants_trails || trails_moved, ..touched(a) }
}

impl EphemerisSettings {
    /// What every per-layer control promises besides its own change: the
    /// revision moves exactly when a layer had the id, and nothing else does.
    pub open spec fn controls_kept(&self, before: &Self, id: Seq<char>) -> bool {
        &&& self.wf()
        &&& self.spec_revision() == if find_layer(before.layers(), id) is Some {
            next_revision(before.spec_revision())
        } else {
            before.spec_revision()
        }
        &&& self.spec_enabled() == before.spec_enabled()
        &&& self.spec_picking() == before.spec_picking()
        &&& self.spec_pinned() == before.spec_pinned()
        &&& self.spec_hovered() == before.spec_hovered()
        &&& self.spec_next_slot() == before.spec_next_slot()
    }

    pub fn set_visible(&mut self, id: &str, visible: bool) -> (changed: bool)
        requires
            old(self).wf(),
        ensures
            final(self).spec_urls() == old(self).spec_urls(),
            changed == find_layer(old(self).layers(), id@) is Some,
            final(self).controls_kept(old(self), id@),
            one_layer_changed(
                old(self).layers(),
                final(self).layers(),
                id@,
                (|a: EphemerisLayer, b: EphemerisLayer| visibility_set(a, b, visible)),
            ),
    {
        let Some(k) = self.position(id) else {
            return false;
        };
        let ghost before = self.layers@;
        let layer = &mut self.layers[k];
        layer.visible = visible;
        layer.revision = bump(layer.revision);
        self.revision = bump(self.revision);
        proof {
            lemma_replace_layer(before, self.next_slot, k as int, self.layers@[k as int], self.pinned, self.hovered);
            assert(self.layers@ == before.update(k as int, self.layers@[k as int]));
        }
        true
    }
}


impl EphemerisSettings {
    /// Whether the layer draws trails at all.
    pub fn set_trails(&mut self, id: &str, trails: bool) -> (changed: bool)
        requires
            old(self).wf(),
        ensures
            final(self).spec_urls() == old(self).spec_urls(),
            changed == find_layer(old(self).layers(), id@) is Some,
            final(self).controls_kept(old(self), id@),
            one_layer_changed(
                old(self).layers(),
                final(self).layers(),
                id@,
                (|a: EphemerisLayer, b: EphemerisLayer| trails_set(a, b, trails)),
            ),
    {
        let Some(k) = self.position(id) else {
            return false;
        };
        let ghost before = self.layers@;
        let layer = &mut self.layers[k];
        if layer.trails != trails {
            layer.trails = trails;
            layer.wants_trails = true;
        }
        layer.revision = bump(layer.revision);
        self.revision = bump(self.revision);
        proof {
            lemma_replace_layer(before, self.next_slot, k as int, self.layers@[k as int], self.pinned, self.hovered);
            assert(self.layers@ == before.update(k as int, self.layers@[k as int]));
        }
        true
    }

    /// Replaces which objects the layer draws, and applies the new choice to
    /// whatever catalogue it holds.
    pub fn set_selection(&mut self, id: &str, selection: Selection) -> (changed: bool)
        requires
            old(self).wf(),
        ensures
            final(self).spec_urls() == old(self).spec_urls(),
            changed == find_layer(old(self).layers(), id@) is Some,
            final(self).controls_kept(old(self), id@),
            one_layer_changed(
                old(self).layers(),
                final(self).layers(),
                id@,
                (|a: EphemerisLayer, b: EphemerisLayer| selection_set(a, b, selection@)),
            ),
    {
        let Some(k) = self.position(id) else {
            return false;
        };
        let ghost before = self.layers@;
        let layer = &mut self.layers[k];
        if !layer.requested.same_as(&selection) {
            layer.requested = selection;
            layer.resolve_selection();
            layer.wants_trails = true;
        }
        layer.revision = bump(layer.revision);
        self.revision = bump(self.revision);
        proof {
            lemma_replace_layer(before, self.next_slot, k as int, self.layers@[k as int], self.pinned, self.hovered);
            assert(self.layers@ == before.update(k as int, self.layers@[k as int]));
        }
        true
    }

    /// Draws one object, or stops drawing it. Selecting past
    /// [`MAX_TRACKED`] does nothing rather than push another object out. A
    /// newly drawn object is trailed if there is room for one more trail, and
    /// the requested selection becomes the objects now drawn, so that a
    /// refresh keeps the choice.
    #[verifier::spinoff_prover]
    #[verifier::rlimit(50)]
    pub fn select(&mut self, id: &str, norad_id: u64, on: bool) -> (changed: bool)
        requires
            old(self).wf(),
        ensures
            final(self).spec_urls() == old(self).spec_urls(),
            changed == find_layer(old(self).layers(), id@) is Some,
            final(self).controls_kept(old(self), id@),
            one_layer_changed(
                old(self).layers(),
                final(self).layers(),
                id@,
                (|a: EphemerisLayer, b: EphemerisLayer| object_selected(a, b, norad_id, on)),
            ),
    {
        let Some(k) = self.position(id) else {
            return false;
        };
        let ghost before = self.layers@;
        assert(before[k as int].wf());
        let layer = &mut self.layers[k];
        let index = match &layer.catalogue {
            Some(catalogue) => catalogue.index_of(norad_id),
            None => None,
        };
        if let Some(i) = index {
            if layer.selected[i] != on {
                let (drawing, _) = layer.counts();
                if !(on && drawing >= MAX_TRACKED) {
                    proof {
                        lemma_count_true_update(layer.selected@, i as int, on);
                    }
                    layer.selected.set(i, on);
                    if on && !layer.trailed[i] {
                        let (_, trailing) = layer.counts();
                        if trailing < MAX_TRAILED {
                            layer.trailed.set(i, true);
                        }
                    }
                    layer.requested = layer.explicit();
                    layer.wants_trails = true;
                }
            }
        }
        layer.revision = bump(layer.revision);
        self.revision = bump(self.revision);
        proof {
            lemma_replace_layer(before, self.next_slot, k as int, self.layers@[k as int], self.pinned, self.hovered);
            assert(self.layers@ == before.update(k as int, self.layers@[k as int]));
        }
        true
    }

    /// Trails one object, or stops trailing it. Trailing a drawn object past
    /// [`MAX_TRAILED`] does nothing.
    #[verifier::spinoff_prover]
    pub fn set_object_trail(&mut self, id: &str, norad_id: u64, on: bool) -> (changed: bool)
        requires
            old(self).wf(),
        ensures
            final(self).spec_urls() == old(self).spec_urls(),
            changed == find_layer(old(self).layers(), id@) is Some,
            final(self).controls_kept(old(self), id@),
            one_layer_changed(
                old(self).layers(),
                final(self).layers(),
                id@,
                (|a: EphemerisLayer, b: EphemerisLayer| object_trailed(a, b, norad_id, on)),
            ),
    {
        let Some(k) = self.position(id) else {
            return false;
        };
        let ghost before = self.layers@;
        assert(before[k as int].wf());
        let layer = &mut self.layers[k];
        let index = match &layer.catalogue {
            Some(catalogue) => catalogue.index_of(norad_id),
            None => None,
        };
        if let Some(i) = index {
            if layer.trailed[i] != on {
                let (_, trailing) = layer.counts();
                if !(on && trailing >= MAX_TRAILED) {
                    layer.trailed.set(i, on);
                    layer.wants_trails = true;
                }
            }
        }
        layer.revision = bump(layer.revision);
        self.revision = bump(self.revision);
        proof {
            lemma_replace_layer(before, self.next_slot, k as int, self.layers@[k as int], self.pinned, self.hovered);
            assert(self.layers@ == before.update(k as int, self.layers@[k as int]));
        }
        true
    }

    /// Refetches now, whatever the period says. A text source has nothing to
    /// fetch.
    pub fn refresh(&mut self, id: &str) -> (changed: bool)
        requires
            old(self).wf(),
        ensures
            final(self).spec_urls() == old(self).spec_urls(),
            changed == find_layer(old(self).layers(), id@) is Some,
            final(self).controls_kept(old(self), id@),
            one_layer_changed(
                old(self).layers(),
                final(self).layers(),
                id@,
                (|a: EphemerisLayer, b: EphemerisLayer| refetch_asked(a, b)),
            ),
    {
        let Some(k) = self.position(id) else {
            return false;
        };
        let ghost before = self.layers@;
        let layer = &mut self.layers[k];
        if let LayerSource::Url(_) = &layer.source {
            layer.wants_fetch = true;
        }
        layer.revision = bump(layer.revision);
        self.revision = bump(self.revision);
        proof {
            lemma_replace_layer(before, self.next_slot, k as int, self.layers@[k as int], self.pinned, self.hovered);
            assert(self.layers@ == before.update(k as int, self.layers@[k as int]));
        }
        true
    }

    /// Records that a control the caller keeps itself (the paint, the trail
    /// window, the refresh period) changed on this layer, and whether that
    /// moved the trails.
    pub fn note_change(&mut self, id: &str, trails_moved: bool) -> (changed: bool)
        requires
            old(self).wf(),
        ensures
            final(self).spec_urls() == old(self).spec_urls(),
            changed == find_layer(old(self).layers(), id@) is Some,
            final(self).controls_kept(old(self), id@),
            one_layer_changed(
                old(self).layers(),
                final(self).layers(),
                id@,
                (|a: EphemerisLayer, b: EphemerisLayer| change_noted(a, b, trails_moved)),
            ),
    {
        let Some(k) = self.position(id) else {
            return false;
        };
        let ghost before = self.layers@;
        let layer = &mut self.layers[k];
        if trails_moved {
            layer.wants_trails = true;
        }
        layer.revision = bump(layer.revision);
        self.revision = bump(self.revision);
        proof {
            lemma_replace_layer(before, self.next_slot, k as int, self.layers@[k as int], self.pinned, self.hovered);
            assert(self.layers@ == before.update(k as int, self.layers@[k as int]));
        }
        true
    }
}


// ---------------------------------------------------------------------------
// Fetching and adopting documents
// ---------------------------------------------------------------------------

/// The scheme every ephemeris document is fetched under.
pub const EPHEMERIS_SOURCE: &'static str = "omm";

/// The extension that picks the document loader.
pub const DOCUMENT_EXTENSION: &'static str = "omm";

/// The generation after `g`, wrapping.
pub open spec fn next_generation(g: u32) -> u32 {
    if g == u32::MAX {
        0
    } else {
        (g + 1) as u32
    }
}

/// What a layer becomes when the fetch it asked for starts: the request is
/// taken, a refetch moves to the next generation so that it is never answered
/// out of a cache, and the layer is loading until the document lands. It keeps
/// drawing the catalogue it has meanwhile.
pub open spec fn fetch_started(a: EphemerisLayer) -> EphemerisLayer {
    if a.wants_fetch {
        EphemerisLayer {
            wants_fetch: false,
            generation: if a.fetched {
                next_generation(a.generation)
            } else {
                a.generation
            },
            fetched: true,
            status: EphemerisStatus::Loading,
            ..a
        }
    } else {
        a
    }
}

/// The slot and asset path of every fetch that starts, in layer order.
pub open spec fn fetches(layers: Seq<EphemerisLayer>) -> Seq<(u64, Seq<char>)>
    decreases layers.len(),
{
    if layers.len() == 0 {
        Seq::empty()
    } else {
        let rest = fetches(layers.drop_last());
        let layer = layers.last();
        if layer.wants_fetch {
            rest.push(
                (
                    layer.slot,
                    spec_asset_path(
                        EPHEMERIS_SOURCE@,
                        layer.slot as nat,
                        fetch_started(layer).generation as nat,
                        DOCUMENT_EXTENSION@,
                    ),
                ),
            )
        } else {
            rest
        }
    }
}

/// Whether starting the fetches moves any layer's status.
pub open spec fn fetch_moves_status(layers: Seq<EphemerisLayer>) -> bool {
    exists|i: int| 0 <= i < layers.len() && #[trigger] layers[i].wants_fetch && !(layers[i].status is Loading)
}

/// What a layer becomes when what it had waiting is adopted: the document
/// becomes its catalogue, the requested selection is applied to it, and the
/// layer is ready.
pub open spec fn adopted(a: EphemerisLayer, b: EphemerisLayer) -> bool {
    match a.pending {
        Some(document) => {
            &&& b == EphemerisLayer {
                catalogue: Some(document),
                pending: None,
                status: EphemerisStatus::Ready,
                wants_trails: true,
                selected: b.selected,
                trailed: b.trailed,
                ..a
            }
            &&& b.selected@ == resolved(document.ids(), a.requested@).0
            &&& b.trailed@ == resolved(document.ids(), a.requested@).1
        },
        None => b == a,
    }
}

/// The slots of the layers that have a document waiting, in layer order.
pub open spec fn waiting_slots(layers: Seq<EphemerisLayer>) -> Seq<u64>
    decreases layers.len(),
{
    if layers.len() == 0 {
        Seq::empty()
    } else {
        let rest = waiting_slots(layers.drop_last());
        if layers.last().pending is Some {
            rest.push(layers.last().slot)
        } else {
            rest
        }
    }
}

/// The revision after `n` bumps.
pub open spec fn revision_after(r: u64, n: nat) -> u64
    decreases n,
{
    if n == 0 {
        r
    } else {
        next_revision(revision_after(r, (n - 1) as nat))
    }
}

/// What the layer holding `slot` becomes when a finished fetch hands it its
/// document: nothing, unless the layer is loading with nothing already waiting.
pub open spec fn delivery(layers: Seq<EphemerisLayer>, slot: u64, document: Catalogue) -> Option<(int, EphemerisLayer)> {
    match find_slot(layers, slot) {
        Some(k) => if layers[k].pending is None && layers[k].status is Loading {
            Some((k, EphemerisLayer { pending: Some(document), ..layers[k] }))
        } else {
            None
        },
        None => None,
    }
}

impl EphemerisSettings {
    /// The fetches that are due, started: each layer that asked for one is
    /// moved on as [`fetch_started`] says, and the slot and asset path of
    /// each comes back, in layer order, for the caller to load.
    pub fn begin_fetches(&mut self) -> (started: Vec<(u64, String)>)
        requires
            old(self).wf(),
        ensures
            final(self).spec_urls() == old(self).spec_urls(),
            final(self).wf(),
            final(self).layers() == old(self).layers().map_values(|l: EphemerisLayer| fetch_started(l)),
            started@.map_values(|f: (u64, String)| (f.0, f.1@)) == fetches(old(self).layers()),
            final(self).spec_revision() == if fetch_moves_status(old(self).layers()) {
                next_revision(old(self).spec_revision())
            } else {
                old(self).spec_revision()
            },
            final(self).spec_enabled() == old(self).spec_enabled(),
            final(self).spec_picking() == old(self).spec_picking(),
            final(self).spec_pinned() == old(self).spec_pinned(),
            final(self).spec_hovered() == old(self).spec_hovered(),
            final(self).spec_next_slot() == old(self).spec_next_slot(),
    {
        let ghost before = self.layers@;
        let mut started: Vec<(u64, String)> = Vec::new();
        let mut moved = false;
        let mut i: usize = 0;
        while i < self.layers.len()
            invariant
                self.urls@ == old(self).spec_urls(),
                old(self).wf(),
                before == old(self).layers(),
                self.next_slot == old(self).spec_next_slot(),
                self.pinned == old(self).spec_pinned(),
                self.hovered == old(self).spec_hovered(),
                self.revision == old(self).spec_revision(),
                self.enabled == old(self).spec_enabled(),
                self.picking == old(self).spec_picking(),
                self.layers@.len() == before.len(),
                i <= before.len(),
                forall|j: int| 0 <= j < i ==> self.layers@[j] == fetch_started(before[j]),
                forall|j: int| i <= j < before.len() ==> self.layers@[j] == before[j],
                started@.map_values(|f: (u64, String)| (f.0, f.1@)) == fetches(before.take(i as int)),
                moved == fetch_moves_status(before.take(i as int)),
            decreases before.len() - i,
        {
            let ghost prefix = before.take(i as int);
            assert(before.take(i + 1).drop_last() =~= prefix);
            let layer = &mut self.layers[i];
            if layer.wants_fetch {
                layer.wants_fetch = false;
                if layer.fetched {
                    layer.generation = if layer.generation == u32::MAX {
                        0
                    } else {
                        layer.generation + 1
                    };
                }
                layer.fetched = true;
                if !matches!(layer.status, EphemerisStatus::Loading) {
                    moved = true;
                }
                layer.status = EphemerisStatus::Loading;
                let path = crate::fetch::asset_path(EPHEMERIS_SOURCE, layer.slot, layer.generation, DOCUMENT_EXTENSION);
                let ghost old_started = started@;
                started.push((layer.slot, path));
                proof {
                    assert(started@.map_values(|f: (u64, String)| (f.0, f.1@)) =~= old_started.map_values(
                        |f: (u64, String)| (f.0, f.1@),
                    ).push((before[i as int].slot, path@)));
                }
            }
            proof {
                let next = before.take(i + 1);
                if fetch_moves_status(next) {
                    let w = choose|w: int| 0 <= w < next.len() && #[trigger] next[w].wants_fetch && !(next[w].status is Loading);
                    if w < i {
                        assert(prefix[w] == next[w]);
                    }
                }
                if fetch_moves_status(prefix) {
                    let w = choose|w: int| 0 <= w < prefix.len() && #[trigger] prefix[w].wants_fetch && !(prefix[w].status is Loading);
                    assert(next[w] == prefix[w]);
                }
                if before[i as int].wants_fetch && !(before[i as int].status is Loading) {
                    assert(next[i as int] == before[i as int]);
                }
            }
            i = i + 1;
        }
        if moved {
            self.revision = bump(self.revision);
        }
        proof {
            assert(before.take(before.len() as int) =~= before);
            let after = self.layers@;
            assert(after =~= before.map_values(|l: EphemerisLayer| fetch_started(l)));
            assert forall|j: int| 0 <= j < after.len() implies (#[trigger] after[j]).wf() by {
                assert(before[j].wf());
            }
            assert forall|a: int, b: int| 0 <= a < b < after.len() implies after[a].id@ != after[b].id@
                && after[a].slot != after[b].slot by {
                assert(before[a].id@ != before[b].id@);
            }
            assert forall|j: int| 0 <= j < after.len() implies (#[trigger] after[j]).slot < self.next_slot by {
                assert(before[j].slot < self.next_slot);
            }
            lemma_same_slots(before, after, self.pinned);
            lemma_same_slots(before, after, self.hovered);
        }
        started
    }
}

/// Picks stay valid across any change that keeps every layer's slot.
proof fn lemma_same_slots(before: Seq<EphemerisLayer>, after: Seq<EphemerisLayer>, pick: Option<SatellitePick>)
    requires
        pick_ok(before, pick),
        after.len() == before.len(),
        forall|j: int| 0 <= j < before.len() ==> (#[trigger] after[j]).slot == before[j].slot,
    ensures
        pick_ok(after, pick),
{
    if let Some(p) = pick {
        let i = choose|i: int| 0 <= i < before.len() && before[i].slot == p.slot;
        assert(after[i].slot == p.slot);
    }
}


/// Every layer keeps its id and slot, and stays well formed.
proof fn lemma_same_identities(
    before: Seq<EphemerisLayer>,
    after: Seq<EphemerisLayer>,
    next_slot: u64,
    pinned: Option<SatellitePick>,
    hovered: Option<SatellitePick>,
)
    requires
        layers_ok(before, next_slot),
        pick_ok(before, pinned),
        pick_ok(before, hovered),
        after.len() == before.len(),
        forall|j: int| 0 <= j < before.len() ==> (#[trigger] after[j]).slot == before[j].slot,
        forall|j: int| 0 <= j < before.len() ==> (#[trigger] after[j]).id@ == before[j].id@,
        forall|j: int| 0 <= j < before.len() ==> (#[trigger] after[j]).wf(),
    ensures
        layers_ok(after, next_slot),
        pick_ok(after, pinned),
        pick_ok(after, hovered),
{
    assert forall|a: int, b: int| 0 <= a < b < after.len() implies after[a].id@ != after[b].id@
        && after[a].slot != after[b].slot by {
        assert(before[a].id@ != before[b].id@);
        assert(before[a].slot != before[b].slot);
    }
    assert forall|j: int| 0 <= j < after.len() implies (#[trigger] after[j]).slot < next_slot by {
        assert(before[j].slot < next_slot);
    }
    lemma_same_slots(before, after, pinned);
    lemma_same_slots(before, after, hovered);
}

impl EphemerisSettings {
    /// Hands a finished fetch's document to the layer holding `slot`, to be
    /// adopted by [`EphemerisSettings::adopt`]. Returns whether the layer took
    /// it: only one that is loading with nothing already waiting does.
    pub fn deliver(&mut self, slot: u64, document: Catalogue) -> (taken: bool)
        requires
            old(self).wf(),
        ensures
            final(self).spec_urls() == old(self).spec_urls(),
            final(self).wf(),
            taken == delivery(old(self).layers(), slot, document) is Some,
            match delivery(old(self).layers(), slot, document) {
                Some((k, layer)) => final(self).layers() == old(self).layers().update(k, layer),
                None => final(self).layers() == old(self).layers(),
            },
            final(self).spec_revision() == old(self).spec_revision(),
            final(self).spec_enabled() == old(self).spec_enabled(),
            final(self).spec_picking() == old(self).spec_picking(),
            final(self).spec_pinned() == old(self).spec_pinned(),
            final(self).spec_hovered() == old(self).spec_hovered(),
            final(self).spec_next_slot() == old(self).spec_next_slot(),
    {
        let Some(k) = self.position_of_slot(slot) else {
            return false;
        };
        let ghost before = self.layers@;
        assert(before[k as int].wf());
        if self.layers[k].pending.is_none() && matches!(self.layers[k].status, EphemerisStatus::Loading) {
            self.layers[k].pending = Some(document);
            proof {
                lemma_replace_layer(before, self.next_slot, k as int, self.layers@[k as int], self.pinned, self.hovered);
                assert(self.layers@ == before.update(k as int, self.layers@[k as int]));
            }
            true
        } else {
            false
        }
    }

    /// Records that the fetch for the layer holding `slot` failed, unless a
    /// document is already waiting there. Returns whether the layer took the
    /// failure; the revision moves only when its status did.
    pub fn fail(&mut self, slot: u64, message: String) -> (taken: bool)
        requires
            old(self).wf(),
        ensures
            final(self).spec_urls() == old(self).spec_urls(),
            final(self).wf(),
            taken == match find_slot(old(self).layers(), slot) {
                Some(k) => old(self).layers()[k].pending is None,
                None => false,
            },
            taken ==> {
                let k = find_slot(old(self).layers(), slot)->0;
                let a = old(self).layers()[k];
                &&& final(self).layers() == old(self).layers().update(
                    k,
                    EphemerisLayer { status: EphemerisStatus::Failed(message), ..a },
                )
                &&& final(self).spec_revision() == if a.status@ == StatusView::Failed(message@) {
                    old(self).spec_revision()
                } else {
                    next_revision(old(self).spec_revision())
                }
            },
            !taken ==> final(self).layers() == old(self).layers() && final(self).spec_revision()
                == old(self).spec_revision(),
            final(self).spec_enabled() == old(self).spec_enabled(),
            final(self).spec_picking() == old(self).spec_picking(),
            final(self).spec_pinned() == old(self).spec_pinned(),
            final(self).spec_hovered() == old(self).spec_hovered(),
            final(self).spec_next_slot() == old(self).spec_next_slot(),
    {
        let Some(k) = self.position_of_slot(slot) else {
            return false;
        };
        let ghost before = self.layers@;
        assert(before[k as int].wf());
        if self.layers[k].pending.is_some() {
            return false;
        }
        let layer = &mut self.layers[k];
        let status = EphemerisStatus::Failed(message);
        let changed = !layer.status.same_as(&status);
        layer.status = status;
        if changed {
            self.revision = bump(self.revision);
        }
        proof {
            lemma_replace_layer(before, self.next_slot, k as int, self.layers@[k as int], self.pinned, self.hovered);
            assert(self.layers@ == before.update(k as int, self.layers@[k as int]));
        }
        true
    }

    /// Adopts whatever documents are waiting, applying each layer's requested
    /// selection to its new catalogue. Returns the slots of the layers that
    /// adopted one, in layer order; the revision moves once if there were any.
    pub fn adopt(&mut self) -> (slots: Vec<u64>)
        requires
            old(self).wf(),
        ensures
            final(self).spec_urls() == old(self).spec_urls(),
            final(self).wf(),
            final(self).layers().len() == old(self).layers().len(),
            forall|j: int|
                0 <= j < old(self).layers().len() ==> adopted(
                    #[trigger] old(self).layers()[j],
                    final(self).layers()[j],
                ),
            slots@ == waiting_slots(old(self).layers()),
            final(self).spec_revision() == if slots@.len() > 0 {
                next_revision(old(self).spec_revision())
            } else {
                old(self).spec_revision()
            },
            final(self).spec_enabled() == old(self).spec_enabled(),
            final(self).spec_picking() == old(self).spec_picking(),
            final(self).spec_pinned() == old(self).spec_pinned(),
            final(self).spec_hovered() == old(self).spec_hovered(),
            final(self).spec_next_slot() == old(self).spec_next_slot(),
    {
        let ghost before = self.layers@;
        let mut slots: Vec<u64> = Vec::new();
        let mut i: usize = 0;
        while i < self.layers.len()
            invariant
                self.urls@ == old(self).spec_urls(),
                old(self).wf(),
                before == old(self).layers(),
                self.next_slot == old(self).spec_next_slot(),
                self.pinned == old(self).spec_pinned(),
                self.hovered == old(self).spec_hovered(),
                self.revision == old(self).spec_revision(),
                self.enabled == old(self).spec_enabled(),
                self.picking == old(self).spec_picking(),
                self.layers@.len() == before.len(),
                i <= before.len(),
                forall|j: int| 0 <= j < i ==> adopted(#[trigger] before[j], self.layers@[j]),
                forall|j: int| 0 <= j < i ==> (#[trigger] self.layers@[j]).wf(),
                forall|j: int| i <= j < before.len() ==> self.layers@[j] == before[j],
                slots@ == waiting_slots(before.take(i as int)),
            decreases before.len() - i,
        {
            assert(before.take(i + 1).drop_last() =~= before.take(i as int));
            assert(before[i as int].wf());
            let layer = &mut self.layers[i];
            if layer.pending.is_some() {
                let document = layer.pending.take();
                layer.catalogue = document;
                layer.resolve_selection();
                layer.status = EphemerisStatus::Ready;
                layer.wants_trails = true;
                slots.push(layer.slot);
            }
            i = i + 1;
        }
        if slots.len() > 0 {
            self.revision = bump(self.revision);
        }
        proof {
            assert(before.take(before.len() as int) =~= before);
            lemma_same_identities(before, self.layers@, self.next_slot, self.pinned, self.hovered);
        }
        slots
    }

    /// The key binding's trail switch: trails on for every layer if none has
    /// them, and off for every layer otherwise — each layer changed as
    /// [`EphemerisSettings::set_trails`] changes it.
    pub fn toggle_all_trails(&mut self)
        requires
            old(self).wf(),
        ensures
            final(self).spec_urls() == old(self).spec_urls(),
            final(self).wf(),
            final(self).layers().len() == old(self).layers().len(),
            forall|j: int|
                0 <= j < old(self).layers().len() ==> trails_set(
                    #[trigger] old(self).layers()[j],
                    final(self).layers()[j],
                    !any_trails(old(self).layers()),
                ),
            final(self).spec_revision() == revision_after(
                old(self).spec_revision(),
                old(self).layers().len(),
            ),
            final(self).spec_enabled() == old(self).spec_enabled(),
            final(self).spec_picking() == old(self).spec_picking(),
            final(self).spec_pinned() == old(self).spec_pinned(),
            final(self).spec_hovered() == old(self).spec_hovered(),
            final(self).spec_next_slot() == old(self).spec_next_slot(),
    {
        let ghost before = self.layers@;
        let mut any = false;
        let mut i: usize = 0;
        while i < self.layers.len()
            invariant
                self.urls@ == old(self).spec_urls(),
                i <= self.layers@.len(),
                any == exists|j: int| 0 <= j < i && (#[trigger] self.layers@[j]).trails,
            decreases self.layers@.len() - i,
        {
            if self.layers[i].trails {
                any = true;
            }
            i = i + 1;
        }
        let on = !any;
        let mut i: usize = 0;
        while i < self.layers.len()
            invariant
                self.urls@ == old(self).spec_urls(),
                old(self).wf(),
                before == old(self).layers(),
                on == !any_trails(before),
                self.next_slot == old(self).spec_next_slot(),
                self.pinned == old(self).spec_pinned(),
                self.hovered == old(self).spec_hovered(),
                self.enabled == old(self).spec_enabled(),
                self.picking == old(self).spec_picking(),
                self.revision == revision_after(old(self).spec_revision(), i as nat),
                self.layers@.len() == before.len(),
                i <= before.len(),
                forall|j: int| 0 <= j < i ==> trails_set(#[trigger] before[j], self.layers@[j], on),
                forall|j: int| i <= j < before.len() ==> self.layers@[j] == before[j],
            decreases before.len() - i,
        {
            let layer = &mut self.layers[i];
            if layer.trails != on {
                layer.trails = on;
                layer.wants_trails = true;
            }
            layer.revision = bump(layer.revision);
            self.revision = bump(self.revision);
            i = i + 1;
        }
        proof {
            assert forall|j: int| 0 <= j < before.len() implies (#[trigger] self.layers@[j]).wf() by {
                assert(before[j].wf());
            }
            lemma_same_identities(before, self.layers@, self.next_slot, self.pinned, self.hovered);
        }
    }

    /// Marks the layer holding `slot` as due for a refetch, which the next
    /// [`EphemerisSettings::begin_fetches`] starts. Returns whether a layer
    /// holds the slot.
    pub fn mark_due(&mut self, slot: u64) -> (marked: bool)
        requires
            old(self).wf(),
        ensures
            final(self).spec_urls() == old(self).spec_urls(),
            final(self).wf(),
            marked == find_slot(old(self).layers(), slot) is Some,
            marked ==> {
                let k = find_slot(old(self).layers(), slot)->0;
                final(self).layers() == old(self).layers().update(
                    k,
                    EphemerisLayer { wants_fetch: true, ..old(self).layers()[k] },
                )
            },
            !marked ==> final(self).layers() == old(self).layers(),
            final(self).spec_revision() == old(self).spec_revision(),
            final(self).spec_enabled() == old(self).spec_enabled(),
            final(self).spec_picking() == old(self).spec_picking(),
            final(self).spec_pinned() == old(self).spec_pinned(),
            final(self).spec_hovered() == old(self).spec_hovered(),
            final(self).spec_next_slot() == old(self).spec_next_slot(),
    {
        let Some(k) = self.position_of_slot(slot) else {
            return false;
        };
        let ghost before = self.layers@;
        assert(before[k as int].wf());
        self.layers[k].wants_fetch = true;
        proof {
            lemma_replace_layer(before, self.next_slot, k as int, self.layers@[k as int], self.pinned, self.hovered);
            assert(self.layers@ == before.update(k as int, self.layers@[k as int]));
        }
        true
    }

    /// One object of one layer, by the layer's id and the catalogue number:
    /// where the layer is, and where the object is in its catalogue.
    pub fn object_index(&self, id: &str, norad_id: u64) -> (found: Option<(usize, usize)>)
        requires
            self.wf(),
        ensures
            found == match find_layer(self.layers(), id@) {
                Some(k) => match self.layers()[k].catalogue {
                    Some(c) => match first_index_of(c.ids(), norad_id) {
                        Some(i) => Some((k as usize, i as usize)),
                        None => None,
                    },
                    None => None,
                },
                None => None,
            },
    {
        let k = self.position(id)?;
        match &self.layers[k].catalogue {
            Some(catalogue) => match catalogue.index_of(norad_id) {
                Some(i) => Some((k, i)),
                None => None,
            },
            None => None,
        }
    }

    /// What a pick names now: where its layer is, and where the object is in
    /// that layer's catalogue — `None` once either has gone.
    pub fn resolve_pick(&self, pick: SatellitePick) -> (found: Option<(usize, usize)>)
        requires
            self.wf(),
        ensures
            found == match find_slot(self.layers(), pick.slot) {
                Some(k) => match self.layers()[k].catalogue {
                    Some(c) => match first_index_of(c.ids(), pick.norad_id) {
                        Some(i) => Some((k as usize, i as usize)),
                        None => None,
                    },
                    None => None,
                },
                None => None,
            },
    {
        let k = self.position_of_slot(pick.slot)?;
        match &self.layers[k].catalogue {
            Some(catalogue) => match catalogue.index_of(pick.norad_id) {
                Some(i) => Some((k, i)),
                None => None,
            },
            None => None,
        }
    }
}

/// Whether any layer draws trails.
pub open spec fn any_trails(layers: Seq<EphemerisLayer>) -> bool {
    exists|j: int| 0 <= j < layers.len() && (#[trigger] layers[j]).trails
}


/// One revision bump if a pick named `slot`, none otherwise.
pub open spec fn forget_bumps(pick: Option<SatellitePick>, slot: u64) -> nat {
    match pick {
        Some(p) => if p.slot == slot {
            1nat
        } else {
            0nat
        },
        None => 0nat,
    }
}

/// The layer a request puts up, in the slot it is given.
pub open spec fn fresh_layer(layer: EphemerisLayer, request: EphemerisRequest, slot: u64) -> bool {
    &&& layer.id@ == request.id@
    &&& layer.label@ == (if request.label@.len() == 0 {
        request.id@
    } else {
        request.label@
    })
    &&& layer.source == request.source
    &&& layer.slot == slot
    &&& layer.generation == 0
    &&& !layer.fetched
    &&& layer.trails == request.trails
    &&& layer.visible == request.visible
    &&& layer.status@ == StatusView::Loading
    &&& layer.catalogue is None
    &&& layer.pending is None
    &&& layer.requested == request.selection
    &&& layer.selected@.len() == 0
    &&& layer.trailed@.len() == 0
    &&& layer.wants_fetch == (request.source is Url)
    &&& layer.wants_trails
    &&& layer.revision == 0
}

impl EphemerisSettings {
    /// The master switches set, and nothing else moved.
    pub open spec fn switched(before: Self, after: Self, enabled: bool, picking: bool) -> bool {
        &&& after.wf()
        &&& after.spec_enabled() == enabled
        &&& after.spec_picking() == picking
        &&& after.layers() == before.layers()
        &&& after.spec_pinned() == before.spec_pinned()
        &&& after.spec_hovered() == before.spec_hovered()
        &&& after.spec_next_slot() == before.spec_next_slot()
        &&& after.spec_revision() == before.spec_revision()
    }

    /// Whether a pin of this object in this layer takes: the layer is up and
    /// its catalogue holds the object.
    pub open spec fn can_pin(before: Self, id: Seq<char>, norad_id: u64) -> bool {
        match find_layer(before.layers(), id) {
            Some(k) => before.layers()[k].catalogue is Some && first_index_of(
                before.layers()[k].cat_ids(),
                norad_id,
            ) is Some,
            None => false,
        }
    }

    /// A pin: the object is kept, named by its layer's slot and its catalogue
    /// number, when the pin takes; nothing moves when it does not.
    pub open spec fn pinning(before: Self, after: Self, id: Seq<char>, norad_id: u64) -> bool {
        &&& after.wf()
        &&& if Self::can_pin(before, id, norad_id) {
            &&& after.spec_pinned() == Some(
                SatellitePick { slot: before.layers()[find_layer(before.layers(), id)->0].slot, norad_id },
            )
            &&& after.spec_revision() == next_revision(before.spec_revision())
        } else {
            &&& after.spec_pinned() == before.spec_pinned()
            &&& after.spec_revision() == before.spec_revision()
        }
        &&& after.layers() == before.layers()
        &&& after.spec_hovered() == before.spec_hovered()
        &&& after.spec_next_slot() == before.spec_next_slot()
        &&& after.spec_enabled() == before.spec_enabled()
        &&& after.spec_picking() == before.spec_picking()
    }

    /// The pin let go; the revision moves only if there was one.
    pub open spec fn pin_clearing(before: Self, after: Self) -> bool {
        &&& after.wf()
        &&& after.spec_pinned() is None
        &&& after.spec_revision() == if before.spec_pinned() is Some {
            next_revision(before.spec_revision())
        } else {
            before.spec_revision()
        }
        &&& after.layers() == before.layers()
        &&& after.spec_hovered() == before.spec_hovered()
        &&& after.spec_next_slot() == before.spec_next_slot()
        &&& after.spec_enabled() == before.spec_enabled()
        &&& after.spec_picking() == before.spec_picking()
    }

    /// A layer taken down: it is gone, every pick that named it is forgotten,
    /// and the revision moves once for each forgotten pick and once for the
    /// layer. Nothing changes where no layer has the id.
    pub open spec fn removal(before: Self, after: Self, id: Seq<char>) -> bool {
        &&& after.wf()
        &&& match find_layer(before.layers(), id) {
            Some(k) => {
                let slot = before.layers()[k].slot;
                &&& after.layers() == before.layers().remove(k)
                &&& after.spec_urls() == before.spec_urls().remove(slot)
                &&& after.spec_pinned() == forget(before.spec_pinned(), slot)
                &&& after.spec_hovered() == forget(before.spec_hovered(), slot)
                &&& after.spec_revision() == revision_after(
                    before.spec_revision(),
                    1 + forget_bumps(before.spec_hovered(), slot) + forget_bumps(before.spec_pinned(), slot),
                )
            },
            None => {
                &&& after.layers() == before.layers()
                &&& after.spec_urls() == before.spec_urls()
                &&& after.spec_pinned() == before.spec_pinned()
                &&& after.spec_hovered() == before.spec_hovered()
                &&& after.spec_revision() == before.spec_revision()
            },
        }
        &&& after.spec_next_slot() == before.spec_next_slot()
        &&& after.spec_enabled() == before.spec_enabled()
        &&& after.spec_picking() == before.spec_picking()
    }

    /// A layer put up: whatever had its id is taken down as by
    /// [`EphemerisSettings::removal`], and the new layer goes up last, in the
    /// next slot, loading.
    pub open spec fn addition(before: Self, after: Self, request: EphemerisRequest) -> bool {
        let urls = match find_layer(before.layers(), request.id@) {
            Some(k) => before.spec_urls().remove(before.layers()[k].slot),
            None => before.spec_urls(),
        };
        let (kept, pinned, hovered, revision) = match find_layer(before.layers(), request.id@) {
            Some(k) => {
                let slot = before.layers()[k].slot;
                (
                    before.layers().remove(k),
                    forget(before.spec_pinned(), slot),
                    forget(before.spec_hovered(), slot),
                    revision_after(
                        before.spec_revision(),
                        1 + forget_bumps(before.spec_hovered(), slot) + forget_bumps(before.spec_pinned(), slot),
                    ),
                )
            },
            None => (before.layers(), before.spec_pinned(), before.spec_hovered(), before.spec_revision()),
        };
        &&& after.wf()
        &&& after.layers().len() == kept.len() + 1
        &&& after.layers().drop_last() == kept
        &&& fresh_layer(after.layers().last(), request, before.spec_next_slot())
        &&& after.spec_next_slot() == before.spec_next_slot() + 1
        &&& after.spec_urls() == match request.source {
            LayerSource::Url(url) => urls.insert(before.spec_next_slot(), url@),
            LayerSource::Text(_) => urls,
        }
        &&& after.spec_pinned() == pinned
        &&& after.spec_hovered() == hovered
        &&& after.spec_revision() == next_revision(revision)
        &&& after.spec_enabled() == before.spec_enabled()
        &&& after.spec_picking() == before.spec_picking()
    }
}


/// Trailing one object, or not, never takes the objects drawn and trailed
/// past [`MAX_TRAILED`] when they were within it.
pub proof fn object_trails_stay_within_budget(layer: EphemerisLayer, norad_id: u64, on: bool)
    requires
        layer.wf(),
        count_both(layer.selected@, layer.trailed@) <= MAX_TRAILED,
    ensures
        trail_effect(layer, norad_id, on) matches Some(trailed) ==> count_both(layer.selected@, trailed)
            <= MAX_TRAILED,
{
    crate::omm::lemma_first_index_of_found(layer.cat_ids(), norad_id);
    if let Some(i) = first_index_of(layer.cat_ids(), norad_id) {
        lemma_count_both_update_second(layer.selected@, layer.trailed@, i, on);
    }
}

/// Selecting one object, or not, never takes the objects drawn past
/// [`MAX_TRACKED`].
pub proof fn selections_stay_within_budget(layer: EphemerisLayer, norad_id: u64, on: bool)
    requires
        layer.wf(),
    ensures
        select_effect(layer, norad_id, on) matches Some((selected, _)) ==> count_true(selected)
            <= MAX_TRACKED,
{
    crate::omm::lemma_first_index_of_found(layer.cat_ids(), norad_id);
    if let Some(i) = first_index_of(layer.cat_ids(), norad_id) {
        lemma_count_true_update(layer.selected@, i, on);
    }
}


proof fn lemma_resolves_to(ids: Seq<u64>, wanted: Set<u64>, selected: Seq<bool>)
    requires
        selected.len() == ids.len(),
        count_true(selected) <= MAX_TRACKED,
        forall|i: int| 0 <= i < ids.len() ==> (wanted.contains(ids[i]) <==> selected[i]),
    ensures
        resolved(ids, SelectionView::Only(wanted)).0 == selected,
    decreases ids.len(),
{
    if ids.len() > 0 {
        let n = ids.len() - 1;
        let prefix = selected.drop_last();
        assert forall|i: int| 0 <= i < ids.drop_last().len() implies (wanted.contains(ids.drop_last()[i])
            <==> prefix[i]) by {
            assert(ids.drop_last()[i] == ids[i]);
            assert(prefix[i] == selected[i]);
        }
        lemma_count_true_drop_many(selected);
        lemma_resolves_to(ids.drop_last(), wanted, prefix);
        assert(wanted.contains(ids[n]) == selected[n]);
        assert(selected =~= prefix.push(selected[n]));
    } else {
        assert(selected =~= Seq::<bool>::empty());
    }
}

/// A refresh keeps the choice: once objects are toggled one by one, the
/// selection a layer asks for is the objects it draws, and applying that to a
/// catalogue holding the same objects draws exactly those again — as long as
/// no catalogue number appears twice.
pub proof fn an_explicit_selection_survives_a_refresh(ids: Seq<u64>, selected: Seq<bool>)
    requires
        selected.len() == ids.len(),
        count_true(selected) <= MAX_TRACKED,
        forall|i: int, j: int| 0 <= i < j < ids.len() ==> ids[i] != ids[j],
    ensures
        resolved(ids, SelectionView::Only(drawn_ids(ids, selected))).0 == selected,
{
    let drawn = drawn_ids(ids, selected);
    assert forall|i: int| 0 <= i < ids.len() implies (drawn.contains(ids[i]) <==> selected[i]) by {
        if drawn.contains(ids[i]) {
            let j = choose|j: int| 0 <= j < ids.len() && j < selected.len() && selected[j] && ids[j] == ids[i];
            if j < i {
                assert(ids[j] != ids[i]);
            } else if j > i {
                assert(ids[i] != ids[j]);
            }
        }
    }
    lemma_resolves_to(ids, drawn, selected);
}

} // verus!

//! What the imagery streamer remembers from one frame to the next: which tiles
//! have been asked for, which have arrived, and when each was last drawn.
//!
//! Each frame runs the same course. [`TileCache::begin_frame`] starts it, and
//! drops everything when the layer changed or imagery was switched off.
//! Finished loads are settled with [`TileCache::settle`]. The walk down the
//! quadtree decides which tiles the view needs; for each of those,
//! [`TileCache::fallback`] finds the finest imagery that has actually arrived
//! along the branch, and lists what is missing on the way up.
//! [`TileCache::request`] asks for the missing tiles, coarse ones first and
//! never more than the budgets allow, and [`TileCache::finish_frame`] marks
//! what was drawn, counts what the readout shows and retires whatever the view
//! has not wanted for [`RETIRE_AFTER_FRAMES`] frames.
use vstd::prelude::*;

use crate::tiles::{TileId, spec_tile_path, tile_asset_path};

verus! {

/// The most tiles loading at once.
pub const MAX_TILES_IN_FLIGHT: usize = 24;

/// The most new tiles asked for in one frame.
pub const MAX_NEW_REQUESTS_PER_FRAME: usize = 6;

/// How many frames a tile may go unwanted before it is dropped.
pub const RETIRE_AFTER_FRAMES: u64 = 240;

/// Where one tile's imagery is.
#[derive(Debug, Clone, Copy, PartialEq, Eq, Structural)]
pub enum TileState {
    Pending,
    Ready,
    Failed,
}

/// One tile that has been asked for.
#[derive(Debug, Clone, Copy, PartialEq, Eq, Structural)]
pub struct TileSlot {
    pub tile: TileId,
    pub state: TileState,
    /// The last frame the tile was drawn in, or asked for in.
    pub last_used: u64,
    /// Whether the tile has been given something to draw it with.
    pub drawn: bool,
}

/// Every tile asked for, at most once each.
pub struct TileCache {
    slots: Vec<TileSlot>,
    frame: u64,
    generation: u32,
    visible_tiles: usize,
    loading_tiles: usize,
    deepest_level: u8,
}

// ---------------------------------------------------------------------------
// The model
// ---------------------------------------------------------------------------

/// The order requests go out in: coarse levels first, then by column, then by
/// row.
pub open spec fn tile_lt(a: TileId, b: TileId) -> bool {
    ||| a.level < b.level
    ||| a.level == b.level && a.x < b.x
    ||| a.level == b.level && a.x == b.x && a.y < b.y
}

pub open spec fn strictly_ascending(s: Seq<TileId>) -> bool {
    forall|i: int, j: int| 0 <= i < j < s.len() ==> tile_lt(s[i], s[j])
}

/// A set of tiles written out once each, in request order.
pub open spec fn ascending(tiles: Set<TileId>) -> Seq<TileId> {
    choose|s: Seq<TileId>| strictly_ascending(s) && s.to_set() == tiles
}

pub open spec fn tiles_of(slots: Seq<TileSlot>) -> Seq<TileId> {
    slots.map_values(|s: TileSlot| s.tile)
}

pub open spec fn is_requested(slots: Seq<TileSlot>, tile: TileId) -> bool {
    exists|i: int| 0 <= i < slots.len() && (#[trigger] slots[i]).tile == tile
}

pub open spec fn is_ready(slots: Seq<TileSlot>, tile: TileId) -> bool {
    exists|i: int| 0 <= i < slots.len() && (#[trigger] slots[i]).tile == tile && slots[i].state == TileState::Ready
}

/// Where the slot for a tile is.
pub open spec fn slot_index(slots: Seq<TileSlot>, tile: TileId) -> Option<int> {
    if is_requested(slots, tile) {
        Some(choose|i: int| 0 <= i < slots.len() && (#[trigger] slots[i]).tile == tile)
    } else {
        None
    }
}

/// What the view draws for a tile it needs: the tile itself if its imagery has
/// arrived, and otherwise the nearest ancestor whose imagery has, or nothing.
/// Alongside, every tile on the way up that has not been asked for yet, finest
/// first.
pub open spec fn walk(slots: Seq<TileSlot>, tile: TileId) -> (Option<TileId>, Seq<TileId>)
    decreases tile.level,
{
    if is_ready(slots, tile) {
        (Some(tile), Seq::empty())
    } else {
        let here = if is_requested(slots, tile) {
            Seq::empty()
        } else {
            seq![tile]
        };
        if tile.level > 0 {
            let (drawn, wanted) = walk(slots, tile.spec_parent()->0);
            (drawn, here + wanted)
        } else {
            (None, here)
        }
    }
}

/// The tiles asked for, in the order given, skipping those already asked for
/// and stopping at either budget.
pub open spec fn plan(requested: Set<TileId>, wanted: Seq<TileId>, in_flight: nat, issued: nat) -> Seq<
    TileId,
>
    decreases wanted.len(),
{
    if wanted.len() == 0 || issued >= MAX_NEW_REQUESTS_PER_FRAME || in_flight >= MAX_TILES_IN_FLIGHT {
        Seq::empty()
    } else if requested.contains(wanted[0]) {
        plan(requested, wanted.drop_first(), in_flight, issued)
    } else {
        seq![wanted[0]] + plan(requested.insert(wanted[0]), wanted.drop_first(), in_flight + 1, issued + 1)
    }
}

pub open spec fn pending_count(slots: Seq<TileSlot>) -> nat
    decreases slots.len(),
{
    if slots.len() == 0 {
        0
    } else {
        pending_count(slots.drop_last()) + if slots.last().state == TileState::Pending {
            1nat
        } else {
            0nat
        }
    }
}

/// A fresh slot for a tile just asked for.
pub open spec fn fresh(tile: TileId, frame: u64) -> TileSlot {
    TileSlot { tile, state: TileState::Pending, last_used: frame, drawn: false }
}

/// A slot once the frame's selection is known: drawn now, and used this frame,
/// if it was selected and its imagery is there.
pub open spec fn touch(slot: TileSlot, selected: Set<TileId>, frame: u64) -> TileSlot {
    if selected.contains(slot.tile) && slot.state == TileState::Ready {
        TileSlot { last_used: frame, drawn: true, ..slot }
    } else {
        slot
    }
}

pub open spec fn touch_all(slots: Seq<TileSlot>, selected: Set<TileId>, frame: u64) -> Seq<TileSlot> {
    slots.map_values(|s: TileSlot| touch(s, selected, frame))
}

/// The selected tiles whose imagery is there and that have nothing to draw
/// them with yet, in slot order.
pub open spec fn newly_drawn(slots: Seq<TileSlot>, selected: Set<TileId>) -> Seq<TileId>
    decreases slots.len(),
{
    if slots.len() == 0 {
        Seq::empty()
    } else {
        let rest = newly_drawn(slots.drop_last(), selected);
        let s = slots.last();
        if selected.contains(s.tile) && s.state == TileState::Ready && !s.drawn {
            rest.push(s.tile)
        } else {
            rest
        }
    }
}

/// How many drawn tiles are selected.
pub open spec fn visible_count(slots: Seq<TileSlot>, selected: Set<TileId>) -> nat
    decreases slots.len(),
{
    if slots.len() == 0 {
        0
    } else {
        visible_count(slots.drop_last(), selected) + if slots.last().drawn && selected.contains(
            slots.last().tile,
        ) {
            1nat
        } else {
            0nat
        }
    }
}

/// Whether a tile has gone unwanted for too long.
pub open spec fn stale(slot: TileSlot, frame: u64) -> bool {
    slot.last_used + RETIRE_AFTER_FRAMES < frame
}

pub open spec fn kept(slots: Seq<TileSlot>, frame: u64) -> Seq<TileSlot>
    decreases slots.len(),
{
    if slots.len() == 0 {
        Seq::empty()
    } else {
        let rest = kept(slots.drop_last(), frame);
        if stale(slots.last(), frame) {
            rest
        } else {
            rest.push(slots.last())
        }
    }
}

pub open spec fn retired(slots: Seq<TileSlot>, frame: u64) -> Seq<TileId>
    decreases slots.len(),
{
    if slots.len() == 0 {
        Seq::empty()
    } else {
        let rest = retired(slots.drop_last(), frame);
        if stale(slots.last(), frame) {
            rest.push(slots.last().tile)
        } else {
            rest
        }
    }
}

/// The finest level among the selected tiles, or 0 for none.
pub open spec fn deepest(selected: Seq<TileId>) -> u8
    decreases selected.len(),
{
    if selected.len() == 0 {
        0
    } else {
        let rest = deepest(selected.drop_last());
        if selected.last().level > rest {
            selected.last().level
        } else {
            rest
        }
    }
}

// ---------------------------------------------------------------------------
// Lemmas
// ---------------------------------------------------------------------------

/// Two strictly ascending sequences holding the same tiles are the same.
proof fn lemma_ascending_unique(a: Seq<TileId>, b: Seq<TileId>)
    requires
        strictly_ascending(a),
        strictly_ascending(b),
        forall|t: TileId| a.contains(t) <==> b.contains(t),
    ensures
        a == b,
    decreases a.len(),
{
    if a.len() == 0 {
        if b.len() > 0 {
            assert(b.contains(b[0]));
        }
        assert(a =~= b);
    } else {
        assert(a.contains(a[0]));
        assert(b.len() > 0);
        assert(b.contains(b[0]));
        let ia = choose|i: int| 0 <= i < a.len() && a[i] == b[0];
        let ib = choose|i: int| 0 <= i < b.len() && b[i] == a[0];
        if ia > 0 {
            assert(tile_lt(a[0], a[ia]));
            if ib > 0 {
                assert(tile_lt(b[0], b[ib]));
            }
        }
        assert(a[0] == b[0]);
        let ta = a.drop_first();
        let tb = b.drop_first();
        assert forall|t: TileId| ta.contains(t) <==> tb.contains(t) by {
            if ta.contains(t) {
                let i = choose|i: int| 0 <= i < ta.len() && ta[i] == t;
                assert(a[i + 1] == t);
                assert(tile_lt(a[0], a[i + 1]));
                assert(a.contains(t));
                let j = choose|j: int| 0 <= j < b.len() && b[j] == t;
                assert(j != 0);
                assert(tb[j - 1] == t);
            }
            if tb.contains(t) {
                let i = choose|i: int| 0 <= i < tb.len() && tb[i] == t;
                assert(b[i + 1] == t);
                assert(tile_lt(b[0], b[i + 1]));
                assert(b.contains(t));
                let j = choose|j: int| 0 <= j < a.len() && a[j] == t;
                assert(j != 0);
                assert(ta[j - 1] == t);
            }
        }
        lemma_ascending_unique(ta, tb);
        assert(a =~= seq![a[0]] + ta);
        assert(b =~= seq![b[0]] + tb);
    }
}

/// Any strictly ascending sequence of a set is the one [`ascending`] names.
proof fn lemma_ascending_is(tiles: Set<TileId>, s: Seq<TileId>)
    requires
        strictly_ascending(s),
        s.to_set() == tiles,
    ensures
        ascending(tiles) == s,
{
    let c = ascending(tiles);
    assert(strictly_ascending(c) && c.to_set() == tiles);
    assert forall|t: TileId| c.contains(t) <==> s.contains(t) by {
        assert(c.to_set().contains(t) == c.contains(t));
        assert(s.to_set().contains(t) == s.contains(t));
    }
    lemma_ascending_unique(c, s);
}

proof fn lemma_requested_index(slots: Seq<TileSlot>, tile: TileId, k: int)
    requires
        0 <= k < slots.len(),
        slots[k].tile == tile,
        forall|i: int, j: int| 0 <= i < j < slots.len() ==> slots[i].tile != slots[j].tile,
    ensures
        slot_index(slots, tile) == Some(k),
{
    let c = choose|i: int| 0 <= i < slots.len() && (#[trigger] slots[i]).tile == tile;
    if c < k {
        assert(slots[c].tile != slots[k].tile);
    }
    if c > k {
        assert(slots[k].tile != slots[c].tile);
    }
}

// ---------------------------------------------------------------------------
// The cache
// ---------------------------------------------------------------------------

impl TileCache {
    pub closed spec fn slots(&self) -> Seq<TileSlot> {
        self.slots@
    }

    pub closed spec fn spec_frame(&self) -> u64 {
        self.frame
    }

    pub closed spec fn spec_generation(&self) -> u32 {
        self.generation
    }

    pub closed spec fn spec_visible_tiles(&self) -> usize {
        self.visible_tiles
    }

    pub closed spec fn spec_loading_tiles(&self) -> usize {
        self.loading_tiles
    }

    pub closed spec fn spec_deepest_level(&self) -> u8 {
        self.deepest_level
    }

    /// Every tile asked for at most once, and never used after the current
    /// frame.
    pub open spec fn wf(&self) -> bool {
        &&& forall|i: int, j: int|
            0 <= i < j < self.slots().len() ==> self.slots()[i].tile != self.slots()[j].tile
        &&& forall|i: int| 0 <= i < self.slots().len() ==> (#[trigger] self.slots()[i]).last_used <= self.spec_frame()
    }

    /// Nothing asked for, at frame 0 of generation 0.
    pub fn new() -> (cache: TileCache)
        ensures
            cache.wf(),
            cache.slots().len() == 0,
            cache.spec_frame() == 0,
            cache.spec_generation() == 0,
            cache.spec_visible_tiles() == 0,
            cache.spec_loading_tiles() == 0,
            cache.spec_deepest_level() == 0,
    {
        TileCache {
            slots: Vec::new(),
            frame: 0,
            generation: 0,
            visible_tiles: 0,
            loading_tiles: 0,
            deepest_level: 0,
        }
    }

    /// The tiles asked for, in the order they were asked for.
    pub fn slot_list(&self) -> (slots: &Vec<TileSlot>)
        ensures
            slots@ == self.slots(),
    {
        &self.slots
    }

    pub fn frame(&self) -> (frame: u64)
        ensures
            frame == self.spec_frame(),
    {
        self.frame
    }

    pub fn generation(&self) -> (generation: u32)
        ensures
            generation == self.spec_generation(),
    {
        self.generation
    }

    /// How many tiles were shown last frame.
    pub fn visible_tiles(&self) -> (n: usize)
        ensures
            n == self.spec_visible_tiles(),
    {
        self.visible_tiles
    }

    /// How many tiles were still loading last frame.
    pub fn loading_tiles(&self) -> (n: usize)
        ensures
            n == self.spec_loading_tiles(),
    {
        self.loading_tiles
    }

    /// The finest level selected last frame.
    pub fn deepest_level(&self) -> (level: u8)
        ensures
            level == self.spec_deepest_level(),
    {
        self.deepest_level
    }

    /// Where the slot for a tile is.
    fn index_of(&self, tile: TileId) -> (k: Option<usize>)
        requires
            self.wf(),
        ensures
            match k {
                Some(k) => slot_index(self.slots(), tile) == Some(k as int) && k < self.slots().len()
                    && self.slots()[k as int].tile == tile,
                None => !is_requested(self.slots(), tile),
            },
    {
        let mut i: usize = 0;
        while i < self.slots.len()
            invariant
                self.wf(),
                i <= self.slots@.len(),
                forall|j: int| 0 <= j < i ==> self.slots@[j].tile != tile,
            decreases self.slots@.len() - i,
        {
            if self.slots[i].tile == tile {
                proof {
                    lemma_requested_index(self.slots@, tile, i as int);
                }
                return Some(i);
            }
            i = i + 1;
        }
        None
    }

    /// Whether a tile has been asked for.
    pub fn is_requested(&self, tile: TileId) -> (requested: bool)
        requires
            self.wf(),
        ensures
            requested == is_requested(self.slots(), tile),
    {
        self.index_of(tile).is_some()
    }

    /// Whether a tile's imagery has arrived.
    pub fn is_ready(&self, tile: TileId) -> (ready: bool)
        requires
            self.wf(),
        ensures
            ready == is_ready(self.slots(), tile),
    {
        match self.index_of(tile) {
            Some(k) => {
                let ready = self.slots[k].state == TileState::Ready;
                proof {
                    if is_ready(self.slots(), tile) {
                        let i = choose|i: int|
                            0 <= i < self.slots().len() && (#[trigger] self.slots()[i]).tile == tile
                                && self.slots()[i].state == TileState::Ready;
                        if i != k {
                            if i < k {
                                assert(self.slots()[i].tile != self.slots()[k as int].tile);
                            } else {
                                assert(self.slots()[k as int].tile != self.slots()[i].tile);
                            }
                        }
                    }
                }
                ready
            },
            None => false,
        }
    }
}


impl TileCache {
    /// Starts a frame. Everything asked for is dropped when the layer's
    /// generation moved — every cached path then names imagery of a layer that
    /// is gone — and when imagery is off, which also zeroes the counters.
    /// Returns the tiles dropped, in slot order.
    pub fn begin_frame(&mut self, generation: u32, enabled: bool) -> (dropped: Vec<TileId>)
        requires
            old(self).wf(),
            old(self).spec_frame() < u64::MAX,
        ensures
            final(self).wf(),
            final(self).spec_frame() == old(self).spec_frame() + 1,
            final(self).spec_generation() == generation,
            (old(self).spec_generation() != generation || !enabled) ==> {
                &&& final(self).slots().len() == 0
                &&& dropped@ == tiles_of(old(self).slots())
            },
            !(old(self).spec_generation() != generation || !enabled) ==> {
                &&& final(self).slots() == old(self).slots()
                &&& dropped@.len() == 0
            },
            !enabled ==> final(self).spec_visible_tiles() == 0 && final(self).spec_loading_tiles()
                == 0 && final(self).spec_deepest_level() == 0,
            enabled ==> final(self).spec_visible_tiles() == old(self).spec_visible_tiles()
                && final(self).spec_loading_tiles() == old(self).spec_loading_tiles()
                && final(self).spec_deepest_level() == old(self).spec_deepest_level(),
    {
        self.frame = self.frame + 1;
        let mut dropped: Vec<TileId> = Vec::new();
        if self.generation != generation || !enabled {
            let mut i: usize = 0;
            while i < self.slots.len()
                invariant
                    i <= self.slots@.len(),
                    dropped@ == tiles_of(self.slots@).take(i as int),
                decreases self.slots@.len() - i,
            {
                dropped.push(self.slots[i].tile);
                assert(dropped@ =~= tiles_of(self.slots@).take(i + 1));
                i = i + 1;
            }
            assert(tiles_of(self.slots@).take(self.slots@.len() as int) =~= tiles_of(self.slots@));
            self.slots = Vec::new();
        }
        self.generation = generation;
        if !enabled {
            self.visible_tiles = 0;
            self.loading_tiles = 0;
            self.deepest_level = 0;
        }
        dropped
    }

    /// Records that a tile's load finished, or failed. Only a tile still
    /// loading is moved; returns whether this one was.
    pub fn settle(&mut self, tile: TileId, loaded: bool) -> (settled: bool)
        requires
            old(self).wf(),
        ensures
            final(self).wf(),
            settled == match slot_index(old(self).slots(), tile) {
                Some(k) => old(self).slots()[k].state == TileState::Pending,
                None => false,
            },
            settled ==> {
                let k = slot_index(old(self).slots(), tile)->0;
                final(self).slots() == old(self).slots().update(
                    k,
                    TileSlot {
                        state: if loaded {
                            TileState::Ready
                        } else {
                            TileState::Failed
                        },
                        ..old(self).slots()[k]
                    },
                )
            },
            !settled ==> final(self).slots() == old(self).slots(),
            final(self).spec_frame() == old(self).spec_frame(),
            final(self).spec_generation() == old(self).spec_generation(),
            final(self).spec_visible_tiles() == old(self).spec_visible_tiles(),
            final(self).spec_loading_tiles() == old(self).spec_loading_tiles(),
            final(self).spec_deepest_level() == old(self).spec_deepest_level(),
    {
        let Some(k) = self.index_of(tile) else {
            return false;
        };
        if self.slots[k].state != TileState::Pending {
            return false;
        }
        let mut slot = self.slots[k];
        slot.state = if loaded {
            TileState::Ready
        } else {
            TileState::Failed
        };
        self.slots.set(k, slot);
        true
    }

    /// For a tile the view needs at its level: the finest imagery that has
    /// arrived along its branch, if any, and every tile on the way up that
    /// has not been asked for yet, finest first.
    pub fn fallback(&self, tile: TileId) -> (found: (Option<TileId>, Vec<TileId>))
        requires
            self.wf(),
        ensures
            (found.0, found.1@) == walk(self.slots(), tile),
    {
        let mut current = tile;
        let mut wanted: Vec<TileId> = Vec::new();
        loop
            invariant
                self.wf(),
                walk(self.slots(), tile) == (walk(self.slots(), current).0, wanted@ + walk(self.slots(), current).1),
            decreases current.level,
        {
            if self.is_ready(current) {
                assert(wanted@ + Seq::<TileId>::empty() =~= wanted@);
                return (Some(current), wanted);
            }
            let ghost before = wanted@;
            if !self.is_requested(current) {
                wanted.push(current);
            }
            match current.parent() {
                Some(parent) => {
                    proof {
                        let here = if is_requested(self.slots(), current) {
                            Seq::<TileId>::empty()
                        } else {
                            seq![current]
                        };
                        assert(wanted@ =~= before + here);
                        assert(before + (here + walk(self.slots(), parent).1) =~= wanted@ + walk(self.slots(), parent).1);
                    }
                    current = parent;
                },
                None => {
                    proof {
                        let here = if is_requested(self.slots(), current) {
                            Seq::<TileId>::empty()
                        } else {
                            seq![current]
                        };
                        assert(wanted@ =~= before + here);
                    }
                    return (None, wanted);
                },
            }
        }
    }
}

fn tile_before(a: TileId, b: TileId) -> (before: bool)
    ensures
        before == tile_lt(a, b),
{
    a.level < b.level || (a.level == b.level && (a.x < b.x || (a.x == b.x && a.y < b.y)))
}

/// The tiles asked for, once each, coarse levels first.
pub fn ascending_tiles(wanted: &Vec<TileId>) -> (sorted: Vec<TileId>)
    ensures
        strictly_ascending(sorted@),
        sorted@.to_set() == wanted@.to_set(),
        sorted@ == ascending(wanted@.to_set()),
{
    let mut sorted: Vec<TileId> = Vec::new();
    let mut i: usize = 0;
    while i < wanted.len()
        invariant
            i <= wanted@.len(),
            strictly_ascending(sorted@),
            forall|t: TileId| sorted@.contains(t) <==> wanted@.take(i as int).contains(t),
        decreases wanted@.len() - i,
    {
        let w = wanted[i];
        let mut p: usize = 0;
        while p < sorted.len() && tile_before(sorted[p], w)
            invariant
                p <= sorted@.len(),
                forall|j: int| 0 <= j < p ==> tile_lt(sorted@[j], w),
            decreases sorted@.len() - p,
        {
            p = p + 1;
        }
        let ghost old_sorted = sorted@;
        proof {
            let longer = wanted@.take(i + 1);
            let shorter = wanted@.take(i as int);
            assert forall|t: TileId| longer.contains(t) <==> (shorter.contains(t) || t == w) by {
                if longer.contains(t) {
                    let j = choose|j: int| 0 <= j < longer.len() && longer[j] == t;
                    if j < i {
                        assert(shorter[j] == t);
                    }
                }
                if shorter.contains(t) {
                    let j = choose|j: int| 0 <= j < shorter.len() && shorter[j] == t;
                    assert(longer[j] == t);
                }
                if t == w {
                    assert(longer[i as int] == t);
                }
            }
        }
        if p < sorted.len() && sorted[p] == w {
            proof {
                assert(sorted@.contains(w));
            }
        } else {
            sorted.insert(p, w);
            proof {
                let s = sorted@;
                assert(s == old_sorted.insert(p as int, w));
                if p < old_sorted.len() {
                    assert(!tile_lt(old_sorted[p as int], w));
                    assert(old_sorted[p as int] != w);
                    assert(tile_lt(w, old_sorted[p as int]));
                }
                assert forall|a: int, b: int| 0 <= a < b < s.len() implies tile_lt(s[a], s[b]) by {
                    if b < p {
                        assert(s[a] == old_sorted[a] && s[b] == old_sorted[b]);
                    } else if b == p {
                        assert(s[a] == old_sorted[a]);
                    } else if a < p {
                        assert(s[a] == old_sorted[a] && s[b] == old_sorted[b - 1]);
                        assert(tile_lt(old_sorted[a], w));
                        if b - 1 > p {
                            assert(tile_lt(old_sorted[p as int], old_sorted[b - 1]));
                        }
                    } else if a == p {
                        assert(s[b] == old_sorted[b - 1]);
                        if b - 1 > p {
                            assert(tile_lt(old_sorted[p as int], old_sorted[b - 1]));
                        }
                    } else {
                        assert(s[a] == old_sorted[a - 1] && s[b] == old_sorted[b - 1]);
                    }
                }
                assert forall|t: TileId| s.contains(t) <==> (old_sorted.contains(t) || t == w) by {
                    if s.contains(t) {
                        let j = choose|j: int| 0 <= j < s.len() && s[j] == t;
                        if j < p {
                            assert(old_sorted[j] == t);
                        } else if j > p {
                            assert(old_sorted[j - 1] == t);
                        }
                    }
                    if old_sorted.contains(t) {
                        let j = choose|j: int| 0 <= j < old_sorted.len() && old_sorted[j] == t;
                        if j < p {
                            assert(s[j] == t);
                        } else {
                            assert(s[j + 1] == t);
                        }
                    }
                    if t == w {
                        assert(s[p as int] == w);
                    }
                }
            }
        }
        i = i + 1;
    }
    proof {
        assert(wanted@.take(wanted@.len() as int) =~= wanted@);
        assert(sorted@.to_set() =~= wanted@.to_set());
        lemma_ascending_is(wanted@.to_set(), sorted@);
    }
    sorted
}


/// The tiles asked for so far.
pub open spec fn requested_tiles(slots: Seq<TileSlot>) -> Set<TileId> {
    Set::new(|t: TileId| is_requested(slots, t))
}

proof fn lemma_requested_push(slots: Seq<TileSlot>, slot: TileSlot)
    ensures
        requested_tiles(slots.push(slot)) == requested_tiles(slots).insert(slot.tile),
{
    let pushed = slots.push(slot);
    assert forall|t: TileId| is_requested(pushed, t) <==> (is_requested(slots, t) || t == slot.tile) by {
        if is_requested(pushed, t) {
            let i = choose|i: int| 0 <= i < pushed.len() && (#[trigger] pushed[i]).tile == t;
            if i < slots.len() {
                assert(slots[i].tile == t);
            }
        }
        if is_requested(slots, t) {
            let i = choose|i: int| 0 <= i < slots.len() && (#[trigger] slots[i]).tile == t;
            assert(pushed[i].tile == t);
        }
        if t == slot.tile {
            assert(pushed[slots.len() as int].tile == t);
        }
    }
    assert(requested_tiles(pushed) =~= requested_tiles(slots).insert(slot.tile));
}



/// Every slot kept was there before.
proof fn lemma_kept_from(slots: Seq<TileSlot>, frame: u64)
    ensures
        forall|i: int| 0 <= i < kept(slots, frame).len() ==> slots.contains(#[trigger] kept(slots, frame)[i]),
        forall|i: int| 0 <= i < kept(slots, frame).len() ==> !stale(#[trigger] kept(slots, frame)[i], frame),
    decreases slots.len(),
{
    if slots.len() > 0 {
        let rest = slots.drop_last();
        lemma_kept_from(rest, frame);
        let k = kept(slots, frame);
        assert forall|i: int| 0 <= i < k.len() implies slots.contains(#[trigger] k[i]) by {
            if i < kept(rest, frame).len() {
                assert(k[i] == kept(rest, frame)[i]);
                let j = choose|j: int| 0 <= j < rest.len() && rest[j] == k[i];
                assert(slots[j] == k[i]);
            } else {
                assert(slots[slots.len() - 1] == k[i]);
            }
        }
    }
}

/// Keeping some slots keeps the tiles distinct.
proof fn lemma_kept_unique(slots: Seq<TileSlot>, frame: u64)
    requires
        forall|i: int, j: int| 0 <= i < j < slots.len() ==> slots[i].tile != slots[j].tile,
    ensures
        forall|i: int, j: int|
            0 <= i < j < kept(slots, frame).len() ==> kept(slots, frame)[i].tile != kept(
                slots,
                frame,
            )[j].tile,
    decreases slots.len(),
{
    if slots.len() > 0 {
        let rest = slots.drop_last();
        lemma_kept_unique(rest, frame);
        lemma_kept_from(rest, frame);
        let k = kept(slots, frame);
        let kr = kept(rest, frame);
        assert forall|i: int, j: int| 0 <= i < j < k.len() implies k[i].tile != k[j].tile by {
            if j < kr.len() {
                assert(k[i] == kr[i] && k[j] == kr[j]);
            } else {
                assert(k[i] == kr[i]);
                assert(rest.contains(kr[i]));
                let m = choose|m: int| 0 <= m < rest.len() && rest[m] == kr[i];
                assert(slots[m].tile != slots[slots.len() - 1].tile);
            }
        }
    }
}

fn selects(selected: &Vec<TileId>, tile: TileId) -> (found: bool)
    ensures
        found == selected@.contains(tile),
{
    let mut i: usize = 0;
    while i < selected.len()
        invariant
            i <= selected@.len(),
            forall|j: int| 0 <= j < i ==> selected@[j] != tile,
        decreases selected@.len() - i,
    {
        if selected[i] == tile {
            return true;
        }
        i = i + 1;
    }
    false
}

impl TileCache {
    /// Asks for the tiles the view is missing: once each, coarse levels
    /// first — they cover the most ground per request, so they are what turns
    /// an empty view into a complete one soonest — skipping what has been
    /// asked for, and stopping at [`MAX_NEW_REQUESTS_PER_FRAME`] new requests
    /// or [`MAX_TILES_IN_FLIGHT`] loading. Each tile asked for comes back with
    /// the path to load it from: `{source}://` and its tile path.
    pub fn request(&mut self, wanted: &Vec<TileId>, source: &str, extension: &str) -> (requests: Vec<(TileId, String)>)
        requires
            old(self).wf(),
        ensures
            final(self).wf(),
            ({
                let issued = plan(
                    requested_tiles(old(self).slots()),
                    ascending(wanted@.to_set()),
                    pending_count(old(self).slots()),
                    0,
                );
                &&& requests@.map_values(|r: (TileId, String)| r.0) == issued
                &&& final(self).slots() == old(self).slots() + issued.map_values(
                    |t: TileId| fresh(t, old(self).spec_frame()),
                )
            }),
            forall|i: int|
                0 <= i < requests@.len() ==> (#[trigger] requests@[i]).1@ == source@ + "://"@ + spec_tile_path(
                    old(self).spec_generation() as nat,
                    requests@[i].0,
                    extension@,
                ),
            final(self).spec_frame() == old(self).spec_frame(),
            final(self).spec_generation() == old(self).spec_generation(),
            final(self).spec_visible_tiles() == old(self).spec_visible_tiles(),
            final(self).spec_loading_tiles() == old(self).spec_loading_tiles(),
            final(self).spec_deepest_level() == old(self).spec_deepest_level(),
    {
        let sorted = ascending_tiles(wanted);
        let ghost old_slots = self.slots@;
        let ghost total = plan(requested_tiles(old_slots), sorted@, pending_count(old_slots), 0);
        let mut in_flight: usize = 0;
        let mut k: usize = 0;
        while k < self.slots.len()
            invariant
                k <= self.slots@.len(),
                in_flight == pending_count(self.slots@.take(k as int)),
                in_flight <= k,
            decreases self.slots@.len() - k,
        {
            assert(self.slots@.take(k + 1).drop_last() =~= self.slots@.take(k as int));
            if self.slots[k].state == TileState::Pending {
                in_flight = in_flight + 1;
            }
            k = k + 1;
        }
        assert(self.slots@.take(self.slots@.len() as int) =~= self.slots@);
        let mut requests: Vec<(TileId, String)> = Vec::new();
        let mut issued: usize = 0;
        let mut i: usize = 0;
        let ghost mut out: Seq<TileId> = Seq::empty();
        assert(sorted@.skip(0) =~= sorted@);
        assert(out + total =~= total);
        assert(old_slots + out.map_values(|t: TileId| fresh(t, old(self).spec_frame())) =~= old_slots);
        while i < sorted.len() && issued < MAX_NEW_REQUESTS_PER_FRAME && in_flight < MAX_TILES_IN_FLIGHT
            invariant
                self.wf(),
                self.frame == old(self).spec_frame(),
                self.generation == old(self).spec_generation(),
                self.visible_tiles == old(self).spec_visible_tiles(),
                self.loading_tiles == old(self).spec_loading_tiles(),
                self.deepest_level == old(self).spec_deepest_level(),
                old_slots == old(self).slots(),
                total == plan(requested_tiles(old_slots), sorted@, pending_count(old_slots), 0),
                i <= sorted@.len(),
                issued == out.len(),
                in_flight == pending_count(old_slots) + out.len(),
                self.slots@ == old_slots + out.map_values(|t: TileId| fresh(t, old(self).spec_frame())),
                requests@.map_values(|r: (TileId, String)| r.0) == out,
                out + plan(requested_tiles(self.slots@), sorted@.skip(i as int), in_flight as nat, issued as nat) == total,
                forall|j: int|
                    0 <= j < requests@.len() ==> (#[trigger] requests@[j]).1@ == source@ + "://"@ + spec_tile_path(
                        old(self).spec_generation() as nat,
                        requests@[j].0,
                        extension@,
                    ),
            decreases sorted@.len() - i,
        {
            let tile = sorted[i];
            let ghost rest = sorted@.skip(i as int);
            assert(rest[0] == tile);
            assert(rest.drop_first() =~= sorted@.skip(i + 1));
            let requested = self.is_requested(tile);
            proof {
                assert(requested_tiles(self.slots@).contains(tile) == requested);
            }
            if !requested {
                let ghost before = self.slots@;
                let slot = TileSlot { tile, state: TileState::Pending, last_used: self.frame, drawn: false };
                self.slots.push(slot);
                let path = tile_asset_path(source, self.generation, tile, extension);
                let ghost old_requests = requests@;
                requests.push((tile, path));
                proof {
                    lemma_requested_push(before, slot);
                    assert(out.push(tile) + plan(requested_tiles(self.slots@), sorted@.skip(i + 1), (in_flight + 1) as nat, (issued + 1) as nat)
                        =~= out + (seq![tile] + plan(requested_tiles(before).insert(tile), rest.drop_first(), (in_flight + 1) as nat, (issued + 1) as nat)));
                    out = out.push(tile);
                    assert(requests@.map_values(|r: (TileId, String)| r.0) =~= out);
                    assert(self.slots@ =~= old_slots + out.map_values(|t: TileId| fresh(t, old(self).spec_frame())));
                    assert forall|a: int, b: int| 0 <= a < b < self.slots@.len() implies self.slots@[a].tile
                        != self.slots@[b].tile by {
                        if b == before.len() {
                            assert(before[a].tile == self.slots@[a].tile);
                            assert(is_requested(before, before[a].tile));
                        } else {
                            assert(before[a] == self.slots@[a] && before[b] == self.slots@[b]);
                        }
                    }
                    assert forall|a: int| 0 <= a < self.slots@.len() implies (#[trigger] self.slots@[a]).last_used
                        <= self.frame by {
                        if a < before.len() {
                            assert(before[a] == self.slots@[a]);
                        }
                    }
                }
                in_flight = in_flight + 1;
                issued = issued + 1;
            }
            i = i + 1;
        }
        proof {
            if i == sorted@.len() {
                assert(sorted@.skip(i as int).len() == 0);
            }
            assert(out + Seq::<TileId>::empty() =~= out);
        }
        requests
    }

    /// Ends a frame once its selection is known. Each selected tile whose
    /// imagery is there is marked used this frame, and drawn; the tiles that
    /// were not drawn before come back first, for the caller to give something
    /// to draw them with. The readout's counters are set, and every tile the
    /// view has not used for [`RETIRE_AFTER_FRAMES`] frames is dropped and
    /// comes back second.
    pub fn finish_frame(&mut self, selected: &Vec<TileId>) -> (changes: (Vec<TileId>, Vec<TileId>))
        requires
            old(self).wf(),
        ensures
            final(self).wf(),
            ({
                let touched = touch_all(old(self).slots(), selected@.to_set(), old(self).spec_frame());
                &&& changes.0@ == newly_drawn(old(self).slots(), selected@.to_set())
                &&& final(self).slots() == kept(touched, old(self).spec_frame())
                &&& changes.1@ == retired(touched, old(self).spec_frame())
                &&& final(self).spec_visible_tiles() == visible_count(touched, selected@.to_set())
                &&& final(self).spec_loading_tiles() == pending_count(touched)
            }),
            final(self).spec_deepest_level() == deepest(selected@),
            final(self).spec_frame() == old(self).spec_frame(),
            final(self).spec_generation() == old(self).spec_generation(),
    {
        let ghost sel = selected@.to_set();
        let ghost old_slots = self.slots@;
        let ghost touched = touch_all(old_slots, sel, self.frame);
        let frame = self.frame;

        let mut deepest_level: u8 = 0;
        let mut d: usize = 0;
        while d < selected.len()
            invariant
                d <= selected@.len(),
                deepest_level == deepest(selected@.take(d as int)),
            decreases selected@.len() - d,
        {
            assert(selected@.take(d + 1).drop_last() =~= selected@.take(d as int));
            if selected[d].level > deepest_level {
                deepest_level = selected[d].level;
            }
            d = d + 1;
        }
        assert(selected@.take(selected@.len() as int) =~= selected@);

        let mut spawn: Vec<TileId> = Vec::new();
        let mut visible: usize = 0;
        let mut loading: usize = 0;
        let mut i: usize = 0;
        while i < self.slots.len()
            invariant
                self.frame == frame,
                self.generation == old(self).spec_generation(),
                frame == old(self).spec_frame(),
                old_slots == old(self).slots(),
                sel == selected@.to_set(),
                touched == touch_all(old_slots, sel, frame),
                self.slots@.len() == old_slots.len(),
                i <= old_slots.len(),
                forall|j: int| 0 <= j < i ==> self.slots@[j] == touched[j],
                forall|j: int| i <= j < old_slots.len() ==> self.slots@[j] == old_slots[j],
                spawn@ == newly_drawn(old_slots.take(i as int), sel),
                visible == visible_count(touched.take(i as int), sel),
                loading == pending_count(touched.take(i as int)),
                visible <= i,
                loading <= i,
            decreases old_slots.len() - i,
        {
            assert(old_slots.take(i + 1).drop_last() =~= old_slots.take(i as int));
            assert(touched.take(i + 1).drop_last() =~= touched.take(i as int));
            let mut slot = self.slots[i];
            let wanted = selects(selected, slot.tile);
            proof {
                assert(sel.contains(slot.tile) == selected@.contains(slot.tile));
            }
            if wanted && slot.state == TileState::Ready {
                if !slot.drawn {
                    spawn.push(slot.tile);
                }
                slot.last_used = frame;
                slot.drawn = true;
            }
            if slot.drawn && wanted {
                visible = visible + 1;
            }
            if slot.state == TileState::Pending {
                loading = loading + 1;
            }
            self.slots.set(i, slot);
            i = i + 1;
        }
        assert(old_slots.take(old_slots.len() as int) =~= old_slots);
        assert(touched.take(touched.len() as int) =~= touched);
        assert(self.slots@ =~= touched);

        let mut keep: Vec<TileSlot> = Vec::new();
        let mut retire: Vec<TileId> = Vec::new();
        let mut r: usize = 0;
        while r < self.slots.len()
            invariant
                self.slots@ == touched,
                self.frame == frame,
                self.generation == old(self).spec_generation(),
                frame == old(self).spec_frame(),
                r <= touched.len(),
                keep@ == kept(touched.take(r as int), frame),
                retire@ == retired(touched.take(r as int), frame),
            decreases touched.len() - r,
        {
            assert(touched.take(r + 1).drop_last() =~= touched.take(r as int));
            let slot = self.slots[r];
            if frame > RETIRE_AFTER_FRAMES && slot.last_used < frame - RETIRE_AFTER_FRAMES {
                retire.push(slot.tile);
            } else {
                keep.push(slot);
            }
            r = r + 1;
        }
        proof {
            assert(touched.take(touched.len() as int) =~= touched);
            assert forall|a: int, b: int| 0 <= a < b < touched.len() implies touched[a].tile != touched[b].tile by {
                assert(old_slots[a].tile != old_slots[b].tile);
            }
            lemma_kept_unique(touched, frame);
            lemma_kept_from(touched, frame);
            assert forall|a: int| 0 <= a < keep@.len() implies (#[trigger] keep@[a]).last_used <= frame by {
                assert(touched.contains(keep@[a]));
                let m = choose|m: int| 0 <= m < touched.len() && touched[m] == keep@[a];
                assert(old_slots[m].last_used <= frame);
            }
        }
        self.slots = keep;
        self.visible_tiles = visible;
        self.loading_tiles = loading;
        self.deepest_level = deepest_level;
        (spawn, retire)
    }
}


/// The deepest level a frame reports is the finest level among the tiles it
/// selected: no selected tile is deeper, and one of them is at it. With
/// nothing selected it is 0.
pub proof fn the_deepest_level_is_the_finest_selected(selected: Seq<TileId>)
    ensures
        forall|i: int| 0 <= i < selected.len() ==> (#[trigger] selected[i]).level <= deepest(selected),
        selected.len() > 0 ==> exists|i: int| 0 <= i < selected.len() && selected[i].level == deepest(
            selected,
        ),
        selected.len() == 0 ==> deepest(selected) == 0,
    decreases selected.len(),
{
    if selected.len() > 0 {
        let rest = selected.drop_last();
        the_deepest_level_is_the_finest_selected(rest);
        assert forall|i: int| 0 <= i < selected.len() implies (#[trigger] selected[i]).level <= deepest(
            selected,
        ) by {
            if i < rest.len() {
                assert(rest[i] == selected[i]);
            }
        }
        if selected.last().level <= deepest(rest) && rest.len() > 0 {
            let k = choose|k: int| 0 <= k < rest.len() && rest[k].level == deepest(rest);
            assert(selected[k] == rest[k]);
        } else {
            assert(selected[selected.len() - 1].level == deepest(selected));
        }
    }
}

/// Whether a slot shows on screen in a frame: it has something to draw it
/// with, and the frame selected its tile.
pub open spec fn shown(slot: TileSlot, selected: Set<TileId>) -> bool {
    slot.drawn && selected.contains(slot.tile)
}

/// The visible count is the number of slots that are drawn and selected: a
/// selected tile with nothing to draw it with is not counted, nor a drawn
/// one the frame did not select.
pub proof fn only_drawn_selected_tiles_are_visible(slots: Seq<TileSlot>, selected: Set<TileId>)
    ensures
        visible_count(slots, selected) == slots.filter(|s: TileSlot| shown(s, selected)).len(),
        visible_count(slots, selected) <= slots.len(),
        (forall|i: int| 0 <= i < slots.len() ==> !(#[trigger] slots[i]).drawn) ==> visible_count(
            slots,
            selected,
        ) == 0,
    decreases slots.len(),
{
    reveal_with_fuel(Seq::filter, 1);
    if slots.len() > 0 {
        only_drawn_selected_tiles_are_visible(slots.drop_last(), selected);
        if forall|i: int| 0 <= i < slots.len() ==> !(#[trigger] slots[i]).drawn {
            assert forall|i: int| 0 <= i < slots.drop_last().len() implies !(
            #[trigger] slots.drop_last()[i]).drawn by {
                assert(slots.drop_last()[i] == slots[i]);
            }
            assert(!slots[slots.len() - 1].drawn);
        }
    }
}

/// After a frame, a tile counts as visible only if the frame selected it and
/// its imagery has arrived — it was drawn before, or is ready now. A tile
/// still loading, or whose fetch failed, that was never drawn is not counted.
pub proof fn a_frame_shows_only_tiles_whose_imagery_arrived(
    slots: Seq<TileSlot>,
    selected: Set<TileId>,
    frame: u64,
)
    ensures
        visible_count(touch_all(slots, selected, frame), selected) == slots.filter(
            |s: TileSlot| (s.drawn || s.state == TileState::Ready) && selected.contains(s.tile),
        ).len(),
    decreases slots.len(),
{
    reveal_with_fuel(Seq::filter, 1);
    if slots.len() > 0 {
        let rest = slots.drop_last();
        a_frame_shows_only_tiles_whose_imagery_arrived(rest, selected, frame);
        let touched = touch_all(slots, selected, frame);
        assert(touched.drop_last() =~= touch_all(rest, selected, frame));
        assert(touched.last() == touch(slots.last(), selected, frame));
    }
}

/// One frame never asks for more than [`MAX_NEW_REQUESTS_PER_FRAME`] tiles,
/// never takes the tiles loading past [`MAX_TILES_IN_FLIGHT`], never asks
/// again for a tile already asked for, and asks in the order it was given.
pub proof fn requests_respect_the_budgets(
    requested: Set<TileId>,
    wanted: Seq<TileId>,
    in_flight: nat,
    issued: nat,
)
    requires
        issued <= MAX_NEW_REQUESTS_PER_FRAME,
    ensures
        issued + plan(requested, wanted, in_flight, issued).len() <= MAX_NEW_REQUESTS_PER_FRAME,
        in_flight < MAX_TILES_IN_FLIGHT ==> in_flight + plan(requested, wanted, in_flight, issued).len()
            <= MAX_TILES_IN_FLIGHT,
        in_flight >= MAX_TILES_IN_FLIGHT ==> plan(requested, wanted, in_flight, issued).len() == 0,
        forall|i: int|
            0 <= i < plan(requested, wanted, in_flight, issued).len() ==> !requested.contains(
                #[trigger] plan(requested, wanted, in_flight, issued)[i],
            ),
        forall|i: int|
            0 <= i < plan(requested, wanted, in_flight, issued).len() ==> wanted.contains(
                #[trigger] plan(requested, wanted, in_flight, issued)[i],
            ),
        strictly_ascending(wanted) ==> strictly_ascending(plan(requested, wanted, in_flight, issued)),
    decreases wanted.len(),
{
    let p = plan(requested, wanted, in_flight, issued);
    if wanted.len() == 0 || issued >= MAX_NEW_REQUESTS_PER_FRAME || in_flight >= MAX_TILES_IN_FLIGHT {
    } else {
        let rest = wanted.drop_first();
        if requested.contains(wanted[0]) {
            requests_respect_the_budgets(requested, rest, in_flight, issued);
            assert forall|i: int| 0 <= i < p.len() implies wanted.contains(#[trigger] p[i]) by {
                let j = choose|j: int| 0 <= j < rest.len() && rest[j] == p[i];
                assert(wanted[j + 1] == p[i]);
            }
            if strictly_ascending(wanted) {
                assert forall|a: int, b: int| 0 <= a < b < rest.len() implies tile_lt(rest[a], rest[b]) by {
                    assert(tile_lt(wanted[a + 1], wanted[b + 1]));
                }
            }
        } else {
            let inserted = requested.insert(wanted[0]);
            requests_respect_the_budgets(inserted, rest, in_flight + 1, issued + 1);
            let q = plan(inserted, rest, in_flight + 1, issued + 1);
            assert(p == seq![wanted[0]] + q);
            assert forall|i: int| 0 <= i < p.len() implies !requested.contains(#[trigger] p[i]) by {
                if i > 0 {
                    assert(p[i] == q[i - 1]);
                    assert(!inserted.contains(q[i - 1]));
                }
            }
            assert forall|i: int| 0 <= i < p.len() implies wanted.contains(#[trigger] p[i]) by {
                if i > 0 {
                    assert(p[i] == q[i - 1]);
                    assert(rest.contains(q[i - 1]));
                    let j = choose|j: int| 0 <= j < rest.len() && rest[j] == q[i - 1];
                    assert(wanted[j + 1] == p[i]);
                } else {
                    assert(wanted[0] == p[0]);
                }
            }
            if strictly_ascending(wanted) {
                assert forall|a: int, b: int| 0 <= a < b < rest.len() implies tile_lt(rest[a], rest[b]) by {
                    assert(tile_lt(wanted[a + 1], wanted[b + 1]));
                }
                assert forall|a: int, b: int| 0 <= a < b < p.len() implies tile_lt(p[a], p[b]) by {
                    if a == 0 {
                        assert(p[b] == q[b - 1]);
                        assert(rest.contains(q[b - 1]));
                        let j = choose|j: int| 0 <= j < rest.len() && rest[j] == q[b - 1];
                        assert(tile_lt(wanted[0], wanted[j + 1]));
                    } else {
                        assert(p[a] == q[a - 1] && p[b] == q[b - 1]);
                    }
                }
            }
        }
    }
}


/// What a needed tile falls back to has arrived and is no finer than the tile,
/// and what it lists to ask for has not been asked for and is no finer either.
pub proof fn fallback_draws_only_what_arrived(slots: Seq<TileSlot>, tile: TileId)
    ensures
        walk(slots, tile).0 matches Some(drawn) ==> is_ready(slots, drawn) && drawn.level <= tile.level,
        forall|i: int|
            0 <= i < walk(slots, tile).1.len() ==> !is_requested(slots, #[trigger] walk(slots, tile).1[i])
                && walk(slots, tile).1[i].level <= tile.level,
    decreases tile.level,
{
    if !is_ready(slots, tile) && tile.level > 0 {
        let parent = tile.spec_parent()->0;
        fallback_draws_only_what_arrived(slots, parent);
        let here = if is_requested(slots, tile) {
            Seq::<TileId>::empty()
        } else {
            seq![tile]
        };
        let w = walk(slots, tile).1;
        assert(w == here + walk(slots, parent).1);
        assert forall|i: int| 0 <= i < w.len() implies !is_requested(slots, #[trigger] w[i]) && w[i].level
            <= tile.level by {
            if i >= here.len() {
                assert(w[i] == walk(slots, parent).1[i - here.len()]);
            }
        }
    }
}

} // verus!

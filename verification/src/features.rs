//! The globe's memory layout for vector geometry: flat, offset-indexed runs of
//! coordinates in the GeoArrow shape.
//!
//! Everything that arrives as vector data is flattened into one
//! [`FeatureSet`]: points, lines and polygons, a column saying which feature
//! each shape belongs to, and two columns of per-feature attributes. Lines and
//! polygon rings are stored end to end in one coordinate run each, with an
//! Arrow-style offset buffer (opening with `0`, one entry longer than the
//! number of shapes) saying where each starts; polygons are a second offset
//! buffer into the rings, outer ring first. Rings are stored open.
//!
//! The coordinate type is a parameter: what a coordinate *is* (longitude,
//! latitude and height, in whatever precision) is the caller's business, and
//! nothing here reads one — only how many there are decides anything.
use vstd::prelude::*;

verus! {

// ---------------------------------------------------------------------------
// Offset buffers
// ---------------------------------------------------------------------------

/// An Arrow offset buffer over a run of `total` items, in which every entry
/// spans at least `min_span` of them.
pub open spec fn offsets_wf(offsets: Seq<i32>, total: int, min_span: int) -> bool {
    &&& offsets.len() >= 1
    &&& offsets[0] == 0
    &&& offsets.last() == total
    &&& forall|i: int, j: int| 0 <= i <= j < offsets.len() ==> offsets[i] <= offsets[j]
    &&& forall|i: int|
        #![trigger offsets[i], offsets[i + 1]]
        0 <= i < offsets.len() - 1 ==> offsets[i] + min_span <= offsets[i + 1]
}

/// The items entry `k` of an offset buffer spans.
pub open spec fn span<C>(items: Seq<C>, offsets: Seq<i32>, k: int) -> Seq<C> {
    items.subrange(offsets[k] as int, offsets[k + 1] as int)
}

proof fn lemma_offsets_push(offsets: Seq<i32>, total: int, added: int, min_span: int)
    requires
        offsets_wf(offsets, total, min_span),
        added >= min_span,
        min_span >= 0,
        total + added <= i32::MAX,
    ensures
        offsets_wf(offsets.push((total + added) as i32), total + added, min_span),
{
    let o = offsets.push((total + added) as i32);
    assert forall|i: int, j: int| 0 <= i <= j < o.len() implies o[i] <= o[j] by {
        if j == o.len() - 1 {
            if i < offsets.len() {
                assert(offsets[i] <= offsets[offsets.len() - 1]);
            }
        }
    }
}

/// The vertex counts of a list of runs, added up.
pub open spec fn total_len<C>(runs: Seq<Seq<C>>) -> nat
    decreases runs.len(),
{
    if runs.len() == 0 {
        0
    } else {
        total_len(runs.drop_last()) + runs.last().len()
    }
}

/// The runs of a list that have at least three vertices, in order: the rings
/// that can bound an area.
pub open spec fn closed_rings<C>(rings: Seq<Seq<C>>) -> Seq<Seq<C>>
    decreases rings.len(),
{
    if rings.len() == 0 {
        Seq::empty()
    } else {
        let before = closed_rings(rings.drop_last());
        if rings.last().len() >= 3 {
            before.push(rings.last())
        } else {
            before
        }
    }
}

/// The rings a polygon is kept with: the outer ring and every hole that can
/// bound an area — or nothing at all, when the outer ring cannot, because a
/// hole is not a hole in anything.
pub open spec fn kept_rings<C>(rings: Seq<Seq<C>>) -> Seq<Seq<C>> {
    if rings.len() > 0 && rings[0].len() >= 3 {
        closed_rings(rings)
    } else {
        Seq::empty()
    }
}

proof fn lemma_closed_rings_bounds<C>(rings: Seq<Seq<C>>)
    ensures
        closed_rings(rings).len() <= rings.len(),
        total_len(closed_rings(rings)) <= total_len(rings),
        forall|j: int|
            0 <= j < closed_rings(rings).len() ==> (#[trigger] closed_rings(rings)[j]).len() >= 3,
    decreases rings.len(),
{
    if rings.len() > 0 {
        lemma_closed_rings_bounds(rings.drop_last());
        let before = closed_rings(rings.drop_last());
        if rings.last().len() >= 3 {
            assert(before.push(rings.last()).drop_last() =~= before);
        }
    }
}

proof fn lemma_closed_rings_first<C>(rings: Seq<Seq<C>>)
    requires
        rings.len() > 0,
        rings[0].len() >= 3,
    ensures
        closed_rings(rings).len() >= 1,
        closed_rings(rings)[0] == rings[0],
    decreases rings.len(),
{
    if rings.len() > 1 {
        assert(rings.drop_last()[0] == rings[0]);
        lemma_closed_rings_first(rings.drop_last());
    } else {
        assert(rings.drop_last() =~= Seq::<Seq<C>>::empty());
        assert(closed_rings(rings.drop_last()) =~= Seq::<Seq<C>>::empty());
        assert(rings.last() == rings[0]);
    }
}

// ---------------------------------------------------------------------------
// The store
// ---------------------------------------------------------------------------

/// The flattened geometry of one document or one tile, and the features it
/// belongs to. Built through [`FeatureSetBuilder`].
pub struct FeatureSet<C> {
    ids: Vec<Option<String>>,
    properties: Vec<Option<String>>,
    point_coords: Vec<C>,
    point_owners: Vec<u32>,
    line_coords: Vec<C>,
    line_offsets: Vec<i32>,
    line_owners: Vec<u32>,
    polygon_coords: Vec<C>,
    ring_offsets: Vec<i32>,
    polygon_offsets: Vec<i32>,
    polygon_owners: Vec<u32>,
}

/// Accumulates a [`FeatureSet`] as a reader walks a document.
///
/// A feature is pushed before the geometry that belongs to it, and the index it
/// comes back as is what that geometry is filed under. That is what lets a
/// reader hold a feature back until it turns out to have geometry worth keeping.
pub struct FeatureSetBuilder<C> {
    set: FeatureSet<C>,
}

pub open spec fn text_view(o: Option<String>) -> Option<Seq<char>> {
    match o {
        Some(s) => Some(s@),
        None => None,
    }
}

impl<C> FeatureSet<C> {
    pub closed spec fn wf(&self) -> bool {
        &&& self.ids@.len() == self.properties@.len()
        &&& self.ids@.len() <= u32::MAX
        &&& self.ring_offsets@.len() <= i32::MAX
        &&& self.point_coords@.len() == self.point_owners@.len()
        &&& offsets_wf(self.line_offsets@, self.line_coords@.len() as int, 2)
        &&& self.line_offsets@.len() == self.line_owners@.len() + 1
        &&& offsets_wf(self.ring_offsets@, self.polygon_coords@.len() as int, 3)
        &&& offsets_wf(self.polygon_offsets@, self.ring_offsets@.len() - 1, 1)
        &&& self.polygon_offsets@.len() == self.polygon_owners@.len() + 1
    }

    /// Each feature's `id` and `properties` text, in the order they were pushed.
    pub closed spec fn features(&self) -> Seq<(Option<Seq<char>>, Option<Seq<char>>)> {
        Seq::new(
            self.ids@.len(),
            |i: int| (text_view(self.ids@[i]), text_view(self.properties@[i])),
        )
    }

    /// Every point, with the feature it belongs to.
    pub closed spec fn points(&self) -> Seq<(u32, C)> {
        Seq::new(self.point_owners@.len(), |i: int| (self.point_owners@[i], self.point_coords@[i]))
    }

    /// Every line, with the feature it belongs to.
    pub closed spec fn lines(&self) -> Seq<(u32, Seq<C>)> {
        Seq::new(
            self.line_owners@.len(),
            |i: int| (self.line_owners@[i], span(self.line_coords@, self.line_offsets@, i)),
        )
    }

    /// The rings of polygon `p`, outer ring first.
    pub closed spec fn rings_of(&self, p: int) -> Seq<Seq<C>> {
        let first = self.polygon_offsets@[p] as int;
        Seq::new(
            (self.polygon_offsets@[p + 1] - first) as nat,
            |r: int| span(self.polygon_coords@, self.ring_offsets@, first + r),
        )
    }

    /// Every polygon, with the feature it belongs to.
    pub closed spec fn polygons(&self) -> Seq<(u32, Seq<Seq<C>>)> {
        Seq::new(self.polygon_owners@.len(), |p: int| (self.polygon_owners@[p], self.rings_of(p)))
    }

    /// The coordinate runs and offset buffers exactly as they are stored.
    pub closed spec fn line_offsets_view(&self) -> Seq<i32> {
        self.line_offsets@
    }

    pub closed spec fn ring_offsets_view(&self) -> Seq<i32> {
        self.ring_offsets@
    }

    pub closed spec fn polygon_offsets_view(&self) -> Seq<i32> {
        self.polygon_offsets@
    }

    pub closed spec fn line_coords_view(&self) -> Seq<C> {
        self.line_coords@
    }

    pub closed spec fn polygon_coords_view(&self) -> Seq<C> {
        self.polygon_coords@
    }

    pub closed spec fn point_coords_view(&self) -> Seq<C> {
        self.point_coords@
    }

    /// How far the three buffers that only ever grow at their end have run:
    /// line vertices, polygon vertices and ring offsets.
    pub open spec fn extent(&self) -> (nat, nat, nat) {
        (
            self.line_coords_view().len(),
            self.polygon_coords_view().len(),
            self.ring_offsets_view().len(),
        )
    }

    /// A store holding nothing at all.
    pub open spec fn is_empty_set(&self) -> bool {
        &&& self.features().len() == 0
        &&& self.points().len() == 0
        &&& self.lines().len() == 0
        &&& self.polygons().len() == 0
    }

    proof fn lemma_counts(&self)
        requires
            self.wf(),
        ensures
            self.features().len() == self.ids@.len(),
            self.points().len() == self.point_owners@.len(),
            self.lines().len() == self.line_owners@.len(),
            self.polygons().len() == self.polygon_owners@.len(),
    {
    }

    /// How many features the document held, in the order it held them. One
    /// feature can be many shapes.
    pub fn feature_count(&self) -> (n: usize)
        requires
            self.wf(),
        ensures
            n == self.features().len(),
    {
        self.ids.len()
    }

    pub fn point_count(&self) -> (n: usize)
        requires
            self.wf(),
        ensures
            n == self.points().len(),
    {
        self.point_owners.len()
    }

    pub fn line_count(&self) -> (n: usize)
        requires
            self.wf(),
        ensures
            n == self.lines().len(),
    {
        self.line_owners.len()
    }

    pub fn polygon_count(&self) -> (n: usize)
        requires
            self.wf(),
        ensures
            n == self.polygons().len(),
    {
        self.polygon_owners.len()
    }

    /// One feature's `id`, if it had one — and nothing for a feature that is
    /// not there.
    pub fn feature_id(&self, feature: usize) -> (id: Option<&str>)
        requires
            self.wf(),
        ensures
            feature < self.features().len() ==> text_view_str(id) == self.features()[feature as int].0,
            feature >= self.features().len() ==> id is None,
    {
        if feature >= self.ids.len() {
            return None;
        }
        match &self.ids[feature] {
            Some(id) => Some(id.as_str()),
            None => None,
        }
    }

    /// One feature's `properties`, as the JSON text it arrived as — nothing for
    /// a feature that had none, or that is not there.
    pub fn feature_properties_text(&self, feature: usize) -> (text: Option<&str>)
        requires
            self.wf(),
        ensures
            feature < self.features().len() ==> text_view_str(text) == self.features()[feature as int].1,
            feature >= self.features().len() ==> text is None,
    {
        if feature >= self.properties.len() {
            return None;
        }
        match &self.properties[feature] {
            Some(text) => Some(text.as_str()),
            None => None,
        }
    }

    /// Which feature each point, line and polygon belongs to, as stored.
    pub fn point_owners(&self) -> (owners: &[u32])
        requires
            self.wf(),
        ensures
            owners@.len() == self.points().len(),
            forall|i: int| 0 <= i < owners@.len() ==> owners@[i] == #[trigger] self.points()[i].0,
    {
        self.point_owners.as_slice()
    }

    pub fn line_owners(&self) -> (owners: &[u32])
        requires
            self.wf(),
        ensures
            owners@.len() == self.lines().len(),
            forall|i: int| 0 <= i < owners@.len() ==> owners@[i] == #[trigger] self.lines()[i].0,
    {
        self.line_owners.as_slice()
    }

    pub fn polygon_owners(&self) -> (owners: &[u32])
        requires
            self.wf(),
        ensures
            owners@.len() == self.polygons().len(),
            forall|i: int| 0 <= i < owners@.len() ==> owners@[i] == #[trigger] self.polygons()[i].0,
    {
        self.polygon_owners.as_slice()
    }

    /// Every point's coordinate, in order.
    pub fn point_coords(&self) -> (coords: &[C])
        ensures
            coords@ == self.point_coords_view(),
    {
        self.point_coords.as_slice()
    }

    /// Every line's vertices, end to end.
    pub fn line_coords(&self) -> (coords: &[C])
        ensures
            coords@ == self.line_coords_view(),
    {
        self.line_coords.as_slice()
    }

    /// Where each line starts and ends in [`FeatureSet::line_coords`]. One
    /// longer than the number of lines.
    pub fn line_offsets(&self) -> (offsets: &[i32])
        ensures
            offsets@ == self.line_offsets_view(),
    {
        self.line_offsets.as_slice()
    }

    /// Every polygon ring's vertices, end to end, outer ring of each first.
    pub fn polygon_coords(&self) -> (coords: &[C])
        ensures
            coords@ == self.polygon_coords_view(),
    {
        self.polygon_coords.as_slice()
    }

    /// Where each ring starts in [`FeatureSet::polygon_coords`].
    pub fn ring_offsets(&self) -> (offsets: &[i32])
        ensures
            offsets@ == self.ring_offsets_view(),
    {
        self.ring_offsets.as_slice()
    }

    /// Where each polygon's rings start in [`FeatureSet::ring_offsets`].
    pub fn polygon_offsets(&self) -> (offsets: &[i32])
        ensures
            offsets@ == self.polygon_offsets_view(),
    {
        self.polygon_offsets.as_slice()
    }
}

pub open spec fn text_view_str(o: Option<&str>) -> Option<Seq<char>> {
    match o {
        Some(s) => Some(s@),
        None => None,
    }
}

impl<C: Copy> FeatureSet<C> {
    /// The feature one point belongs to, and where it is.
    pub fn point(&self, index: usize) -> (point: (u32, C))
        requires
            self.wf(),
            index < self.points().len(),
        ensures
            point == self.points()[index as int],
    {
        (self.point_owners[index], self.point_coords[index])
    }

    /// The feature one line belongs to, and its vertices.
    pub fn line(&self, index: usize) -> (line: (u32, Coords<'_, C>))
        requires
            self.wf(),
            index < self.lines().len(),
        ensures
            line.0 == self.lines()[index as int].0,
            line.1.values@ == self.lines()[index as int].1,
    {
        let count = self.line_offsets.len();
        assert(index + 1 < count);
        let from = self.line_offsets[index];
        let to = self.line_offsets[index + 1];
        proof {
            assert(self.line_offsets@[0] <= from <= to);
            assert(to <= self.line_offsets@[self.line_offsets@.len() - 1]);
        }
        let values = &self.line_coords.as_slice()[from as usize..to as usize];
        (self.line_owners[index], Coords { values })
    }

    /// The feature one polygon belongs to, and its rings.
    pub fn polygon(&self, index: usize) -> (polygon: (u32, PolygonRef<'_, C>))
        requires
            self.wf(),
            index < self.polygons().len(),
        ensures
            polygon.0 == self.polygons()[index as int].0,
            polygon.1.wf(),
            polygon.1.rings() == self.polygons()[index as int].1,
    {
        let count = self.polygon_offsets.len();
        assert(index + 1 < count);
        let first = self.polygon_offsets[index];
        let last = self.polygon_offsets[index + 1];
        proof {
            assert(self.polygon_offsets@[0] <= first <= last);
            assert(last <= self.polygon_offsets@[self.polygon_offsets@.len() - 1]);
        }
        let polygon = PolygonRef {
            coords: self.polygon_coords.as_slice(),
            ring_offsets: self.ring_offsets.as_slice(),
            first_ring: first as usize,
            ring_count: (last - first) as usize,
        };
        assert(polygon.rings() =~= self.rings_of(index as int));
        (self.polygon_owners[index], polygon)
    }
}

/// The vertices of one line or one ring.
pub struct Coords<'a, C> {
    pub values: &'a [C],
}

impl<'a, C: Copy> Coords<'a, C> {
    pub fn len(&self) -> (n: usize)
        ensures
            n == self.values@.len(),
    {
        self.values.len()
    }

    pub fn is_empty(&self) -> (empty: bool)
        ensures
            empty == (self.values@.len() == 0),
    {
        self.values.len() == 0
    }

    pub fn get(&self, index: usize) -> (vertex: C)
        requires
            index < self.values@.len(),
        ensures
            vertex == self.values@[index as int],
    {
        self.values[index]
    }

    /// The vertex at `index`, wrapping — which is what walking a ring's edges
    /// wants, since a ring is stored open and its last edge closes it.
    pub fn wrapping(&self, index: usize) -> (vertex: C)
        requires
            self.values@.len() > 0,
        ensures
            vertex == self.values@[(index as int) % (self.values@.len() as int)],
    {
        self.values[index % self.values.len()]
    }

    /// The vertices in order.
    pub fn iter(&self) -> (vertices: Vec<C>)
        ensures
            vertices@ == self.values@,
    {
        let mut vertices = Vec::new();
        let mut i: usize = 0;
        while i < self.values.len()
            invariant
                i <= self.values@.len(),
                vertices@ == self.values@.take(i as int),
            decreases self.values@.len() - i,
        {
            vertices.push(self.values[i]);
            i = i + 1;
            assert(vertices@ =~= self.values@.take(i as int));
        }
        assert(self.values@.take(self.values@.len() as int) =~= self.values@);
        vertices
    }
}

/// One polygon: an outer ring, then one ring per hole in it.
pub struct PolygonRef<'a, C> {
    coords: &'a [C],
    ring_offsets: &'a [i32],
    first_ring: usize,
    ring_count: usize,
}

impl<'a, C: Copy> PolygonRef<'a, C> {
    pub closed spec fn wf(&self) -> bool {
        &&& self.first_ring + self.ring_count < self.ring_offsets@.len()
        &&& self.ring_offsets@.len() <= usize::MAX
        &&& forall|r: int|
            self.first_ring <= r <= self.first_ring + self.ring_count ==> 0 <= (
            #[trigger] self.ring_offsets@[r]) <= self.coords@.len()
        &&& forall|r: int|
            self.first_ring <= r < self.first_ring + self.ring_count ==> (
            #[trigger] self.ring_offsets@[r]) <= self.ring_offsets@[r + 1]
    }

    /// The rings, outer first.
    pub closed spec fn rings(&self) -> Seq<Seq<C>> {
        Seq::new(
            self.ring_count as nat,
            |r: int| span(self.coords@, self.ring_offsets@, self.first_ring + r),
        )
    }

    pub fn ring_count(&self) -> (n: usize)
        ensures
            n == self.rings().len(),
    {
        self.ring_count
    }

    /// One ring.
    pub fn ring(&self, index: usize) -> (ring: Coords<'a, C>)
        requires
            self.wf(),
            index < self.rings().len(),
        ensures
            ring.values@ == self.rings()[index as int],
    {
        let ring = self.first_ring + index;
        let from = self.ring_offsets[ring];
        let to = self.ring_offsets[ring + 1];
        Coords { values: &self.coords[from as usize..to as usize] }
    }

    /// Every ring, outer first.
    pub fn rings_vec(&self) -> (rings: Vec<Coords<'a, C>>)
        requires
            self.wf(),
        ensures
            rings@.len() == self.rings().len(),
            forall|i: int| 0 <= i < rings@.len() ==> (#[trigger] rings@[i]).values@ == self.rings()[i],
    {
        let mut rings: Vec<Coords<'a, C>> = Vec::new();
        let mut i: usize = 0;
        while i < self.ring_count
            invariant
                self.wf(),
                i <= self.ring_count,
                rings@.len() == i,
                forall|j: int| 0 <= j < i ==> (#[trigger] rings@[j]).values@ == self.rings()[j],
            decreases self.ring_count - i,
        {
            rings.push(self.ring(i));
            i = i + 1;
        }
        rings
    }

    /// The ring that bounds the polygon. Empty for a polygon with no rings at
    /// all, which the builder does not produce but a slice of one could.
    pub fn outer(&self) -> (outer: Coords<'a, C>)
        requires
            self.wf(),
        ensures
            self.rings().len() == 0 ==> outer.values@.len() == 0,
            self.rings().len() > 0 ==> outer.values@ == self.rings()[0],
    {
        if self.ring_count == 0 {
            Coords { values: &self.coords[0..0] }
        } else {
            self.ring(0)
        }
    }

    /// The holes, in order.
    pub fn holes(&self) -> (holes: Vec<Coords<'a, C>>)
        requires
            self.wf(),
        ensures
            holes@.len() == if self.rings().len() == 0 {
                0
            } else {
                self.rings().len() - 1
            },
            forall|i: int| 0 <= i < holes@.len() ==> (#[trigger] holes@[i]).values@ == self.rings()[i + 1],
    {
        let mut holes: Vec<Coords<'a, C>> = Vec::new();
        if self.ring_count == 0 {
            return holes;
        }
        let mut i: usize = 1;
        while i < self.ring_count
            invariant
                self.wf(),
                1 <= i <= self.ring_count,
                holes@.len() == i - 1,
                forall|j: int| 0 <= j < i - 1 ==> (#[trigger] holes@[j]).values@ == self.rings()[j + 1],
            decreases self.ring_count - i,
        {
            holes.push(self.ring(i));
            i = i + 1;
        }
        holes
    }
}

impl<C: Copy> FeatureSetBuilder<C> {
    pub closed spec fn wf(&self) -> bool {
        self.set.wf()
    }

    pub closed spec fn current(&self) -> FeatureSet<C> {
        self.set
    }

    pub fn new() -> (builder: Self)
        ensures
            builder.wf(),
            builder.current().is_empty_set(),
            builder.current().line_offsets_view() == seq![0i32],
            builder.current().ring_offsets_view() == seq![0i32],
            builder.current().polygon_offsets_view() == seq![0i32],
            builder.current().line_coords_view().len() == 0,
            builder.current().polygon_coords_view().len() == 0,
            builder.current().point_coords_view().len() == 0,
    {
        let builder = FeatureSetBuilder {
            set: FeatureSet {
                ids: Vec::new(),
                properties: Vec::new(),
                point_coords: Vec::new(),
                point_owners: Vec::new(),
                line_coords: Vec::new(),
                line_offsets: vec![0],
                line_owners: Vec::new(),
                polygon_coords: Vec::new(),
                ring_offsets: vec![0],
                polygon_offsets: vec![0],
                polygon_owners: Vec::new(),
            },
        };
        proof {
            assert(builder.set.line_offsets@ =~= seq![0i32]);
            assert(builder.set.ring_offsets@ =~= seq![0i32]);
            assert(builder.set.polygon_offsets@ =~= seq![0i32]);
        }
        builder
    }

    /// A store built through these methods never holds more than its `u32`
    /// feature indices and `i32` offsets can address.
    pub proof fn lemma_within_limits(&self)
        requires
            self.wf(),
        ensures
            self.current().features().len() <= u32::MAX,
            self.current().extent().0 <= i32::MAX,
            self.current().extent().1 <= i32::MAX,
            self.current().extent().2 <= i32::MAX,
    {
    }

    /// How many features have been pushed so far.
    pub fn features_so_far(&self) -> (n: usize)
        requires
            self.wf(),
        ensures
            n == self.current().features().len(),
    {
        self.set.ids.len()
    }

    /// How far the line vertices, the polygon vertices and the ring offsets
    /// have run so far. Offsets are `i32`, so what is left of that range is
    /// the room left for more geometry.
    pub fn extent_so_far(&self) -> (extent: (usize, usize, usize))
        ensures
            extent.0 == self.current().extent().0,
            extent.1 == self.current().extent().1,
            extent.2 == self.current().extent().2,
    {
        (self.set.line_coords.len(), self.set.polygon_coords.len(), self.set.ring_offsets.len())
    }

    /// Adds a feature and returns the index its geometry is filed under.
    ///
    /// `properties` is the `properties` object as JSON text, exactly as it
    /// arrived; `None` for a feature that had none.
    pub fn feature(&mut self, id: Option<String>, properties: Option<String>) -> (index: u32)
        requires
            old(self).wf(),
            old(self).current().features().len() < u32::MAX,
        ensures
            final(self).wf(),
            index == old(self).current().features().len(),
            final(self).current().features() == old(self).current().features().push(
                (text_view(id), text_view(properties)),
            ),
            final(self).current().extent() == old(self).current().extent(),
            final(self).current().point_coords_view() == old(self).current().point_coords_view(),
            final(self).current().line_coords_view() == old(self).current().line_coords_view(),
            final(self).current().line_offsets_view() == old(self).current().line_offsets_view(),
            final(self).current().polygon_coords_view() == old(self).current().polygon_coords_view(),
            final(self).current().ring_offsets_view() == old(self).current().ring_offsets_view(),
            final(self).current().polygon_offsets_view() == old(self).current().polygon_offsets_view(),
            final(self).current().points() == old(self).current().points(),
            final(self).current().lines() == old(self).current().lines(),
            final(self).current().polygons() == old(self).current().polygons(),
    {
        proof {
            self.set.lemma_counts();
        }
        let ghost before = self.set.features();
        self.set.ids.push(id);
        self.set.properties.push(properties);
        assert(self.set.features() =~= before.push((text_view(id), text_view(properties))));
        proof {
            assert(self.set.points() =~= old(self).current().points());
            assert(self.set.lines() =~= old(self).current().lines());
            assert(self.set.polygons() =~= old(self).current().polygons());
        }
        (self.set.ids.len() - 1) as u32
    }

    /// Adds a point filed under `feature`.
    pub fn push_point(&mut self, feature: u32, position: C)
        requires
            old(self).wf(),
        ensures
            final(self).wf(),
            final(self).current().points() == old(self).current().points().push((feature, position)),
            final(self).current().extent() == old(self).current().extent(),
            final(self).current().features() == old(self).current().features(),
            final(self).current().lines() == old(self).current().lines(),
            final(self).current().polygons() == old(self).current().polygons(),
    {
        self.set.point_coords.push(position);
        self.set.point_owners.push(feature);
        proof {
            assert(self.set.points() =~= old(self).current().points().push((feature, position)));
            assert(self.set.features() =~= old(self).current().features());
            assert(self.set.lines() =~= old(self).current().lines());
            assert(self.set.polygons() =~= old(self).current().polygons());
        }
    }

    /// Adds a line. A line of fewer than two vertices is one that cannot be
    /// drawn, and is dropped rather than stored; the return says which it was.
    pub fn push_line(&mut self, feature: u32, vertices: &[C]) -> (kept: bool)
        requires
            old(self).wf(),
            old(self).current().line_coords_view().len() + vertices@.len() <= i32::MAX,
        ensures
            final(self).wf(),
            kept == (vertices@.len() >= 2),
            final(self).current().extent() == (
                old(self).current().extent().0 + if kept {
                    vertices@.len()
                } else {
                    0
                },
                old(self).current().extent().1,
                old(self).current().extent().2,
            ),
            final(self).current().lines() == if kept {
                old(self).current().lines().push((feature, vertices@))
            } else {
                old(self).current().lines()
            },
            !kept ==> final(self).current() == old(self).current(),
            final(self).current().features() == old(self).current().features(),
            final(self).current().points() == old(self).current().points(),
            final(self).current().polygons() == old(self).current().polygons(),
    {
        if vertices.len() < 2 {
            return false;
        }
        let ghost old_coords = self.set.line_coords@;
        let ghost old_offsets = self.set.line_offsets@;
        let mut i: usize = 0;
        while i < vertices.len()
            invariant
                i <= vertices@.len(),
                self.set.line_coords@ == old_coords + vertices@.take(i as int),
                self.set.line_offsets@ == old_offsets,
                self.set.line_owners@ == old(self).set.line_owners@,
                self.set.ids@ == old(self).set.ids@,
                self.set.properties@ == old(self).set.properties@,
                self.set.point_coords@ == old(self).set.point_coords@,
                self.set.point_owners@ == old(self).set.point_owners@,
                self.set.polygon_coords@ == old(self).set.polygon_coords@,
                self.set.ring_offsets@ == old(self).set.ring_offsets@,
                self.set.polygon_offsets@ == old(self).set.polygon_offsets@,
                self.set.polygon_owners@ == old(self).set.polygon_owners@,
            decreases vertices@.len() - i,
        {
            self.set.line_coords.push(vertices[i]);
            i = i + 1;
            assert(self.set.line_coords@ =~= old_coords + vertices@.take(i as int));
        }
        assert(vertices@.take(vertices@.len() as int) =~= vertices@);
        let total = self.set.line_coords.len() as i32;
        proof {
            lemma_offsets_push(old_offsets, old_coords.len() as int, vertices@.len() as int, 2);
        }
        self.set.line_offsets.push(total);
        self.set.line_owners.push(feature);
        proof {
            let new_lines = self.set.lines();
            let expected = old(self).current().lines().push((feature, vertices@));
            assert forall|k: int| 0 <= k < new_lines.len() implies new_lines[k] == expected[k] by {
                if k < old_offsets.len() - 1 {
                    assert(old_offsets[k] <= old_offsets[k + 1]);
                    assert(old_offsets[k + 1] <= old_offsets[old_offsets.len() - 1]);
                    assert(span(self.set.line_coords@, self.set.line_offsets@, k) =~= span(
                        old_coords,
                        old_offsets,
                        k,
                    ));
                } else {
                    assert(span(self.set.line_coords@, self.set.line_offsets@, k) =~= vertices@);
                }
            }
            assert(new_lines =~= expected);
            assert(self.set.features() =~= old(self).current().features());
            assert(self.set.points() =~= old(self).current().points());
            assert(self.set.polygons() =~= old(self).current().polygons());
        }
        true
    }

    /// Adds a polygon, outer ring first. A ring of fewer than three corners
    /// cannot bound an area and is dropped; a polygon left without a usable
    /// outer ring is dropped whole, because a hole is not a hole in anything.
    ///
    /// The return says whether the polygon was kept.
    pub fn push_polygon(&mut self, feature: u32, rings: &Vec<Vec<C>>) -> (kept: bool)
        requires
            old(self).wf(),
            old(self).current().polygon_coords_view().len() + total_len(
                closed_rings(ring_views(rings@)),
            ) <= i32::MAX,
            old(self).current().ring_offsets_view().len() + closed_rings(ring_views(rings@)).len()
                <= i32::MAX,
        ensures
            final(self).wf(),
            kept == (kept_rings(ring_views(rings@)).len() > 0),
            kept == (rings@.len() > 0 && rings@[0]@.len() >= 3),
            final(self).current().extent() == if kept {
                (
                    old(self).current().extent().0,
                    old(self).current().extent().1 + total_len(kept_rings(ring_views(rings@))),
                    old(self).current().extent().2 + kept_rings(ring_views(rings@)).len(),
                )
            } else {
                old(self).current().extent()
            },
            final(self).current().polygons() == if kept {
                old(self).current().polygons().push((feature, kept_rings(ring_views(rings@))))
            } else {
                old(self).current().polygons()
            },
            !kept ==> final(self).current() == old(self).current(),
            final(self).current().features() == old(self).current().features(),
            final(self).current().points() == old(self).current().points(),
            final(self).current().lines() == old(self).current().lines(),
    {
        let ghost views = ring_views(rings@);
        if rings.len() == 0 || rings[0].len() < 3 {
            return false;
        }
        proof {
            lemma_closed_rings_first(views);
            lemma_closed_rings_bounds(views);
        }
        let ghost old_coords = self.set.polygon_coords@;
        let ghost old_rings = self.set.ring_offsets@;
        let ghost base = old_rings.len() - 1;
        let mut i: usize = 0;
        while i < rings.len()
            invariant
                views == ring_views(rings@),
                i <= rings@.len(),
                base == old_rings.len() - 1,
                old_rings.len() >= 1,
                old_rings.len() + closed_rings(views).len() <= i32::MAX,
                old_coords.len() + total_len(closed_rings(views)) <= i32::MAX,
                self.set.ring_offsets@.len() == old_rings.len() + closed_rings(views.take(i as int)).len(),
                forall|k: int| 0 <= k < old_rings.len() ==> self.set.ring_offsets@[k] == old_rings[k],
                self.set.polygon_coords@.len() == old_coords.len() + total_len(
                    closed_rings(views.take(i as int)),
                ),
                self.set.polygon_coords@.subrange(0, old_coords.len() as int) == old_coords,
                offsets_wf(self.set.ring_offsets@, self.set.polygon_coords@.len() as int, 3),
                forall|j: int|
                    0 <= j < closed_rings(views.take(i as int)).len() ==> span(
                        self.set.polygon_coords@,
                        self.set.ring_offsets@,
                        base + j,
                    ) == #[trigger] closed_rings(views.take(i as int))[j],
                self.set.line_coords@ == old(self).set.line_coords@,
                self.set.line_offsets@ == old(self).set.line_offsets@,
                self.set.line_owners@ == old(self).set.line_owners@,
                self.set.ids@ == old(self).set.ids@,
                self.set.properties@ == old(self).set.properties@,
                self.set.point_coords@ == old(self).set.point_coords@,
                self.set.point_owners@ == old(self).set.point_owners@,
                self.set.polygon_offsets@ == old(self).set.polygon_offsets@,
                self.set.polygon_owners@ == old(self).set.polygon_owners@,
            decreases rings@.len() - i,
        {
            let ghost before = closed_rings(views.take(i as int));
            proof {
                assert(views.take(i + 1).drop_last() =~= views.take(i as int));
                assert(views.take(i + 1).last() == views[i as int]);
                lemma_closed_rings_take(views, i as int + 1);
            }
            let ring = &rings[i];
            if ring.len() >= 3 {
                let ghost coords_before = self.set.polygon_coords@;
                let ghost offsets_before = self.set.ring_offsets@;
                let mut v: usize = 0;
                while v < ring.len()
                    invariant
                        v <= ring@.len(),
                        self.set.polygon_coords@ == coords_before + ring@.take(v as int),
                        self.set.ring_offsets@ == offsets_before,
                        self.set.line_coords@ == old(self).set.line_coords@,
                        self.set.line_offsets@ == old(self).set.line_offsets@,
                        self.set.line_owners@ == old(self).set.line_owners@,
                        self.set.ids@ == old(self).set.ids@,
                        self.set.properties@ == old(self).set.properties@,
                        self.set.point_coords@ == old(self).set.point_coords@,
                        self.set.point_owners@ == old(self).set.point_owners@,
                        self.set.polygon_offsets@ == old(self).set.polygon_offsets@,
                        self.set.polygon_owners@ == old(self).set.polygon_owners@,
                    decreases ring@.len() - v,
                {
                    self.set.polygon_coords.push(ring[v]);
                    v = v + 1;
                    assert(self.set.polygon_coords@ =~= coords_before + ring@.take(v as int));
                }
                assert(ring@.take(ring@.len() as int) =~= ring@);
                assert(views[i as int] == ring@);
                proof {
                    let after = closed_rings(views.take(i + 1));
                    assert(after == before.push(ring@));
                    assert(after.drop_last() =~= before);
                    assert(total_len(after) == total_len(before) + ring@.len());
                    lemma_offsets_push(
                        offsets_before,
                        coords_before.len() as int,
                        ring@.len() as int,
                        3,
                    );
                }
                let total = self.set.polygon_coords.len() as i32;
                self.set.ring_offsets.push(total);
                proof {
                    let after = closed_rings(views.take(i + 1));
                    assert(after == before.push(ring@));
                    assert forall|j: int| 0 <= j < after.len() implies span(
                        self.set.polygon_coords@,
                        self.set.ring_offsets@,
                        base + j,
                    ) == #[trigger] after[j] by {
                        if j < before.len() {
                            let lo = offsets_before[base + j];
                            let hi = offsets_before[base + j + 1];
                            assert(0 <= lo <= hi <= offsets_before[offsets_before.len() - 1]);
                            assert(span(self.set.polygon_coords@, self.set.ring_offsets@, base + j)
                                =~= span(coords_before, offsets_before, base + j));
                        } else {
                            assert(span(self.set.polygon_coords@, self.set.ring_offsets@, base + j)
                                =~= ring@);
                        }
                    }
                    assert(self.set.polygon_coords@.subrange(0, old_coords.len() as int)
                        =~= coords_before.subrange(0, old_coords.len() as int));
                }
            } else {
                proof {
                    assert(closed_rings(views.take(i + 1)) == before);
                }
            }
            i = i + 1;
        }
        assert(views.take(rings@.len() as int) =~= views);
        let ring_total = (self.set.ring_offsets.len() - 1) as i32;
        proof {
            let kept = closed_rings(views);
            lemma_offsets_push(
                old(self).set.polygon_offsets@,
                base,
                kept.len() as int,
                1,
            );
        }
        self.set.polygon_offsets.push(ring_total);
        self.set.polygon_owners.push(feature);
        proof {
            let kept = closed_rings(views);
            let old_set = old(self).current();
            let new_polygons = self.set.polygons();
            let expected = old_set.polygons().push((feature, kept));
            let po = self.set.polygon_offsets@;
            assert forall|p: int| 0 <= p < new_polygons.len() implies new_polygons[p]
                == expected[p] by {
                if p < old_set.polygons().len() {
                    let first = po[p] as int;
                    let last = po[p + 1] as int;
                    assert(0 <= first <= last <= base);
                    assert forall|r: int| 0 <= r < last - first implies #[trigger] self.set.rings_of(
                        p,
                    )[r] == old_set.rings_of(p)[r] by {
                        let lo = old_rings[first + r];
                        let hi = old_rings[first + r + 1];
                        assert(0 <= lo <= hi <= old_rings[old_rings.len() - 1]);
                        assert(span(self.set.polygon_coords@, self.set.ring_offsets@, first + r)
                            =~= span(old_coords, old_rings, first + r));
                    }
                    assert(self.set.rings_of(p) =~= old_set.rings_of(p));
                } else {
                    assert(self.set.rings_of(p) =~= kept);
                }
            }
            assert(new_polygons =~= expected);
            assert(self.set.features() =~= old_set.features());
            assert(self.set.points() =~= old_set.points());
            assert(self.set.lines() =~= old_set.lines());
        }
        true
    }

    /// The finished store.
    pub fn finish(self) -> (set: FeatureSet<C>)
        requires
            self.wf(),
        ensures
            set.wf(),
            set == self.current(),
    {
        self.set
    }
}

/// The vertex runs of a list of rings.
pub open spec fn ring_views<C>(rings: Seq<Vec<C>>) -> Seq<Seq<C>> {
    rings.map_values(|ring: Vec<C>| ring@)
}

pub proof fn lemma_closed_rings_take<C>(runs: Seq<Seq<C>>, i: int)
    requires
        0 <= i <= runs.len(),
    ensures
        total_len(closed_rings(runs.take(i))) <= total_len(closed_rings(runs)),
        closed_rings(runs.take(i)).len() <= closed_rings(runs).len(),
    decreases runs.len(),
{
    if i < runs.len() {
        lemma_closed_rings_take(runs.drop_last(), i);
        assert(runs.drop_last().take(i) =~= runs.take(i));
        let before = closed_rings(runs.drop_last());
        if runs.last().len() >= 3 {
            assert(before.push(runs.last()).drop_last() =~= before);
        }
    } else {
        assert(runs.take(i) =~= runs);
    }
}


impl<C> Default for FeatureSet<C> {
    /// A store holding nothing, whose offset buffers still open with the zero
    /// Arrow requires.
    fn default() -> (set: FeatureSet<C>)
        ensures
            set.wf(),
            set.is_empty_set(),
            set.line_offsets_view() == seq![0i32],
            set.ring_offsets_view() == seq![0i32],
            set.polygon_offsets_view() == seq![0i32],
            set.line_coords_view().len() == 0,
            set.polygon_coords_view().len() == 0,
            set.point_coords_view().len() == 0,
    {
        let set = FeatureSet {
            ids: Vec::new(),
            properties: Vec::new(),
            point_coords: Vec::new(),
            point_owners: Vec::new(),
            line_coords: Vec::new(),
            line_offsets: vec![0],
            line_owners: Vec::new(),
            polygon_coords: Vec::new(),
            ring_offsets: vec![0],
            polygon_offsets: vec![0],
            polygon_owners: Vec::new(),
        };
        proof {
            assert(set.line_offsets@ =~= seq![0i32]);
            assert(set.ring_offsets@ =~= seq![0i32]);
            assert(set.polygon_offsets@ =~= seq![0i32]);
        }
        set
    }
}

} // verus!

//! GeoJSON, flattened: the walk that turns a document's tree of collections,
//! features and geometries into the three runs of a [`FeatureSet`].
//!
//! A globe draws points, lines and filled rings; it does not care whether a
//! line arrived as a `LineString`, as one strand of a `MultiLineString`, or
//! nested three deep inside a `GeometryCollection` inside a `Feature`. What
//! the flattening keeps is which feature each shape came from: every shape is
//! filed under a feature, and a geometry met outside any feature is given one
//! of its own, so that everything drawn can be picked.
//!
//! The walk is forgiving about records and strict about nothing: a position
//! that could not be read is skipped, a line left with fewer than two
//! vertices is dropped, and so is a ring with fewer than three distinct
//! corners; a ring's closing repeat is taken off. A polygon whose outer ring
//! is lost is dropped whole, because a hole is not a hole in anything. A
//! feature is always kept — a feed that reports five records reported five —
//! while a feature is invented for a bare geometry only once that geometry
//! has turned out to have something worth drawing.
//!
//! Reading the numbers is not done here: a [`GeoObject`] arrives with each
//! position already read, or `None` where it could not be, and each corner
//! of a ring with the place it stands at, as numbers that compare equal
//! exactly when its latitude and longitude do.
use vstd::prelude::*;

use crate::features::{
    closed_rings, ring_views, text_view, total_len, FeatureSet, FeatureSetBuilder,
};

verus! {

// ---------------------------------------------------------------------------
// The document
// ---------------------------------------------------------------------------

/// One corner of a ring: its coordinate, and the place it stands at — its
/// latitude and longitude as two numbers that are equal exactly when those
/// are, whatever the height. Two corners at one place are one corner.
#[derive(Clone, Copy)]
pub struct GeoPosition<C> {
    pub coord: C,
    pub place: Place,
}

/// Where a corner stands: its latitude and longitude, each as a number that
/// is the same exactly when the coordinate is.
#[derive(Clone, Copy)]
pub struct Place {
    pub latitude: u64,
    pub longitude: u64,
}

/// One linear ring of a polygon: its positions in order, the repeated
/// closing one included; `None` for one that could not be read.
pub struct GeoRing<C> {
    pub positions: Vec<Option<GeoPosition<C>>>,
}

/// Any GeoJSON object, with its positions read.
#[allow(inconsistent_fields)]
pub enum GeoObject<C> {
    FeatureCollection { features: Vec<GeoObject<C>> },
    /// `properties` is the member as JSON text, `None` where it was absent or
    /// `null`; `id` is the member as text, `None` where it was neither a
    /// string nor a number.
    Feature { geometry: Option<Box<GeoObject<C>>>, properties: Option<String>, id: Option<String> },
    GeometryCollection { geometries: Vec<GeoObject<C>> },
    Point { coordinates: Option<C> },
    MultiPoint { coordinates: Vec<Option<C>> },
    LineString { coordinates: Vec<Option<C>> },
    MultiLineString { coordinates: Vec<Vec<Option<C>>> },
    Polygon { coordinates: Vec<GeoRing<C>> },
    MultiPolygon { coordinates: Vec<Vec<GeoRing<C>>> },
}

// ---------------------------------------------------------------------------
// What a walk adds
// ---------------------------------------------------------------------------

/// What walking part of a document adds to a store: features, and the
/// points, lines and polygons filed under them, each in the order met.
pub struct Flattened<C> {
    pub features: Seq<(Option<Seq<char>>, Option<Seq<char>>)>,
    pub points: Seq<(u32, C)>,
    pub lines: Seq<(u32, Seq<C>)>,
    pub polygons: Seq<(u32, Seq<Seq<C>>)>,
}

/// The vertices of a run of lines, counted.
pub open spec fn lines_vertices<C>(lines: Seq<(u32, Seq<C>)>) -> nat
    decreases lines.len(),
{
    if lines.len() == 0 {
        0
    } else {
        lines_vertices(lines.drop_last()) + lines.last().1.len()
    }
}

/// The vertices of a run of polygons, every ring counted.
pub open spec fn polygons_vertices<C>(polygons: Seq<(u32, Seq<Seq<C>>)>) -> nat
    decreases polygons.len(),
{
    if polygons.len() == 0 {
        0
    } else {
        polygons_vertices(polygons.drop_last()) + total_len(polygons.last().1)
    }
}

/// The rings of a run of polygons, counted.
pub open spec fn polygons_rings<C>(polygons: Seq<(u32, Seq<Seq<C>>)>) -> nat
    decreases polygons.len(),
{
    if polygons.len() == 0 {
        0
    } else {
        polygons_rings(polygons.drop_last()) + polygons.last().1.len()
    }
}

impl<C> Flattened<C> {
    pub open spec fn nothing() -> Self {
        Flattened {
            features: Seq::empty(),
            points: Seq::empty(),
            lines: Seq::empty(),
            polygons: Seq::empty(),
        }
    }

    /// This, and then `next`.
    pub open spec fn followed_by(self, next: Self) -> Self {
        Flattened {
            features: self.features + next.features,
            points: self.points + next.points,
            lines: self.lines + next.lines,
            polygons: self.polygons + next.polygons,
        }
    }
}

/// Whether a store has room, in its `u32` feature indices and its `i32`
/// offsets, for what a walk adds.
pub open spec fn fits<C>(set: FeatureSet<C>, added: Flattened<C>) -> bool {
    &&& set.features().len() + added.features.len() <= u32::MAX
    &&& set.extent().0 + lines_vertices(added.lines) <= i32::MAX
    &&& set.extent().1 + polygons_vertices(added.polygons) <= i32::MAX
    &&& set.extent().2 + polygons_rings(added.polygons) <= i32::MAX
}

/// `after` is `before` with `added` appended.
pub open spec fn grown<C>(before: FeatureSet<C>, after: FeatureSet<C>, added: Flattened<C>) -> bool {
    &&& after.features() == before.features() + added.features
    &&& after.points() == before.points() + added.points
    &&& after.lines() == before.lines() + added.lines
    &&& after.polygons() == before.polygons() + added.polygons
    &&& after.extent() == (
        before.extent().0 + lines_vertices(added.lines),
        before.extent().1 + polygons_vertices(added.polygons),
        before.extent().2 + polygons_rings(added.polygons),
    )
}

// ---------------------------------------------------------------------------
// The walk, as a function of the document
// ---------------------------------------------------------------------------

/// The positions that could be read, in order.
pub open spec fn usable<C>(positions: Seq<Option<C>>) -> Seq<C>
    decreases positions.len(),
{
    if positions.len() == 0 {
        Seq::empty()
    } else {
        let before = usable(positions.drop_last());
        match positions.last() {
            Some(position) => before.push(position),
            None => before,
        }
    }
}

/// A ring, opened: its readable positions without the repeat that closes it
/// — a last position at the place of the first, which RFC 7946 requires.
pub open spec fn opened<C>(ring: GeoRing<C>) -> Seq<GeoPosition<C>> {
    let kept = usable(ring.positions@);
    if kept.len() >= 2 && kept[0].place == kept.last().place {
        kept.drop_last()
    } else {
        kept
    }
}

/// Whether corners stand at three different places at least: fewer cannot
/// bound an area.
pub open spec fn three_corners<C>(corners: Seq<GeoPosition<C>>) -> bool {
    exists|i: int, j: int, k: int|
        0 <= i < corners.len() && 0 <= j < corners.len() && 0 <= k < corners.len() && (
        #[trigger] corners[i]).place != (#[trigger] corners[j]).place && corners[i].place != (
        #[trigger] corners[k]).place && corners[j].place != corners[k].place
}

/// The coordinates of a run of corners.
pub open spec fn coords<C>(corners: Seq<GeoPosition<C>>) -> Seq<C> {
    corners.map_values(|corner: GeoPosition<C>| corner.coord)
}

/// The rings that are drawn, opened, in order: those with three corners.
pub open spec fn drawn_rings<C>(rings: Seq<GeoRing<C>>) -> Seq<Seq<C>>
    decreases rings.len(),
{
    if rings.len() == 0 {
        Seq::empty()
    } else {
        let before = drawn_rings(rings.drop_last());
        if three_corners(opened(rings.last())) {
            before.push(coords(opened(rings.last())))
        } else {
            before
        }
    }
}

/// The features invented for a shape: one, unless it already has an owner.
pub open spec fn invented(owner: Option<u32>) -> Seq<(Option<Seq<char>>, Option<Seq<char>>)> {
    match owner {
        Some(_) => Seq::empty(),
        None => seq![(None, None)],
    }
}

/// The feature a shape is filed under: its owner, or the one invented for it,
/// which is the next after the `base` features already in the store.
pub open spec fn owner_index(owner: Option<u32>, base: nat) -> u32 {
    match owner {
        Some(feature) => feature,
        None => base as u32,
    }
}

pub open spec fn points_flattened<C>(points: Seq<C>, owner: Option<u32>, base: nat) -> Flattened<C> {
    if points.len() == 0 {
        Flattened::nothing()
    } else {
        Flattened {
            features: invented(owner),
            points: points.map_values(|point: C| (owner_index(owner, base), point)),
            lines: Seq::empty(),
            polygons: Seq::empty(),
        }
    }
}

pub open spec fn line_flattened<C>(line: Seq<C>, owner: Option<u32>, base: nat) -> Flattened<C> {
    if line.len() < 2 {
        Flattened::nothing()
    } else {
        Flattened {
            features: invented(owner),
            points: Seq::empty(),
            lines: seq![(owner_index(owner, base), line)],
            polygons: Seq::empty(),
        }
    }
}

/// A polygon is drawn when its outer ring has three corners, with every ring
/// that has; when the outer ring is lost the polygon goes whole, because a
/// hole is not a hole in anything.
pub open spec fn polygon_flattened<C>(rings: Seq<GeoRing<C>>, owner: Option<u32>, base: nat) -> Flattened<
    C,
> {
    if rings.len() == 0 || !three_corners(opened(rings[0])) {
        Flattened::nothing()
    } else {
        Flattened {
            features: invented(owner),
            points: Seq::empty(),
            lines: Seq::empty(),
            polygons: seq![(owner_index(owner, base), drawn_rings(rings))],
        }
    }
}

/// The first `count` strands of a `MultiLineString`, each a line of its own.
pub open spec fn strands_flattened<C>(
    strands: Seq<Vec<Option<C>>>,
    owner: Option<u32>,
    base: nat,
    count: int,
) -> Flattened<C>
    decreases count,
{
    if count <= 0 || count > strands.len() {
        Flattened::nothing()
    } else {
        let before = strands_flattened(strands, owner, base, count - 1);
        before.followed_by(
            line_flattened(usable(strands[count - 1]@), owner, base + before.features.len()),
        )
    }
}

/// The first `count` polygons of a `MultiPolygon`.
pub open spec fn parts_flattened<C>(
    parts: Seq<Vec<GeoRing<C>>>,
    owner: Option<u32>,
    base: nat,
    count: int,
) -> Flattened<C>
    decreases count,
{
    if count <= 0 || count > parts.len() {
        Flattened::nothing()
    } else {
        let before = parts_flattened(parts, owner, base, count - 1);
        before.followed_by(
            polygon_flattened(parts[count - 1]@, owner, base + before.features.len()),
        )
    }
}

/// What walking `object` adds to a store already holding `base` features,
/// everything found filed under `owner` where there is one.
pub open spec fn flattened<C>(object: GeoObject<C>, owner: Option<u32>, base: nat) -> Flattened<C>
    decreases object, 0int,
{
    match object {
        GeoObject::FeatureCollection { features } => members_flattened(
            features@,
            owner,
            base,
            features@.len() as int,
        ),
        GeoObject::Feature { geometry, properties, id } => {
            let head = Flattened {
                features: seq![(text_view(id), text_view(properties))],
                points: Seq::empty(),
                lines: Seq::empty(),
                polygons: Seq::empty(),
            };
            match geometry {
                Some(inner) => head.followed_by(flattened(*inner, Some(base as u32), base + 1)),
                None => head,
            }
        },
        GeoObject::GeometryCollection { geometries } => members_flattened(
            geometries@,
            owner,
            base,
            geometries@.len() as int,
        ),
        GeoObject::Point { coordinates } => match coordinates {
            Some(point) => points_flattened(seq![point], owner, base),
            None => Flattened::nothing(),
        },
        GeoObject::MultiPoint { coordinates } => points_flattened(usable(coordinates@), owner, base),
        GeoObject::LineString { coordinates } => line_flattened(usable(coordinates@), owner, base),
        GeoObject::MultiLineString { coordinates } => strands_flattened(
            coordinates@,
            owner,
            base,
            coordinates@.len() as int,
        ),
        GeoObject::Polygon { coordinates } => polygon_flattened(coordinates@, owner, base),
        GeoObject::MultiPolygon { coordinates } => parts_flattened(
            coordinates@,
            owner,
            base,
            coordinates@.len() as int,
        ),
    }
}

/// The first `count` members of a collection, one after another.
pub open spec fn members_flattened<C>(
    members: Seq<GeoObject<C>>,
    owner: Option<u32>,
    base: nat,
    count: int,
) -> Flattened<C>
    decreases members, count,
{
    if count <= 0 || count > members.len() {
        Flattened::nothing()
    } else {
        let before = members_flattened(members, owner, base, count - 1);
        before.followed_by(flattened(members[count - 1], owner, base + before.features.len()))
    }
}


// ---------------------------------------------------------------------------
// Counting what a walk adds
// ---------------------------------------------------------------------------

proof fn lemma_lines_vertices_add<C>(a: Seq<(u32, Seq<C>)>, b: Seq<(u32, Seq<C>)>)
    ensures
        lines_vertices(a + b) == lines_vertices(a) + lines_vertices(b),
    decreases b.len(),
{
    if b.len() > 0 {
        lemma_lines_vertices_add(a, b.drop_last());
        assert((a + b).drop_last() =~= a + b.drop_last());
    } else {
        assert(a + b =~= a);
    }
}

proof fn lemma_polygons_add<C>(a: Seq<(u32, Seq<Seq<C>>)>, b: Seq<(u32, Seq<Seq<C>>)>)
    ensures
        polygons_vertices(a + b) == polygons_vertices(a) + polygons_vertices(b),
        polygons_rings(a + b) == polygons_rings(a) + polygons_rings(b),
    decreases b.len(),
{
    if b.len() > 0 {
        lemma_polygons_add(a, b.drop_last());
        assert((a + b).drop_last() =~= a + b.drop_last());
    } else {
        assert(a + b =~= a);
    }
}

proof fn lemma_followed_by<C>(x: Flattened<C>, y: Flattened<C>)
    ensures
        x.followed_by(y).features.len() == x.features.len() + y.features.len(),
        lines_vertices(x.followed_by(y).lines) == lines_vertices(x.lines) + lines_vertices(y.lines),
        polygons_vertices(x.followed_by(y).polygons) == polygons_vertices(x.polygons)
            + polygons_vertices(y.polygons),
        polygons_rings(x.followed_by(y).polygons) == polygons_rings(x.polygons) + polygons_rings(
            y.polygons,
        ),
{
    lemma_lines_vertices_add(x.lines, y.lines);
    lemma_polygons_add(x.polygons, y.polygons);
}

/// Growing by `x` and then by `y` is growing by `x` followed by `y`.
proof fn lemma_grown_step<C>(
    a: FeatureSet<C>,
    b: FeatureSet<C>,
    c: FeatureSet<C>,
    x: Flattened<C>,
    y: Flattened<C>,
)
    requires
        grown(a, b, x),
        grown(b, c, y),
    ensures
        grown(a, c, x.followed_by(y)),
{
    lemma_followed_by(x, y);
    assert(c.features() =~= a.features() + x.followed_by(y).features);
    assert(c.points() =~= a.points() + x.followed_by(y).points);
    assert(c.lines() =~= a.lines() + x.followed_by(y).lines);
    assert(c.polygons() =~= a.polygons() + x.followed_by(y).polygons);
}

/// Once `x` is in, there is room for `y` exactly when there was room for
/// both to begin with.
proof fn lemma_fits_after<C>(a: FeatureSet<C>, b: FeatureSet<C>, x: Flattened<C>, y: Flattened<C>)
    requires
        grown(a, b, x),
    ensures
        fits(b, y) <==> fits(a, x.followed_by(y)),
{
    lemma_followed_by(x, y);
}

proof fn lemma_fits_prefix<C>(a: FeatureSet<C>, x: Flattened<C>, y: Flattened<C>)
    requires
        fits(a, x.followed_by(y)),
    ensures
        fits(a, x),
{
    lemma_followed_by(x, y);
}

proof fn lemma_nothing<C>(set: FeatureSet<C>)
    requires
        set.features().len() <= u32::MAX,
        set.extent().0 <= i32::MAX,
        set.extent().1 <= i32::MAX,
        set.extent().2 <= i32::MAX,
    ensures
        fits(set, Flattened::nothing()),
        grown(set, set, Flattened::nothing()),
{
    let none = Flattened::<C>::nothing();
    assert(set.features() + none.features =~= set.features());
    assert(set.points() + none.points =~= set.points());
    assert(set.lines() + none.lines =~= set.lines());
    assert(set.polygons() + none.polygons =~= set.polygons());
}

proof fn lemma_members_fit_prefix<C>(
    set: FeatureSet<C>,
    members: Seq<GeoObject<C>>,
    owner: Option<u32>,
    base: nat,
    i: int,
    j: int,
)
    requires
        0 <= i <= j <= members.len(),
        fits(set, members_flattened(members, owner, base, j)),
    ensures
        fits(set, members_flattened(members, owner, base, i)),
    decreases j - i,
{
    if i < j {
        let before = members_flattened(members, owner, base, j - 1);
        lemma_fits_prefix(set, before, flattened(members[j - 1], owner, base + before.features.len()));
        lemma_members_fit_prefix(set, members, owner, base, i, j - 1);
    }
}

proof fn lemma_strands_fit_prefix<C>(
    set: FeatureSet<C>,
    strands: Seq<Vec<Option<C>>>,
    owner: Option<u32>,
    base: nat,
    i: int,
    j: int,
)
    requires
        0 <= i <= j <= strands.len(),
        fits(set, strands_flattened(strands, owner, base, j)),
    ensures
        fits(set, strands_flattened(strands, owner, base, i)),
    decreases j - i,
{
    if i < j {
        let before = strands_flattened(strands, owner, base, j - 1);
        lemma_fits_prefix(
            set,
            before,
            line_flattened(usable(strands[j - 1]@), owner, base + before.features.len()),
        );
        lemma_strands_fit_prefix(set, strands, owner, base, i, j - 1);
    }
}

proof fn lemma_parts_fit_prefix<C>(
    set: FeatureSet<C>,
    parts: Seq<Vec<GeoRing<C>>>,
    owner: Option<u32>,
    base: nat,
    i: int,
    j: int,
)
    requires
        0 <= i <= j <= parts.len(),
        fits(set, parts_flattened(parts, owner, base, j)),
    ensures
        fits(set, parts_flattened(parts, owner, base, i)),
    decreases j - i,
{
    if i < j {
        let before = parts_flattened(parts, owner, base, j - 1);
        lemma_fits_prefix(
            set,
            before,
            polygon_flattened(parts[j - 1]@, owner, base + before.features.len()),
        );
        lemma_parts_fit_prefix(set, parts, owner, base, i, j - 1);
    }
}

// ---------------------------------------------------------------------------
// The walk
// ---------------------------------------------------------------------------

/// The most features a store's `u32` indices can number.
const FEATURE_LIMIT: usize = 4294967295;

/// The largest offset a store's `i32` offset buffers can hold.
const OFFSET_LIMIT: usize = 2147483647;

/// The positions that could be read, in order.
fn usable_positions<C: Copy>(positions: &Vec<Option<C>>) -> (kept: Vec<C>)
    ensures
        kept@ == usable(positions@),
{
    let mut kept: Vec<C> = Vec::new();
    let mut i: usize = 0;
    while i < positions.len()
        invariant
            i <= positions@.len(),
            kept@ == usable(positions@.take(i as int)),
        decreases positions@.len() - i,
    {
        assert(positions@.take(i + 1).drop_last() =~= positions@.take(i as int));
        match &positions[i] {
            Some(position) => kept.push(*position),
            None => {},
        }
        i = i + 1;
    }
    assert(positions@.take(positions@.len() as int) =~= positions@);
    kept
}

/// A ring without its closing repeat.
fn open_ring<C: Copy>(ring: &GeoRing<C>) -> (open: Vec<GeoPosition<C>>)
    ensures
        open@ == opened(*ring),
{
    let mut open = usable_positions(&ring.positions);
    let n = open.len();
    if n >= 2 {
        let first = open[0].place;
        let last = open[n - 1].place;
        if first.latitude == last.latitude && first.longitude == last.longitude {
            open.pop();
        }
    }
    open
}

/// Whether corners stand at three different places at least.
fn has_three_corners<C: Copy>(corners: &Vec<GeoPosition<C>>) -> (three: bool)
    ensures
        three == three_corners(corners@),
{
    let n = corners.len();
    if n == 0 {
        return false;
    }
    let a = corners[0].place;
    let mut i: usize = 1;
    while i < n && corners[i].place.latitude == a.latitude && corners[i].place.longitude == a.longitude
        invariant
            n == corners@.len(),
            1 <= i <= n,
            a == corners@[0].place,
            forall|j: int| 0 <= j < i ==> (#[trigger] corners@[j]).place == a,
        decreases n - i,
    {
        i = i + 1;
    }
    if i == n {
        assert(!three_corners(corners@)) by {
            if three_corners(corners@) {
                let (x, y, z) = choose|x: int, y: int, z: int|
                    0 <= x < corners@.len() && 0 <= y < corners@.len() && 0 <= z < corners@.len()
                        && (#[trigger] corners@[x]).place != (#[trigger] corners@[y]).place
                        && corners@[x].place != (#[trigger] corners@[z]).place && corners@[y].place
                        != corners@[z].place;
                assert(corners@[x].place == a && corners@[y].place == a);
            }
        }
        return false;
    }
    let b = corners[i].place;
    assert(b != a);
    let mut k: usize = i + 1;
    while k < n && ((corners[k].place.latitude == a.latitude && corners[k].place.longitude == a.longitude) || (
    corners[k].place.latitude == b.latitude && corners[k].place.longitude == b.longitude))
        invariant
            n == corners@.len(),
            i < k <= n,
            a == corners@[0].place,
            b == corners@[i as int].place,
            forall|j: int| 0 <= j < k ==> (#[trigger] corners@[j]).place == a || corners@[j].place == b,
        decreases n - k,
    {
        k = k + 1;
    }
    if k == n {
        assert(!three_corners(corners@)) by {
            if three_corners(corners@) {
                let (x, y, z) = choose|x: int, y: int, z: int|
                    0 <= x < corners@.len() && 0 <= y < corners@.len() && 0 <= z < corners@.len()
                        && (#[trigger] corners@[x]).place != (#[trigger] corners@[y]).place
                        && corners@[x].place != (#[trigger] corners@[z]).place && corners@[y].place
                        != corners@[z].place;
                assert(corners@[x].place == a || corners@[x].place == b);
                assert(corners@[y].place == a || corners@[y].place == b);
                assert(corners@[z].place == a || corners@[z].place == b);
            }
        }
        return false;
    }
    assert(corners@[0].place != corners@[i as int].place && corners@[0].place
        != corners@[k as int].place && corners@[i as int].place != corners@[k as int].place);
    true
}

proof fn lemma_three_corners_len<C>(corners: Seq<GeoPosition<C>>)
    requires
        three_corners(corners),
    ensures
        corners.len() >= 3,
{
    let (x, y, z) = choose|x: int, y: int, z: int|
        0 <= x < corners.len() && 0 <= y < corners.len() && 0 <= z < corners.len() && (
        #[trigger] corners[x]).place != (#[trigger] corners[y]).place && corners[x].place != (
        #[trigger] corners[z]).place && corners[y].place != corners[z].place;
    assert(x != y && x != z && y != z);
}

/// The coordinates of a run of corners.
fn corner_coords<C: Copy>(corners: &Vec<GeoPosition<C>>) -> (out: Vec<C>)
    ensures
        out@ == coords(corners@),
{
    let mut out: Vec<C> = Vec::new();
    let mut i: usize = 0;
    while i < corners.len()
        invariant
            i <= corners@.len(),
            out@ == coords(corners@.take(i as int)),
        decreases corners@.len() - i,
    {
        out.push(corners[i].coord);
        i = i + 1;
        assert(out@ =~= coords(corners@.take(i as int)));
    }
    assert(corners@.take(corners@.len() as int) =~= corners@);
    out
}

/// Rings of at least three vertices each are all kept as they are.
proof fn lemma_closed_rings_of_long_rings<C>(runs: Seq<Seq<C>>)
    requires
        forall|k: int| 0 <= k < runs.len() ==> (#[trigger] runs[k]).len() >= 3,
    ensures
        closed_rings(runs) == runs,
    decreases runs.len(),
{
    if runs.len() > 0 {
        lemma_closed_rings_of_long_rings(runs.drop_last());
        assert(runs.drop_last().push(runs.last()) =~= runs);
    } else {
        assert(closed_rings(runs) =~= runs);
    }
}

/// The drawn rings of a polygon, as vertex runs, and whether its outer ring
/// is one of them.
fn drawn_ring_list<C: Copy>(rings: &Vec<GeoRing<C>>) -> (drawn: (Vec<Vec<C>>, bool))
    ensures
        ring_views(drawn.0@) == drawn_rings(rings@),
        drawn.1 == (rings@.len() > 0 && three_corners(opened(rings@[0]))),
        forall|k: int| 0 <= k < drawn.0@.len() ==> (#[trigger] drawn.0@[k])@.len() >= 3,
{
    let mut out: Vec<Vec<C>> = Vec::new();
    let mut outer = false;
    let mut i: usize = 0;
    while i < rings.len()
        invariant
            i <= rings@.len(),
            ring_views(out@) == drawn_rings(rings@.take(i as int)),
            forall|k: int| 0 <= k < out@.len() ==> (#[trigger] out@[k])@.len() >= 3,
            outer == (i > 0 && three_corners(opened(rings@[0]))),
        decreases rings@.len() - i,
    {
        proof {
            assert(rings@.take(i + 1).drop_last() =~= rings@.take(i as int));
            assert(rings@.take(i + 1).last() == rings@[i as int]);
        }
        let open = open_ring(&rings[i]);
        let three = has_three_corners(&open);
        if i == 0 {
            outer = three;
        }
        if three {
            proof {
                lemma_three_corners_len(open@);
            }
            let ring = corner_coords(&open);
            let ghost before = out@;
            out.push(ring);
            assert(ring_views(out@) =~= ring_views(before).push(ring@));
        }
        i = i + 1;
    }
    assert(rings@.take(rings@.len() as int) =~= rings@);
    (out, outer)
}

fn copy_text(text: &Option<String>) -> (copy: Option<String>)
    ensures
        text_view(copy) == text_view(*text),
{
    match text {
        Some(text) => Some(text.clone()),
        None => None,
    }
}

/// Only features, nothing filed under them.
pub open spec fn only_features<C>(
    features: Seq<(Option<Seq<char>>, Option<Seq<char>>)>,
) -> Flattened<C> {
    Flattened { features, points: Seq::empty(), lines: Seq::empty(), polygons: Seq::empty() }
}

/// The feature a shape is filed under, inventing one when it has no owner.
fn owner<C: Copy>(into: &mut FeatureSetBuilder<C>, feature: Option<u32>) -> (index: u32)
    requires
        old(into).wf(),
        feature is None ==> old(into).current().features().len() < u32::MAX,
    ensures
        final(into).wf(),
        index == owner_index(feature, old(into).current().features().len()),
        grown(old(into).current(), final(into).current(), only_features(invented(feature))),
{
    proof {
        into.lemma_within_limits();
        lemma_nothing(into.current());
    }
    match feature {
        Some(index) => {
            assert(only_features::<C>(invented(feature)) == Flattened::<C>::nothing());
            index
        },
        None => {
            let index = into.feature(None, None);
            proof {
                let added = only_features::<C>(invented(feature));
                assert(into.current().features() =~= old(into).current().features()
                    + added.features);
                assert(into.current().points() =~= old(into).current().points() + added.points);
                assert(into.current().lines() =~= old(into).current().lines() + added.lines);
                assert(into.current().polygons() =~= old(into).current().polygons()
                    + added.polygons);
            }
            index
        },
    }
}

/// Files points under one feature, inventing it when they have no owner and
/// there are any.
fn push_points<C: Copy>(into: &mut FeatureSetBuilder<C>, feature: Option<u32>, points: &Vec<C>) -> (complete: bool)
    requires
        old(into).wf(),
    ensures
        final(into).wf(),
        complete == fits(
            old(into).current(),
            points_flattened(points@, feature, old(into).current().features().len()),
        ),
        complete ==> grown(
            old(into).current(),
            final(into).current(),
            points_flattened(points@, feature, old(into).current().features().len()),
        ),
{
    let ghost start = into.current();
    let ghost base = start.features().len();
    proof {
        into.lemma_within_limits();
        lemma_nothing(start);
    }
    if points.len() == 0 {
        return true;
    }
    if feature.is_none() && into.features_so_far() >= FEATURE_LIMIT {
        return false;
    }
    let index = owner(into, feature);
    let ghost head = only_features::<C>(invented(feature));
    let ghost mid = into.current();
    let mut k: usize = 0;
    while k < points.len()
        invariant
            into.wf(),
            k <= points@.len(),
            grown(
                mid,
                into.current(),
                Flattened {
                    features: Seq::empty(),
                    points: points@.take(k as int).map_values(|point: C| (index, point)),
                    lines: Seq::empty(),
                    polygons: Seq::empty(),
                },
            ),
        decreases points@.len() - k,
    {
        let ghost before = into.current();
        into.push_point(index, points[k]);
        proof {
            let so_far = points@.take(k as int).map_values(|point: C| (index, point));
            let next = points@.take(k + 1).map_values(|point: C| (index, point));
            assert(next =~= so_far.push((index, points@[k as int])));
            assert(into.current().points() =~= mid.points() + next);
            assert(into.current().features() =~= mid.features() + Seq::empty());
            assert(into.current().lines() =~= mid.lines() + Seq::empty());
            assert(into.current().polygons() =~= mid.polygons() + Seq::empty());
        }
        k = k + 1;
    }
    proof {
        let all = Flattened {
            features: Seq::<(Option<Seq<char>>, Option<Seq<char>>)>::empty(),
            points: points@.take(points@.len() as int).map_values(|point: C| (index, point)),
            lines: Seq::empty(),
            polygons: Seq::empty(),
        };
        lemma_grown_step(start, mid, into.current(), head, all);
        assert(points@.take(points@.len() as int) =~= points@);
        assert(head.followed_by(all) =~= points_flattened(points@, feature, base));
    }
    true
}

/// Files one line, inventing a feature for it when it has no owner — but
/// only once it has turned out to be a line, so that a document of nothing
/// but unusable lines does not come back full of empty features.
fn push_line<C: Copy>(
    into: &mut FeatureSetBuilder<C>,
    feature: Option<u32>,
    positions: &Vec<Option<C>>,
) -> (complete: bool)
    requires
        old(into).wf(),
    ensures
        final(into).wf(),
        complete == fits(
            old(into).current(),
            line_flattened(usable(positions@), feature, old(into).current().features().len()),
        ),
        complete ==> grown(
            old(into).current(),
            final(into).current(),
            line_flattened(usable(positions@), feature, old(into).current().features().len()),
        ),
{
    let ghost start = into.current();
    let ghost base = start.features().len();
    proof {
        into.lemma_within_limits();
        lemma_nothing(start);
    }
    let line = usable_positions(positions);
    if line.len() < 2 {
        return true;
    }
    if feature.is_none() && into.features_so_far() >= FEATURE_LIMIT {
        return false;
    }
    let (run, _, _) = into.extent_so_far();
    if line.len() > OFFSET_LIMIT - run {
        return false;
    }
    let index = owner(into, feature);
    let ghost head = only_features::<C>(invented(feature));
    let ghost mid = into.current();
    into.push_line(index, line.as_slice());
    proof {
        let tail = Flattened {
            features: Seq::<(Option<Seq<char>>, Option<Seq<char>>)>::empty(),
            points: Seq::empty(),
            lines: seq![(index, line@)],
            polygons: Seq::empty(),
        };
        assert(lines_vertices(tail.lines) == line@.len()) by {
            assert(tail.lines.drop_last() =~= Seq::<(u32, Seq<C>)>::empty());
        }
        assert(into.current().lines() =~= mid.lines() + tail.lines);
        assert(into.current().features() =~= mid.features() + tail.features);
        assert(into.current().points() =~= mid.points() + tail.points);
        assert(into.current().polygons() =~= mid.polygons() + tail.polygons);
        lemma_grown_step(start, mid, into.current(), head, tail);
        assert(head.followed_by(tail) =~= line_flattened(line@, feature, base));
    }
    true
}

/// Whether the rings of a polygon that can bound an area leave their
/// vertices within `vertex_room` and their number within `ring_room`.
fn closed_rings_fit<C>(rings: &Vec<Vec<C>>, vertex_room: usize, ring_room: usize) -> (fit: bool)
    ensures
        fit == (total_len(closed_rings(ring_views(rings@))) <= vertex_room && closed_rings(
            ring_views(rings@),
        ).len() <= ring_room),
{
    let ghost views = ring_views(rings@);
    let mut vertices: usize = 0;
    let mut count: usize = 0;
    let mut i: usize = 0;
    while i < rings.len()
        invariant
            views == ring_views(rings@),
            i <= rings@.len(),
            vertices == total_len(closed_rings(views.take(i as int))),
            count == closed_rings(views.take(i as int)).len(),
            vertices <= vertex_room,
            count <= ring_room,
        decreases rings@.len() - i,
    {
        let ghost before = closed_rings(views.take(i as int));
        proof {
            assert(views.take(i + 1).drop_last() =~= views.take(i as int));
            assert(views.take(i + 1).last() == rings@[i as int]@);
        }
        let n = rings[i].len();
        if n >= 3 {
            proof {
                let after = closed_rings(views.take(i + 1));
                assert(after == before.push(rings@[i as int]@));
                assert(after.drop_last() =~= before);
                crate::features::lemma_closed_rings_take(views, i + 1);
            }
            if n > vertex_room - vertices || count >= ring_room {
                return false;
            }
            vertices = vertices + n;
            count = count + 1;
        }
        i = i + 1;
    }
    assert(views.take(rings@.len() as int) =~= views);
    true
}

/// Files one polygon, inventing a feature for it when it has no owner and it
/// turns out to have an outer ring.
fn push_polygon<C: Copy>(
    into: &mut FeatureSetBuilder<C>,
    feature: Option<u32>,
    rings: &Vec<GeoRing<C>>,
) -> (complete: bool)
    requires
        old(into).wf(),
    ensures
        final(into).wf(),
        complete == fits(
            old(into).current(),
            polygon_flattened(rings@, feature, old(into).current().features().len()),
        ),
        complete ==> grown(
            old(into).current(),
            final(into).current(),
            polygon_flattened(rings@, feature, old(into).current().features().len()),
        ),
{
    let ghost start = into.current();
    let ghost base = start.features().len();
    proof {
        into.lemma_within_limits();
        lemma_nothing(start);
    }
    let (drawn, outer) = drawn_ring_list(rings);
    let ghost views = ring_views(drawn@);
    proof {
        assert forall|k: int| 0 <= k < views.len() implies (#[trigger] views[k]).len() >= 3 by {
            assert(views[k] == drawn@[k]@);
        }
        lemma_closed_rings_of_long_rings(views);
    }
    if !outer {
        return true;
    }
    proof {
        lemma_drawn_rings_nonempty(rings@);
    }
    if feature.is_none() && into.features_so_far() >= FEATURE_LIMIT {
        return false;
    }
    let (_, vertices_run, rings_run) = into.extent_so_far();
    if !closed_rings_fit(&drawn, OFFSET_LIMIT - vertices_run, OFFSET_LIMIT - rings_run) {
        return false;
    }
    let index = owner(into, feature);
    let ghost head = only_features::<C>(invented(feature));
    let ghost mid = into.current();
    into.push_polygon(index, &drawn);
    proof {
        let kept = views;
        assert(drawn@[0]@.len() >= 3);
        let tail = Flattened {
            features: Seq::<(Option<Seq<char>>, Option<Seq<char>>)>::empty(),
            points: Seq::empty(),
            lines: Seq::empty(),
            polygons: seq![(index, kept)],
        };
        assert(polygons_vertices(tail.polygons) == total_len(kept) && polygons_rings(tail.polygons)
            == kept.len()) by {
            assert(tail.polygons.drop_last() =~= Seq::<(u32, Seq<Seq<C>>)>::empty());
        }
        assert(into.current().polygons() =~= mid.polygons() + tail.polygons);
        assert(into.current().features() =~= mid.features() + tail.features);
        assert(into.current().points() =~= mid.points() + tail.points);
        assert(into.current().lines() =~= mid.lines() + tail.lines);
        lemma_grown_step(start, mid, into.current(), head, tail);
        assert(head.followed_by(tail) =~= polygon_flattened(rings@, feature, base));
    }
    true
}

proof fn lemma_drawn_rings_nonempty<C>(rings: Seq<GeoRing<C>>)
    requires
        rings.len() > 0,
        three_corners(opened(rings[0])),
    ensures
        drawn_rings(rings).len() > 0,
    decreases rings.len(),
{
    if rings.len() > 1 {
        assert(rings.drop_last()[0] == rings[0]);
        lemma_drawn_rings_nonempty(rings.drop_last());
    } else {
        assert(rings.last() == rings[0]);
    }
}

impl<C: Copy> GeoObject<C> {
    /// Walks the object, adding what it finds to `into`; everything found is
    /// filed under `feature`, where there is one.
    ///
    /// The return says whether the walk went through: it stops, and says so,
    /// at the first shape for which the store's `u32` feature indices or
    /// `i32` offsets have no room left, and then `into` holds some of it.
    pub fn collect(&self, into: &mut FeatureSetBuilder<C>, feature: Option<u32>) -> (complete: bool)
        requires
            old(into).wf(),
        ensures
            final(into).wf(),
            complete == fits(
                old(into).current(),
                flattened(*self, feature, old(into).current().features().len()),
            ),
            complete ==> grown(
                old(into).current(),
                final(into).current(),
                flattened(*self, feature, old(into).current().features().len()),
            ),
        decreases self,
    {
        let ghost start = into.current();
        let ghost base = start.features().len();
        proof {
            into.lemma_within_limits();
            lemma_nothing(start);
        }
        match self {
            GeoObject::FeatureCollection { features: members } => {
                proof {
                    assert forall|k: int| 0 <= k < members@.len() implies decreases_to!(*self => #[trigger] members@[k]) by {
                        assert(decreases_to!(*self => *members));
                        assert(decreases_to!(*members => members@));
                        assert(decreases_to!(members@ => members@[k]));
                    }
                }
                let mut i: usize = 0;
                while i < members.len()
                    invariant
                        forall|k: int| 0 <= k < members@.len() ==> decreases_to!(*self => #[trigger] members@[k]),
                        into.wf(),
                        i <= members@.len(),
                        start == old(into).current(),
                        base == start.features().len(),
                        flattened(*self, feature, base) == members_flattened(
                            members@,
                            feature,
                            base,
                            members@.len() as int,
                        ),
                        grown(start, into.current(), members_flattened(members@, feature, base, i as int)),
                        fits(start, members_flattened(members@, feature, base, i as int)),
                    decreases members@.len() - i,
                {
                    let ghost before = members_flattened(members@, feature, base, i as int);
                    let ghost current = into.current();
                    let ghost member = flattened(
                        members@[i as int],
                        feature,
                        base + before.features.len(),
                    );
                    assert(current.features().len() == base + before.features.len());
                    let done = members[i].collect(into, feature);
                    proof {
                        lemma_fits_after(start, current, before, member);
                        if done {
                            lemma_grown_step(start, current, into.current(), before, member);
                        } else if fits(start, flattened(*self, feature, base)) {
                            lemma_members_fit_prefix(
                                start,
                                members@,
                                feature,
                                base,
                                i + 1,
                                members@.len() as int,
                            );
                        }
                    }
                    if !done {
                        return false;
                    }
                    i = i + 1;
                }
                true
            },
            GeoObject::GeometryCollection { geometries: members } => {
                proof {
                    assert forall|k: int| 0 <= k < members@.len() implies decreases_to!(*self => #[trigger] members@[k]) by {
                        assert(decreases_to!(*self => *members));
                        assert(decreases_to!(*members => members@));
                        assert(decreases_to!(members@ => members@[k]));
                    }
                }
                let mut i: usize = 0;
                while i < members.len()
                    invariant
                        forall|k: int| 0 <= k < members@.len() ==> decreases_to!(*self => #[trigger] members@[k]),
                        into.wf(),
                        i <= members@.len(),
                        start == old(into).current(),
                        base == start.features().len(),
                        flattened(*self, feature, base) == members_flattened(
                            members@,
                            feature,
                            base,
                            members@.len() as int,
                        ),
                        grown(start, into.current(), members_flattened(members@, feature, base, i as int)),
                        fits(start, members_flattened(members@, feature, base, i as int)),
                    decreases members@.len() - i,
                {
                    let ghost before = members_flattened(members@, feature, base, i as int);
                    let ghost current = into.current();
                    let ghost member = flattened(
                        members@[i as int],
                        feature,
                        base + before.features.len(),
                    );
                    assert(current.features().len() == base + before.features.len());
                    let done = members[i].collect(into, feature);
                    proof {
                        lemma_fits_after(start, current, before, member);
                        if done {
                            lemma_grown_step(start, current, into.current(), before, member);
                        } else if fits(start, flattened(*self, feature, base)) {
                            lemma_members_fit_prefix(
                                start,
                                members@,
                                feature,
                                base,
                                i + 1,
                                members@.len() as int,
                            );
                        }
                    }
                    if !done {
                        return false;
                    }
                    i = i + 1;
                }
                true
            },
            GeoObject::Feature { geometry, properties, id } => {
                if into.features_so_far() >= FEATURE_LIMIT {
                    return false;
                }
                let index = into.feature(copy_text(id), copy_text(properties));
                let ghost head = only_features::<C>(seq![(text_view(*id), text_view(*properties))]);
                let ghost current = into.current();
                proof {
                    assert(current.features() =~= start.features() + head.features);
                    assert(current.points() =~= start.points() + head.points);
                    assert(current.lines() =~= start.lines() + head.lines);
                    assert(current.polygons() =~= start.polygons() + head.polygons);
                }
                match geometry {
                    Some(inner) => {
                        let ghost rest = flattened(**inner, Some(base as u32), base + 1);
                        let done = inner.collect(into, Some(index));
                        proof {
                            lemma_fits_after(start, current, head, rest);
                            if done {
                                lemma_grown_step(start, current, into.current(), head, rest);
                            }
                        }
                        done
                    },
                    None => {
                        proof {
                            lemma_nothing(current);
                            lemma_grown_step(start, current, current, head, Flattened::nothing());
                            lemma_fits_after(start, current, head, Flattened::nothing());
                            assert(head.followed_by(Flattened::nothing()) =~= head);
                        }
                        true
                    },
                }
            },
            GeoObject::Point { coordinates } => match coordinates {
                Some(point) => {
                    let points = vec![*point];
                    assert(points@ =~= seq![*point]);
                    push_points(into, feature, &points)
                },
                None => true,
            },
            GeoObject::MultiPoint { coordinates } => {
                let points = usable_positions(coordinates);
                push_points(into, feature, &points)
            },
            GeoObject::LineString { coordinates } => push_line(into, feature, coordinates),
            GeoObject::MultiLineString { coordinates: strands } => {
                let mut i: usize = 0;
                while i < strands.len()
                    invariant
                        into.wf(),
                        i <= strands@.len(),
                        start == old(into).current(),
                        base == start.features().len(),
                        flattened(*self, feature, base) == strands_flattened(
                            strands@,
                            feature,
                            base,
                            strands@.len() as int,
                        ),
                        grown(start, into.current(), strands_flattened(strands@, feature, base, i as int)),
                        fits(start, strands_flattened(strands@, feature, base, i as int)),
                    decreases strands@.len() - i,
                {
                    let ghost before = strands_flattened(strands@, feature, base, i as int);
                    let ghost current = into.current();
                    let ghost strand = line_flattened(
                        usable(strands@[i as int]@),
                        feature,
                        base + before.features.len(),
                    );
                    assert(current.features().len() == base + before.features.len());
                    let done = push_line(into, feature, &strands[i]);
                    proof {
                        lemma_fits_after(start, current, before, strand);
                        if done {
                            lemma_grown_step(start, current, into.current(), before, strand);
                        } else if fits(start, flattened(*self, feature, base)) {
                            lemma_strands_fit_prefix(
                                start,
                                strands@,
                                feature,
                                base,
                                i + 1,
                                strands@.len() as int,
                            );
                        }
                    }
                    if !done {
                        return false;
                    }
                    i = i + 1;
                }
                true
            },
            GeoObject::Polygon { coordinates } => push_polygon(into, feature, coordinates),
            GeoObject::MultiPolygon { coordinates: parts } => {
                let mut i: usize = 0;
                while i < parts.len()
                    invariant
                        into.wf(),
                        i <= parts@.len(),
                        start == old(into).current(),
                        base == start.features().len(),
                        flattened(*self, feature, base) == parts_flattened(
                            parts@,
                            feature,
                            base,
                            parts@.len() as int,
                        ),
                        grown(start, into.current(), parts_flattened(parts@, feature, base, i as int)),
                        fits(start, parts_flattened(parts@, feature, base, i as int)),
                    decreases parts@.len() - i,
                {
                    let ghost before = parts_flattened(parts@, feature, base, i as int);
                    let ghost current = into.current();
                    let ghost part = polygon_flattened(
                        parts@[i as int]@,
                        feature,
                        base + before.features.len(),
                    );
                    assert(current.features().len() == base + before.features.len());
                    let done = push_polygon(into, feature, &parts[i]);
                    proof {
                        lemma_fits_after(start, current, before, part);
                        if done {
                            lemma_grown_step(start, current, into.current(), before, part);
                        } else if fits(start, flattened(*self, feature, base)) {
                            lemma_parts_fit_prefix(
                                start,
                                parts@,
                                feature,
                                base,
                                i + 1,
                                parts@.len() as int,
                            );
                        }
                    }
                    if !done {
                        return false;
                    }
                    i = i + 1;
                }
                true
            },
        }
    }
}

/// Whether a store of its own has room for a whole document: its features
/// within the `u32` indices, its vertices and rings within the `i32` offsets.
pub open spec fn addressable<C>(document: Flattened<C>) -> bool {
    &&& document.features.len() <= u32::MAX
    &&& lines_vertices(document.lines) <= i32::MAX
    &&& polygons_vertices(document.polygons) <= i32::MAX
    &&& polygons_rings(document.polygons) + 1 <= i32::MAX
}

/// Flattens a whole document into a store of its own, or `None` for one too
/// large for the store to address.
pub fn flatten<C: Copy>(document: &GeoObject<C>) -> (set: Option<FeatureSet<C>>)
    ensures
        set is Some <==> addressable(flattened(*document, None, 0)),
        set matches Some(set) ==> {
            &&& set.wf()
            &&& set.features() == flattened(*document, None, 0).features
            &&& set.points() == flattened(*document, None, 0).points
            &&& set.lines() == flattened(*document, None, 0).lines
            &&& set.polygons() == flattened(*document, None, 0).polygons
            &&& all_filed_below(flattened(*document, None, 0), set.features().len())
        },
{
    let mut builder = FeatureSetBuilder::new();
    let ghost empty = builder.current();
    let complete = document.collect(&mut builder, None);
    if !complete {
        return None;
    }
    let set = builder.finish();
    proof {
        let added = flattened(*document, None, 0);
        every_shape_has_its_feature(*document, None, 0);
        assert(set.features() =~= added.features);
        assert(set.points() =~= added.points);
        assert(set.lines() =~= added.lines);
        assert(set.polygons() =~= added.polygons);
    }
    Some(set)
}

// ---------------------------------------------------------------------------
// What the walk promises
// ---------------------------------------------------------------------------

/// Whether an object holds no `Feature` anywhere in it: a geometry, or a
/// collection of geometries.
pub open spec fn featureless<C>(object: GeoObject<C>) -> bool
    decreases object, 0int,
{
    match object {
        GeoObject::FeatureCollection { features } => all_featureless(
            features@,
            features@.len() as int,
        ),
        GeoObject::Feature { .. } => false,
        GeoObject::GeometryCollection { geometries } => all_featureless(
            geometries@,
            geometries@.len() as int,
        ),
        _ => true,
    }
}

pub open spec fn all_featureless<C>(members: Seq<GeoObject<C>>, count: int) -> bool
    decreases members, count,
{
    if count <= 0 || count > members.len() {
        true
    } else {
        all_featureless(members, count - 1) && featureless(members[count - 1])
    }
}

/// Every point, line and polygon of `added` is filed under `feature`.
pub open spec fn all_filed_under<C>(added: Flattened<C>, feature: u32) -> bool {
    &&& forall|i: int| 0 <= i < added.points.len() ==> (#[trigger] added.points[i]).0 == feature
    &&& forall|i: int| 0 <= i < added.lines.len() ==> (#[trigger] added.lines[i]).0 == feature
    &&& forall|i: int|
        0 <= i < added.polygons.len() ==> (#[trigger] added.polygons[i]).0 == feature
}

/// Every point, line and polygon of `added` is filed under a feature below
/// `bound`.
pub open spec fn all_filed_below<C>(added: Flattened<C>, bound: nat) -> bool {
    &&& forall|i: int| 0 <= i < added.points.len() ==> (#[trigger] added.points[i]).0 < bound
    &&& forall|i: int| 0 <= i < added.lines.len() ==> (#[trigger] added.lines[i]).0 < bound
    &&& forall|i: int| 0 <= i < added.polygons.len() ==> (#[trigger] added.polygons[i]).0 < bound
}

proof fn lemma_filed_under_both<C>(x: Flattened<C>, y: Flattened<C>, feature: u32)
    requires
        all_filed_under(x, feature),
        all_filed_under(y, feature),
    ensures
        all_filed_under(x.followed_by(y), feature),
{
    let z = x.followed_by(y);
    assert forall|i: int| 0 <= i < z.points.len() implies (#[trigger] z.points[i]).0 == feature by {
        if i >= x.points.len() {
            assert(z.points[i] == y.points[i - x.points.len()]);
        }
    }
    assert forall|i: int| 0 <= i < z.lines.len() implies (#[trigger] z.lines[i]).0 == feature by {
        if i >= x.lines.len() {
            assert(z.lines[i] == y.lines[i - x.lines.len()]);
        }
    }
    assert forall|i: int| 0 <= i < z.polygons.len() implies (#[trigger] z.polygons[i]).0
        == feature by {
        if i >= x.polygons.len() {
            assert(z.polygons[i] == y.polygons[i - x.polygons.len()]);
        }
    }
}

proof fn lemma_filed_below_both<C>(x: Flattened<C>, y: Flattened<C>, bound: nat)
    requires
        all_filed_below(x, bound),
        all_filed_below(y, bound),
    ensures
        all_filed_below(x.followed_by(y), bound),
{
    let z = x.followed_by(y);
    assert forall|i: int| 0 <= i < z.points.len() implies (#[trigger] z.points[i]).0 < bound by {
        if i >= x.points.len() {
            assert(z.points[i] == y.points[i - x.points.len()]);
        }
    }
    assert forall|i: int| 0 <= i < z.lines.len() implies (#[trigger] z.lines[i]).0 < bound by {
        if i >= x.lines.len() {
            assert(z.lines[i] == y.lines[i - x.lines.len()]);
        }
    }
    assert forall|i: int| 0 <= i < z.polygons.len() implies (#[trigger] z.polygons[i]).0
        < bound by {
        if i >= x.polygons.len() {
            assert(z.polygons[i] == y.polygons[i - x.polygons.len()]);
        }
    }
}

proof fn lemma_filed_below_grows<C>(x: Flattened<C>, bound: nat, larger: nat)
    requires
        all_filed_below(x, bound),
        bound <= larger,
    ensures
        all_filed_below(x, larger),
{
}

/// A geometry walked inside a feature invents no feature of its own, and
/// every shape in it is filed under that feature — which is why a
/// `MultiPolygon` of forty islands highlights as one country rather than as
/// the island under the cursor.
pub proof fn a_feature_holds_its_whole_geometry<C>(object: GeoObject<C>, feature: u32, base: nat)
    requires
        featureless(object),
    ensures
        flattened(object, Some(feature), base).features.len() == 0,
        all_filed_under(flattened(object, Some(feature), base), feature),
    decreases object, 0int,
{
    match object {
        GeoObject::FeatureCollection { features } => {
            lemma_members_under_one_feature(features@, feature, base, features@.len() as int);
        },
        GeoObject::GeometryCollection { geometries } => {
            lemma_members_under_one_feature(geometries@, feature, base, geometries@.len() as int);
        },
        GeoObject::MultiLineString { coordinates } => {
            lemma_strands_under_one_feature(coordinates@, feature, base, coordinates@.len() as int);
        },
        GeoObject::MultiPolygon { coordinates } => {
            lemma_parts_under_one_feature(coordinates@, feature, base, coordinates@.len() as int);
        },
        _ => {},
    }
}

proof fn lemma_members_under_one_feature<C>(
    members: Seq<GeoObject<C>>,
    feature: u32,
    base: nat,
    count: int,
)
    requires
        all_featureless(members, members.len() as int),
        count <= members.len(),
    ensures
        members_flattened(members, Some(feature), base, count).features.len() == 0,
        all_filed_under(members_flattened(members, Some(feature), base, count), feature),
    decreases members, count,
{
    if count > 0 {
        lemma_all_featureless_member(members, members.len() as int, count - 1);
        let before = members_flattened(members, Some(feature), base, count - 1);
        lemma_members_under_one_feature(members, feature, base, count - 1);
        a_feature_holds_its_whole_geometry(members[count - 1], feature, base + before.features.len());
        lemma_filed_under_both(
            before,
            flattened(members[count - 1], Some(feature), base + before.features.len()),
            feature,
        );
    }
}

proof fn lemma_all_featureless_member<C>(members: Seq<GeoObject<C>>, count: int, k: int)
    requires
        all_featureless(members, count),
        0 <= k < count <= members.len(),
    ensures
        featureless(members[k]),
    decreases count,
{
    if k < count - 1 {
        lemma_all_featureless_member(members, count - 1, k);
    }
}

proof fn lemma_strands_under_one_feature<C>(
    strands: Seq<Vec<Option<C>>>,
    feature: u32,
    base: nat,
    count: int,
)
    ensures
        strands_flattened(strands, Some(feature), base, count).features.len() == 0,
        all_filed_under(strands_flattened(strands, Some(feature), base, count), feature),
    decreases count,
{
    if count > 0 && count <= strands.len() {
        let before = strands_flattened(strands, Some(feature), base, count - 1);
        lemma_strands_under_one_feature(strands, feature, base, count - 1);
        lemma_filed_under_both(
            before,
            line_flattened(usable(strands[count - 1]@), Some(feature), base + before.features.len()),
            feature,
        );
    }
}

proof fn lemma_parts_under_one_feature<C>(
    parts: Seq<Vec<GeoRing<C>>>,
    feature: u32,
    base: nat,
    count: int,
)
    ensures
        parts_flattened(parts, Some(feature), base, count).features.len() == 0,
        all_filed_under(parts_flattened(parts, Some(feature), base, count), feature),
    decreases count,
{
    if count > 0 && count <= parts.len() {
        let before = parts_flattened(parts, Some(feature), base, count - 1);
        lemma_parts_under_one_feature(parts, feature, base, count - 1);
        lemma_filed_under_both(
            before,
            polygon_flattened(
                parts[count - 1]@,
                Some(feature),
                base + before.features.len(),
            ),
            feature,
        );
    }
}

/// Every shape a walk files is filed under a feature the store holds once
/// the walk is done: the one it was walked under, one met on the way, or one
/// invented for it — so everything drawn can be picked.
pub proof fn every_shape_has_its_feature<C>(object: GeoObject<C>, owner: Option<u32>, base: nat)
    requires
        owner matches Some(feature) ==> feature < base,
        base + flattened(object, owner, base).features.len() <= u32::MAX,
    ensures
        all_filed_below(
            flattened(object, owner, base),
            base + flattened(object, owner, base).features.len(),
        ),
    decreases object, 0int,
{
    match object {
        GeoObject::FeatureCollection { features } => {
            lemma_members_below(features@, owner, base, features@.len() as int);
        },
        GeoObject::GeometryCollection { geometries } => {
            lemma_members_below(geometries@, owner, base, geometries@.len() as int);
        },
        GeoObject::Feature { geometry, properties, id } => {
            let head = Flattened::<C> {
                features: seq![(text_view(id), text_view(properties))],
                points: Seq::empty(),
                lines: Seq::empty(),
                polygons: Seq::empty(),
            };
            match geometry {
                Some(inner) => {
                    let rest = flattened(*inner, Some(base as u32), base + 1);
                    lemma_followed_by(head, rest);
                    every_shape_has_its_feature(*inner, Some(base as u32), base + 1);
                    lemma_filed_below_both(head, rest, base + 1 + rest.features.len());
                },
                None => {},
            }
        },
        GeoObject::MultiLineString { coordinates } => {
            lemma_strands_below(coordinates@, owner, base, coordinates@.len() as int);
        },
        GeoObject::MultiPolygon { coordinates } => {
            lemma_parts_below(coordinates@, owner, base, coordinates@.len() as int);
        },
        _ => {},
    }
}

proof fn lemma_members_below<C>(
    members: Seq<GeoObject<C>>,
    owner: Option<u32>,
    base: nat,
    count: int,
)
    requires
        owner matches Some(feature) ==> feature < base,
        base + members_flattened(members, owner, base, count).features.len() <= u32::MAX,
    ensures
        all_filed_below(
            members_flattened(members, owner, base, count),
            base + members_flattened(members, owner, base, count).features.len(),
        ),
    decreases members, count,
{
    if count > 0 && count <= members.len() {
        let before = members_flattened(members, owner, base, count - 1);
        let next = flattened(members[count - 1], owner, base + before.features.len());
        let total = base + before.features.len() + next.features.len();
        lemma_followed_by(before, next);
        lemma_members_below(members, owner, base, count - 1);
        every_shape_has_its_feature(members[count - 1], owner, base + before.features.len());
        lemma_filed_below_grows(before, base + before.features.len(), total);
        lemma_filed_below_both(before, next, total);
    }
}

proof fn lemma_strands_below<C>(
    strands: Seq<Vec<Option<C>>>,
    owner: Option<u32>,
    base: nat,
    count: int,
)
    requires
        owner matches Some(feature) ==> feature < base,
        base + strands_flattened(strands, owner, base, count).features.len() <= u32::MAX,
    ensures
        all_filed_below(
            strands_flattened(strands, owner, base, count),
            base + strands_flattened(strands, owner, base, count).features.len(),
        ),
    decreases count,
{
    if count > 0 && count <= strands.len() {
        let before = strands_flattened(strands, owner, base, count - 1);
        let next = line_flattened(usable(strands[count - 1]@), owner, base + before.features.len());
        let total = base + before.features.len() + next.features.len();
        lemma_followed_by(before, next);
        lemma_strands_below(strands, owner, base, count - 1);
        lemma_filed_below_grows(before, base + before.features.len(), total);
        lemma_filed_below_both(before, next, total);
    }
}

proof fn lemma_parts_below<C>(
    parts: Seq<Vec<GeoRing<C>>>,
    owner: Option<u32>,
    base: nat,
    count: int,
)
    requires
        owner matches Some(feature) ==> feature < base,
        base + parts_flattened(parts, owner, base, count).features.len() <= u32::MAX,
    ensures
        all_filed_below(
            parts_flattened(parts, owner, base, count),
            base + parts_flattened(parts, owner, base, count).features.len(),
        ),
    decreases count,
{
    if count > 0 && count <= parts.len() {
        let before = parts_flattened(parts, owner, base, count - 1);
        let next = polygon_flattened(
            parts[count - 1]@,
            owner,
            base + before.features.len(),
        );
        let total = base + before.features.len() + next.features.len();
        lemma_followed_by(before, next);
        lemma_parts_below(parts, owner, base, count - 1);
        lemma_filed_below_grows(before, base + before.features.len(), total);
        lemma_filed_below_both(before, next, total);
    }
}

/// A feature whose geometry, if it has one, holds no feature of its own.
pub open spec fn plain_feature<C>(object: GeoObject<C>) -> bool {
    match object {
        GeoObject::Feature { geometry, .. } => match geometry {
            Some(inner) => featureless(*inner),
            None => true,
        },
        _ => false,
    }
}

/// The `id` and `properties` of a feature, as the store keeps them.
pub open spec fn feature_text<C>(object: GeoObject<C>) -> (Option<Seq<char>>, Option<Seq<char>>) {
    match object {
        GeoObject::Feature { properties, id, .. } => (text_view(id), text_view(properties)),
        _ => (None, None),
    }
}

/// A collection of features keeps every one of them, in order, whether or
/// not each came with geometry worth drawing: a feed that reports five
/// records reported five.
pub proof fn every_feature_is_kept<C>(
    members: Seq<GeoObject<C>>,
    owner: Option<u32>,
    base: nat,
    count: int,
)
    requires
        0 <= count <= members.len(),
        forall|k: int| 0 <= k < count ==> plain_feature(#[trigger] members[k]),
    ensures
        members_flattened(members, owner, base, count).features == Seq::new(
            count as nat,
            |k: int| feature_text(members[k]),
        ),
    decreases count,
{
    if count > 0 {
        let before = members_flattened(members, owner, base, count - 1);
        every_feature_is_kept(members, owner, base, count - 1);
        let member = members[count - 1];
        assert(plain_feature(member));
        match member {
            GeoObject::Feature { geometry, properties, id } => {
                match geometry {
                    Some(inner) => {
                        a_feature_holds_its_whole_geometry(
                            *inner,
                            (base + before.features.len()) as u32,
                            base + before.features.len() + 1,
                        );
                    },
                    None => {},
                }
            },
            _ => {},
        }
        let next = flattened(member, owner, base + before.features.len());
        assert(next.features =~= seq![feature_text(member)]);
        assert(members_flattened(members, owner, base, count).features =~= Seq::new(
            count as nat,
            |k: int| feature_text(members[k]),
        ));
    }
}

/// Every point, line and polygon a store holds is filed under one of its
/// first `bound` features.
pub open spec fn owners_below<C>(set: FeatureSet<C>, bound: nat) -> bool {
    &&& forall|i: int| 0 <= i < set.points().len() ==> (#[trigger] set.points()[i]).0 < bound
    &&& forall|i: int| 0 <= i < set.lines().len() ==> (#[trigger] set.lines()[i]).0 < bound
    &&& forall|i: int| 0 <= i < set.polygons().len() ==> (#[trigger] set.polygons()[i]).0 < bound
}

/// A walk keeps every shape of a store filed under a feature the store
/// holds: if that held before the walk, and the walk was under a feature
/// the store holds or none, it holds after it.
pub proof fn a_walk_keeps_every_shape_picked<C>(
    before: FeatureSet<C>,
    after: FeatureSet<C>,
    object: GeoObject<C>,
    feature: Option<u32>,
)
    requires
        owners_below(before, before.features().len()),
        feature matches Some(f) ==> f < before.features().len(),
        fits(before, flattened(object, feature, before.features().len())),
        grown(before, after, flattened(object, feature, before.features().len())),
    ensures
        owners_below(after, after.features().len()),
{
    let base = before.features().len();
    let added = flattened(object, feature, base);
    let bound = after.features().len();
    every_shape_has_its_feature(object, feature, base);
    assert(bound == base + added.features.len());
    assert forall|i: int| 0 <= i < after.points().len() implies (#[trigger] after.points()[i]).0 < bound by {
        if i < before.points().len() {
            assert(after.points()[i] == before.points()[i]);
        } else {
            assert(after.points()[i] == added.points[i - before.points().len()]);
        }
    }
    assert forall|i: int| 0 <= i < after.lines().len() implies (#[trigger] after.lines()[i]).0 < bound by {
        if i < before.lines().len() {
            assert(after.lines()[i] == before.lines()[i]);
        } else {
            assert(after.lines()[i] == added.lines[i - before.lines().len()]);
        }
    }
    assert forall|i: int| 0 <= i < after.polygons().len() implies (#[trigger] after.polygons()[i]).0
        < bound by {
        if i < before.polygons().len() {
            assert(after.polygons()[i] == before.polygons()[i]);
        } else {
            assert(after.polygons()[i] == added.polygons[i - before.polygons().len()]);
        }
    }
}

/// Whether some point, line or polygon of `added` is filed under `feature`.
pub open spec fn draws_under<C>(added: Flattened<C>, feature: u32) -> bool {
    ||| exists|i: int| 0 <= i < added.points.len() && (#[trigger] added.points[i]).0 == feature
    ||| exists|i: int| 0 <= i < added.lines.len() && (#[trigger] added.lines[i]).0 == feature
    ||| exists|i: int| 0 <= i < added.polygons.len() && (#[trigger] added.polygons[i]).0 == feature
}

proof fn lemma_draws_under_either<C>(x: Flattened<C>, y: Flattened<C>, feature: u32)
    ensures
        draws_under(x, feature) ==> draws_under(x.followed_by(y), feature),
        draws_under(y, feature) ==> draws_under(x.followed_by(y), feature),
{
    let z = x.followed_by(y);
    if draws_under(x, feature) {
        if exists|i: int| 0 <= i < x.points.len() && (#[trigger] x.points[i]).0 == feature {
            let i = choose|i: int| 0 <= i < x.points.len() && (#[trigger] x.points[i]).0 == feature;
            assert(z.points[i] == x.points[i]);
        } else if exists|i: int| 0 <= i < x.lines.len() && (#[trigger] x.lines[i]).0 == feature {
            let i = choose|i: int| 0 <= i < x.lines.len() && (#[trigger] x.lines[i]).0 == feature;
            assert(z.lines[i] == x.lines[i]);
        } else {
            let i = choose|i: int| 0 <= i < x.polygons.len() && (#[trigger] x.polygons[i]).0 == feature;
            assert(z.polygons[i] == x.polygons[i]);
        }
    }
    if draws_under(y, feature) {
        if exists|i: int| 0 <= i < y.points.len() && (#[trigger] y.points[i]).0 == feature {
            let i = choose|i: int| 0 <= i < y.points.len() && (#[trigger] y.points[i]).0 == feature;
            assert(z.points[x.points.len() + i] == y.points[i]);
        } else if exists|i: int| 0 <= i < y.lines.len() && (#[trigger] y.lines[i]).0 == feature {
            let i = choose|i: int| 0 <= i < y.lines.len() && (#[trigger] y.lines[i]).0 == feature;
            assert(z.lines[x.lines.len() + i] == y.lines[i]);
        } else {
            let i = choose|i: int| 0 <= i < y.polygons.len() && (#[trigger] y.polygons[i]).0 == feature;
            assert(z.polygons[x.polygons.len() + i] == y.polygons[i]);
        }
    }
}

/// Every feature a part of a walk adds under `base` has something drawn
/// under it.
pub open spec fn every_invented_drawn<C>(added: Flattened<C>, base: nat) -> bool {
    forall|k: int| 0 <= k < added.features.len() ==> draws_under(added, #[trigger] (base + k) as u32)
}

proof fn lemma_invented_drawn_step<C>(x: Flattened<C>, y: Flattened<C>, base: nat)
    requires
        every_invented_drawn(x, base),
        every_invented_drawn(y, base + x.features.len()),
    ensures
        every_invented_drawn(x.followed_by(y), base),
{
    let z = x.followed_by(y);
    assert forall|k: int| 0 <= k < z.features.len() implies draws_under(z, #[trigger] (base + k) as u32) by {
        lemma_draws_under_either(x, y, (base + k) as u32);
        if k >= x.features.len() {
            let j = k - x.features.len();
            assert(draws_under(y, (base + x.features.len() + j) as u32));
        }
    }
}

/// A geometry met outside any feature is given one only when it draws
/// something under it: every feature such a walk adds has a point, a line or
/// a polygon filed under it.
pub proof fn a_feature_is_invented_only_for_something_drawn<C>(object: GeoObject<C>, base: nat)
    requires
        featureless(object),
    ensures
        every_invented_drawn(flattened(object, None, base), base),
    decreases object, 0int,
{
    match object {
        GeoObject::FeatureCollection { features } => {
            lemma_members_invent_drawn(features@, base, features@.len() as int);
        },
        GeoObject::GeometryCollection { geometries } => {
            lemma_members_invent_drawn(geometries@, base, geometries@.len() as int);
        },
        GeoObject::MultiLineString { coordinates } => {
            lemma_strands_invent_drawn(coordinates@, base, coordinates@.len() as int);
        },
        GeoObject::MultiPolygon { coordinates } => {
            lemma_parts_invent_drawn(coordinates@, base, coordinates@.len() as int);
        },
        GeoObject::Point { coordinates } => {
            let added = flattened(object, None, base);
            if added.features.len() > 0 {
                assert(added.points[0].0 == base as u32);
            }
        },
        GeoObject::MultiPoint { coordinates } => {
            let added = flattened(object, None, base);
            if added.features.len() > 0 {
                assert(added.points[0].0 == base as u32);
            }
        },
        GeoObject::LineString { coordinates } => {
            let added = flattened(object, None, base);
            if added.features.len() > 0 {
                assert(added.lines[0].0 == base as u32);
            }
        },
        GeoObject::Polygon { coordinates } => {
            let added = flattened(object, None, base);
            if added.features.len() > 0 {
                assert(added.polygons[0].0 == base as u32);
            }
        },
        GeoObject::Feature { .. } => {},
    }
}

proof fn lemma_members_invent_drawn<C>(members: Seq<GeoObject<C>>, base: nat, count: int)
    requires
        all_featureless(members, members.len() as int),
        count <= members.len(),
    ensures
        every_invented_drawn(members_flattened(members, None, base, count), base),
    decreases members, count,
{
    if count > 0 {
        lemma_all_featureless_member(members, members.len() as int, count - 1);
        let before = members_flattened(members, None, base, count - 1);
        lemma_members_invent_drawn(members, base, count - 1);
        a_feature_is_invented_only_for_something_drawn(members[count - 1], base + before.features.len());
        lemma_invented_drawn_step(
            before,
            flattened(members[count - 1], None, base + before.features.len()),
            base,
        );
    }
}

proof fn lemma_strands_invent_drawn<C>(strands: Seq<Vec<Option<C>>>, base: nat, count: int)
    ensures
        every_invented_drawn(strands_flattened(strands, None, base, count), base),
    decreases count,
{
    if count > 0 && count <= strands.len() {
        let before = strands_flattened(strands, None, base, count - 1);
        let next = line_flattened(usable(strands[count - 1]@), None, base + before.features.len());
        lemma_strands_invent_drawn(strands, base, count - 1);
        if next.features.len() > 0 {
            assert(next.lines[0].0 == (base + before.features.len()) as u32);
        }
        assert(every_invented_drawn(next, base + before.features.len()));
        lemma_invented_drawn_step(before, next, base);
    }
}

proof fn lemma_parts_invent_drawn<C>(parts: Seq<Vec<GeoRing<C>>>, base: nat, count: int)
    ensures
        every_invented_drawn(parts_flattened(parts, None, base, count), base),
    decreases count,
{
    if count > 0 && count <= parts.len() {
        let before = parts_flattened(parts, None, base, count - 1);
        let next = polygon_flattened(parts[count - 1]@, None, base + before.features.len());
        lemma_parts_invent_drawn(parts, base, count - 1);
        if next.features.len() > 0 {
            assert(next.polygons[0].0 == (base + before.features.len()) as u32);
        }
        assert(every_invented_drawn(next, base + before.features.len()));
        lemma_invented_drawn_step(before, next, base);
    }
}

} // verus!

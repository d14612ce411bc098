//! The global-geodetic quadtree of imagery tiles, and the paths tiles are
//! fetched under.
//!
//! Level 0 is two square 180°x180° tiles covering the two halves of the world,
//! and each level quarters them, so level `n` holds `2^(n+1) x 2^n` tiles.
//! Columns are counted east from the antimeridian and rows south from the
//! north pole.
//!
//! A tile is fetched under `{generation}/{level}/{x}/{y}.{extension}`; the
//! leading generation segment only keeps cache entries of different layers
//! apart, so reading a path back discards it.
use vstd::prelude::*;
use vstd::arithmetic::power2::pow2;

use crate::text::{
    after, chars_of, decimal, field, find_in, lemma_decimal_digits, lemma_find_char_bounds,
    lemma_parse_decimal, lemma_split_at, parse_unsigned, parse_unsigned_in, push_char,
    push_decimal, push_str,
};

verus! {

/// One tile in the global-geodetic quadtree.
#[derive(Debug, Clone, Copy, PartialEq, Eq, Hash, PartialOrd, Ord, Structural)]
pub struct TileId {
    pub level: u8,
    /// Column, counted east from the antimeridian.
    pub x: u32,
    /// Row, counted south from the north pole.
    pub y: u32,
}

impl TileId {
    /// Whether the tile exists at its level: `2^(level+1)` columns and
    /// `2^level` rows.
    pub open spec fn is_valid(self) -> bool {
        &&& self.x < 2 * pow2(self.level as nat)
        &&& self.y < pow2(self.level as nat)
    }

    pub open spec fn spec_children(self) -> Seq<TileId> {
        let level = (self.level + 1) as u8;
        let (x, y) = ((self.x * 2) as u32, (self.y * 2) as u32);
        seq![
            TileId { level, x, y },
            TileId { level, x: (x + 1) as u32, y },
            TileId { level, x, y: (y + 1) as u32 },
            TileId { level, x: (x + 1) as u32, y: (y + 1) as u32 },
        ]
    }

    pub open spec fn spec_parent(self) -> Option<TileId> {
        if self.level > 0 {
            Some(TileId { level: (self.level - 1) as u8, x: self.x / 2, y: self.y / 2 })
        } else {
            None
        }
    }

    /// Whether the four children of this tile can be written down in the
    /// types a tile is addressed in.
    pub open spec fn can_split(self) -> bool {
        &&& self.level < u8::MAX
        &&& self.x * 2 + 1 <= u32::MAX
        &&& self.y * 2 + 1 <= u32::MAX
    }

    /// The two tiles of level 0, each a 180° square.
    pub fn roots() -> (roots: [TileId; 2])
        ensures
            roots@ == seq![TileId { level: 0, x: 0, y: 0 }, TileId { level: 0, x: 1, y: 0 }],
    {
        let roots = [TileId { level: 0, x: 0, y: 0 }, TileId { level: 0, x: 1, y: 0 }];
        assert(roots@ =~= seq![TileId { level: 0, x: 0, y: 0 }, TileId { level: 0, x: 1, y: 0 }]);
        roots
    }

    /// The four tiles one level down that quarter this one: north-west,
    /// north-east, south-west, south-east.
    pub fn children(self) -> (children: [TileId; 4])
        requires
            self.can_split(),
        ensures
            children@ == self.spec_children(),
    {
        let level = self.level + 1;
        let (x, y) = (self.x * 2, self.y * 2);
        let children = [
            TileId { level, x, y },
            TileId { level, x: x + 1, y },
            TileId { level, x, y: y + 1 },
            TileId { level, x: x + 1, y: y + 1 },
        ];
        assert(children@ =~= self.spec_children());
        children
    }

    /// The tile one level up that this one quarters; none for a root.
    pub fn parent(self) -> (parent: Option<TileId>)
        ensures
            parent == self.spec_parent(),
    {
        if self.level > 0 {
            Some(TileId { level: self.level - 1, x: self.x / 2, y: self.y / 2 })
        } else {
            None
        }
    }
}

/// Each of a tile's children names it as its parent.
pub proof fn children_name_their_parent(tile: TileId, i: int)
    requires
        tile.can_split(),
        0 <= i < 4,
    ensures
        tile.spec_children()[i].spec_parent() == Some(tile),
{
}

/// A tile one level down is a child of this one exactly when it names this one
/// as its parent.
pub proof fn parent_names_exactly_the_children(tile: TileId, other: TileId)
    requires
        tile.can_split(),
        other.level == tile.level + 1,
    ensures
        other.spec_parent() == Some(tile) <==> tile.spec_children().contains(other),
{
    if other.spec_parent() == Some(tile) {
        let i = (other.x - 2 * tile.x) + 2 * (other.y - 2 * tile.y);
        assert(tile.spec_children()[i] == other);
    }
    if tile.spec_children().contains(other) {
        let i = choose|i: int| 0 <= i < 4 && tile.spec_children()[i] == other;
        children_name_their_parent(tile, i);
    }
}

/// The children of a tile that exists exist, one level down.
pub proof fn children_of_a_valid_tile_are_valid(tile: TileId, i: int)
    requires
        tile.can_split(),
        tile.is_valid(),
        0 <= i < 4,
    ensures
        tile.spec_children()[i].is_valid(),
{
    vstd::arithmetic::power2::lemma_pow2_unfold((tile.level + 1) as nat);
}

/// The parent of a tile that exists exists.
pub proof fn parent_of_a_valid_tile_is_valid(tile: TileId)
    requires
        tile.is_valid(),
        tile.level > 0,
    ensures
        tile.spec_parent()->0.is_valid(),
{
    vstd::arithmetic::power2::lemma_pow2_unfold(tile.level as nat);
}

// ---------------------------------------------------------------------------
// Paths
// ---------------------------------------------------------------------------

/// `{generation}/{level}/{x}/{y}.{extension}`.
pub open spec fn spec_tile_path(generation: nat, tile: TileId, extension: Seq<char>) -> Seq<char> {
    decimal(generation) + seq!['/'] + decimal(tile.level as nat) + seq!['/'] + decimal(
        tile.x as nat,
    ) + seq!['/'] + decimal(tile.y as nat) + seq!['.'] + extension
}

/// The tile a path names: the second `/`-separated segment as the level, the
/// third as the column, and the fourth, up to its first `.`, as the row. The
/// first segment is discarded.
pub open spec fn spec_parse_tile_path(path: Seq<char>) -> Option<TileId> {
    match after(path, '/') {
        None => None,
        Some(r1) => match after(r1, '/') {
            None => None,
            Some(r2) => match after(r2, '/') {
                None => None,
                Some(r3) => {
                    let level = parse_unsigned(field(r1, '/'), u8::MAX as nat);
                    let x = parse_unsigned(field(r2, '/'), u32::MAX as nat);
                    let y = parse_unsigned(field(field(r3, '/'), '.'), u32::MAX as nat);
                    if level is Some && x is Some && y is Some {
                        Some(TileId { level: level->0 as u8, x: x->0 as u32, y: y->0 as u32 })
                    } else {
                        None
                    }
                },
            },
        },
    }
}

/// The path a tile is fetched under, below the scheme.
pub fn tile_path(generation: u32, tile: TileId, extension: &str) -> (path: String)
    ensures
        path@ == spec_tile_path(generation as nat, tile, extension@),
{
    let mut path = String::new();
    push_decimal(&mut path, generation as u64);
    push_char(&mut path, '/');
    push_decimal(&mut path, tile.level as u64);
    push_char(&mut path, '/');
    push_decimal(&mut path, tile.x as u64);
    push_char(&mut path, '/');
    push_decimal(&mut path, tile.y as u64);
    push_char(&mut path, '.');
    push_str(&mut path, extension);
    assert(path@ =~= spec_tile_path(generation as nat, tile, extension@));
    path
}

/// The full asset path a tile is loaded through: `{source}://` and then
/// [`tile_path`].
pub fn tile_asset_path(source: &str, generation: u32, tile: TileId, extension: &str) -> (path:
    String)
    ensures
        path@ == source@ + "://"@ + spec_tile_path(generation as nat, tile, extension@),
{
    let mut path = String::new();
    push_str(&mut path, source);
    push_str(&mut path, "://");
    let rest = tile_path(generation, tile, extension);
    push_str(&mut path, rest.as_str());
    assert(path@ =~= source@ + "://"@ + spec_tile_path(generation as nat, tile, extension@));
    path
}

/// Recovers the tile a path refers to. The leading generation segment only
/// exists to keep cache entries apart between layers, so it is discarded.
pub fn parse_tile_path(path: &str) -> (tile: Option<TileId>)
    ensures
        tile == spec_parse_tile_path(path@),
{
    let chars = chars_of(path);
    let n = chars.len();
    let ghost p = path@;
    assert(chars@.subrange(0, n as int) =~= p);
    let s1 = find_in(&chars, 0, n, '/');
    proof {
        lemma_find_char_bounds(p, '/');
    }
    if s1 == n {
        return None;
    }
    let ghost r1 = p.skip(s1 + 1);
    assert(r1 =~= chars@.subrange(s1 + 1, n as int));
    let s2 = find_in(&chars, s1 + 1, n, '/');
    proof {
        lemma_find_char_bounds(r1, '/');
    }
    assert(field(r1, '/') =~= chars@.subrange(s1 + 1, s2 as int));
    if s2 == n {
        return None;
    }
    let ghost r2 = r1.skip(s2 - s1);
    assert(r2 =~= chars@.subrange(s2 + 1, n as int));
    let s3 = find_in(&chars, s2 + 1, n, '/');
    proof {
        lemma_find_char_bounds(r2, '/');
    }
    assert(field(r2, '/') =~= chars@.subrange(s2 + 1, s3 as int));
    if s3 == n {
        return None;
    }
    let ghost r3 = r2.skip(s3 - s2);
    assert(r3 =~= chars@.subrange(s3 + 1, n as int));
    let s4 = find_in(&chars, s3 + 1, n, '/');
    assert(field(r3, '/') =~= chars@.subrange(s3 + 1, s4 as int));
    let dot = find_in(&chars, s3 + 1, s4, '.');
    assert(field(field(r3, '/'), '.') =~= chars@.subrange(s3 + 1, dot as int));
    let level = parse_unsigned_in(&chars, s1 + 1, s2, u8::MAX as u64);
    let x = parse_unsigned_in(&chars, s2 + 1, s3, u32::MAX as u64);
    let y = parse_unsigned_in(&chars, s3 + 1, dot, u32::MAX as u64);
    match (level, x, y) {
        (Some(level), Some(x), Some(y)) => Some(TileId { level: level as u8, x: x as u32, y: y as u32 }),
        _ => None,
    }
}

/// A tile path reads back as the tile it was written for, whatever generation
/// and extension it was written with.
pub proof fn tile_path_round_trip(generation: u32, tile: TileId, extension: Seq<char>)
    ensures
        spec_parse_tile_path(spec_tile_path(generation as nat, tile, extension)) == Some(tile),
{
    let g = decimal(generation as nat);
    let l = decimal(tile.level as nat);
    let x = decimal(tile.x as nat);
    let y = decimal(tile.y as nat);
    lemma_decimal_digits(generation as nat);
    lemma_decimal_digits(tile.level as nat);
    lemma_decimal_digits(tile.x as nat);
    lemma_decimal_digits(tile.y as nat);
    let tail = y + seq!['.'] + extension;
    let r2 = x + seq!['/'] + tail;
    let r1 = l + seq!['/'] + r2;
    let path = spec_tile_path(generation as nat, tile, extension);
    assert(path =~= g + seq!['/'] + r1);
    lemma_split_at(g, '/', r1);
    lemma_split_at(l, '/', r2);
    lemma_split_at(x, '/', tail);
    lemma_parse_decimal(tile.level as nat, u8::MAX as nat);
    lemma_parse_decimal(tile.x as nat, u32::MAX as nat);
    lemma_parse_decimal(tile.y as nat, u32::MAX as nat);
    assert forall|j: int| 0 <= j < (y + seq!['.']).len() implies (y + seq!['.'])[j] != '/' by {
        if j < y.len() {
            assert((y + seq!['.'])[j] == y[j]);
        }
    }
    assert(tail =~= (y + seq!['.']) + extension);
    crate::fetch::lemma_field_keeps_prefix(y + seq!['.'], '/', extension);
    let f = field(tail, '/');
    let m = (f.len() - y.len() - 1) as int;
    assert(f =~= y + seq!['.'] + extension.take(m));
    lemma_split_at(y, '.', extension.take(m));
}

} // verus!

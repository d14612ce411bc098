//! Mapbox Vector Tiles: the Web Mercator grid they are cut in, and the first
//! steps of reading one — telling a gzip stream from a tile, decoding the
//! protobuf, and choosing which of its source layers to keep.
//!
//! An MVT tile is a protobuf holding several named source layers, each a list
//! of features whose geometry is written in integer coordinates local to the
//! tile. The protobuf is decoded by `geozero`.
use vstd::prelude::*;
use vstd::arithmetic::power2::pow2;

use geozero::mvt::Message;
use geozero::mvt::Tile;

use crate::text::{push_str, same_text};

verus! {

/// A decoded vector tile.
#[verifier::external_type_specification]
#[verifier::external_body]
pub struct ExTile(Tile);

/// The property the source layer's name is reported under.
pub const SOURCE_LAYER_PROPERTY: &'static str = "sourceLayer";

/// The extent a layer is assumed to use when it does not say.
pub const DEFAULT_EXTENT: u32 = 4096;

/// How many tiles across the grid is at a level. Level 0 is the single tile
/// holding the whole world, and every level below quarters it.
pub fn matrix_size(level: u8) -> (size: u32)
    requires
        level < 32,
    ensures
        size == pow2(level as nat),
{
    let shift = level as u32;
    proof {
        vstd::arithmetic::power2::lemma2_to64();
        assert(pow2(shift as nat) <= u32::MAX) by {
            vstd::arithmetic::power2::lemma_pow2_strictly_increases(shift as nat, 32);
        }
        vstd::bits::lemma_u32_shl_is_mul(1, shift);
    }
    1u32 << shift
}

/// Why a tile could not be read.
pub enum MvtError {
    /// The bytes are a gzip stream rather than a protobuf: the service
    /// answered compressed and nothing here unwraps it.
    Gzipped,
    /// Not a vector tile, or one whose protobuf is damaged.
    Malformed(String),
    /// A geometry whose command sequence does not follow the specification.
    Geometry(String),
}

impl MvtError {
    /// What the error says, as a person reads it.
    pub fn message(&self) -> (text: String)
        ensures
            match self {
                MvtError::Gzipped => text@
                    == "the tile arrived gzipped and nothing here unwraps it; the service has to be asked for identity encoding"@,
                MvtError::Malformed(error) => text@ == "not a vector tile: "@ + error@,
                MvtError::Geometry(error) => text@ == "unreadable tile geometry: "@ + error@,
            },
    {
        let mut text = String::new();
        match self {
            MvtError::Gzipped => {
                push_str(
                    &mut text,
                    "the tile arrived gzipped and nothing here unwraps it; the service has to be asked for identity encoding",
                );
            },
            MvtError::Malformed(error) => {
                push_str(&mut text, "not a vector tile: ");
                push_str(&mut text, error.as_str());
            },
            MvtError::Geometry(error) => {
                push_str(&mut text, "unreadable tile geometry: ");
                push_str(&mut text, error.as_str());
            },
        }
        text
    }
}

/// Whether bytes open with the gzip magic number.
pub open spec fn is_gzip(bytes: Seq<u8>) -> bool {
    bytes.len() >= 2 && bytes[0] == 0x1f && bytes[1] == 0x8b
}

/// Whether the bytes decode as a vector tile protobuf.
pub uninterp spec fn protobuf_decodes(bytes: Seq<u8>) -> bool;

/// The tile the protobuf in these bytes decodes to.
pub uninterp spec fn decoded_tile(bytes: Seq<u8>) -> Tile;

/// Decodes the protobuf of one tile with `geozero`'s `Tile::decode`. Its
/// contract claims that whether decoding succeeds, and the tile it gives,
/// are functions of the bytes alone; it says nothing of what the tile holds.
#[verifier::external_body]
fn decode_protobuf(bytes: &[u8]) -> (decoded: Result<Tile, String>)
    ensures
        decoded is Ok == protobuf_decodes(bytes@),
        decoded matches Ok(tile) ==> tile == decoded_tile(bytes@),
{
    Tile::decode(bytes).map_err(|error| error.to_string())
}

/// Reads the protobuf of one tile. Two bytes are checked first, because a
/// gzip stream is the one failure that is nobody's bug, and "invalid wire
/// type" would be a misleading thing to report about it.
pub fn open_tile(bytes: &[u8]) -> (tile: Result<Tile, MvtError>)
    ensures
        is_gzip(bytes@) ==> tile matches Err(MvtError::Gzipped),
        !is_gzip(bytes@) ==> (tile is Ok <==> protobuf_decodes(bytes@)),
        tile matches Ok(decoded) ==> decoded == decoded_tile(bytes@),
        !is_gzip(bytes@) ==> (tile matches Err(e) ==> e is Malformed),
{
    if bytes.len() >= 2 && bytes[0] == 0x1f && bytes[1] == 0x8b {
        return Err(MvtError::Gzipped);
    }
    match decode_protobuf(bytes) {
        Ok(tile) => Ok(tile),
        Err(error) => Err(MvtError::Malformed(error)),
    }
}

/// Whether a source layer is kept: every layer when none are named, and
/// otherwise the ones named.
pub fn layer_is_wanted(wanted: &[String], name: &str) -> (kept: bool)
    ensures
        kept == (wanted@.len() == 0 || exists|i: int| 0 <= i < wanted@.len() && wanted@[i]@ == name@),
{
    if wanted.len() == 0 {
        return true;
    }
    let mut i: usize = 0;
    while i < wanted.len()
        invariant
            i <= wanted@.len(),
            forall|j: int| 0 <= j < i ==> wanted@[j]@ != name@,
        decreases wanted@.len() - i,
    {
        if same_text(wanted[i].as_str(), name) {
            return true;
        }
        i = i + 1;
    }
    false
}

} // verus!

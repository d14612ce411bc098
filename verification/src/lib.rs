//! The verified core of the Terramenta globe: the tile quadtree, its
//! addressing and the cache that streams it; the paths and URLs layers are
//! fetched over; the bookkeeping of ephemeris layers, selections, picks and
//! imagery presets; the commands that drive them; the flattened geometry
//! store and the GeoJSON walk that fills it; the registry of spacecraft
//! missions and the states they move through; the live readout's text; and
//! the calendar dates are reported in.
use vstd::prelude::*;

pub mod calendar;
pub mod commands;
pub mod ephemeris;
pub mod features;
pub mod fetch;
pub mod frame;
pub mod geojson;
pub mod gnc;
pub mod heliocentric;
pub mod hud;
pub mod idset;
pub mod imagery;
pub mod mission;
pub mod mvt;
pub mod omm;
pub mod text;
pub mod tile_cache;
pub mod tiles;
pub mod wms;

verus! {

} // verus!

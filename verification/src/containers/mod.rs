//! Containers whose elements live in an arena and are held by handle.

pub mod plexus_map;
pub mod plexus_string;
pub mod plexus_vec;

pub use plexus_map::{PlexusMap, PlexusMapError};
pub use plexus_string::{PlexusString, PlexusStringError};
pub use plexus_vec::{PlexusVec, PlexusVecError};

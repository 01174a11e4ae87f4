//! Named shared-memory mappings: the request checks, name encoding and
//! security profiles that precede the operating-system calls.

pub mod mapping;

pub use mapping::{MapAccess, MappingError, MappingMetadata, MappingSecurityProfile};

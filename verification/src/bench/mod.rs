//! The benchmark workload: synthetic order updates and the shared-memory
//! round trip they are timed over, and the framing and client steps of the
//! TCP + JSON baseline.

pub mod data;
pub mod roundtrip;
pub mod tcp;

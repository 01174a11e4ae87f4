//! Bounded queues for passing handles between producers and consumers.

pub mod ring_mpmc;

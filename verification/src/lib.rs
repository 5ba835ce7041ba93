//! A minimal shared text clipboard: two in-memory store designs.
//!
//! The bounded store keeps at most `capacity` anonymous entries in
//! first-in-first-out order and evicts the oldest entry when full. The
//! keyed store keeps unboundedly many entries, each addressed by a
//! freshly generated 128-bit identifier with a canonical textual form.
//! Each store also comes behind a reader/writer lock, so that concurrent
//! request handlers see every operation as one atomic transition.

pub mod bounded;
pub mod ident;
pub mod keyed;
pub mod shared;

//! A thin, shared-ownership reference-counted box.
//!
//! A standard atomic reference-counted pointer keeps a weak count beside the
//! strong count in every allocation.  This library models the leaner variant
//! that omits weak references entirely: every allocation is one contiguous
//! block holding an allocation header (the strong count) followed by the
//! payload, and a handle is a single word.
//!
//! The crate has two parts:
//!
//! * [`layout`] — the single, audited routine that computes the shape of an
//!   allocation (header width, total size, payload offset) together with the
//!   proofs that the payload lands on a correctly aligned address and that the
//!   header offset is reversible.
//! * [`arc`] — the handle type [`arc::Arc`] and the pool of allocations
//!   [`arc::Heap`], with the full clone/drop count protocol, exclusive-access
//!   accessors, copy-on-write, the sequence constructors, and the raw-address
//!   round trip, each with a verified contract.

pub mod arc;
pub mod layout;

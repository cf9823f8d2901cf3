//! Slot maps and slot heaps with stable integer identifiers, in a
//! single-threaded flavour ([`unsync`]) and a lock-protected one ([`sync`]).
//!
//! A slot map hands out an identifier with each value and uses the
//! identifiers of removed values again, the last one freed first. A slot
//! heap is a binary min-heap whose elements keep their identifiers while
//! they move, so that an element can be found, changed and removed by its
//! identifier.
//!
//! A guard of a heap lends a key out and leaves the heap order suspended
//! until `release` is called on it, which sifts the element to its place.

pub mod sync;
pub mod unsync;
pub mod util;

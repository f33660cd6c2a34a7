//! Primitives of a package transparency registry: an authenticated binary
//! map with an exact-size depth-first iterator, signed payload envelopes with
//! domain-separated signing prefixes, and a text codec for timestamps.
use vstd::prelude::*;

pub mod codec;
pub mod envelope;
pub mod map;
pub mod payload;
pub mod signing;
pub mod timestamp;

verus! {

} // verus!

//! Build-time directory compiler for indoor positioning beacons.
//!
//! The library turns an upstream inventory of beacon records into two
//! generated source artifacts (a closed enumeration of building tags and a
//! static table of guarded beacon descriptors) and keeps the consuming
//! package's build-manifest feature list in step with the tag set.  All of
//! the pipeline's logic is pure text and integer work and is verified; the
//! network fetch, the JSON decoding and the file writes stand outside it.

pub mod buildings;
pub mod emit;
pub mod errors;
pub mod laws;
pub mod manifest;
pub mod records;
pub mod text;

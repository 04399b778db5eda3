//! Detection and classification of the dynamic libraries that a compiled
//! binary links against: what each inspection format yields, which
//! provenance bucket each library path falls into, and how the per-binary
//! report is assembled and rendered.

pub mod assemble;
pub mod classify;
pub mod error;
pub mod inspect;
pub mod model;
pub mod plan;
pub mod report;
pub mod text;

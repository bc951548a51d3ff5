//! Turns a source tree into a single digest document: glob-based file
//! selection, digest assembly, and a statistics engine over the selected
//! files, with contracts stating exactly what each stage produces.

pub mod acquire;
pub mod digest;
pub mod patterns;
pub mod select;
pub mod stats;

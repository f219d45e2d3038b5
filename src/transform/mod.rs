//! The rewriters of the event stream, and their composition.
pub mod span;
pub mod footnote;
pub mod toc;
pub mod heading;
pub mod math;
pub mod code_block;
pub mod image;
pub mod epigraph;
pub mod pipeline;

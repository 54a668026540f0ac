//! Conversion between office word-processing containers and a structured
//! document model, with HTML and plain-text renderers.
use vstd::prelude::*;

pub mod model;
pub mod text;
pub mod render;
pub mod xml;
pub mod styles;
pub mod reader;
pub mod writer;
pub mod document;
pub mod container;

verus! {

} // verus!

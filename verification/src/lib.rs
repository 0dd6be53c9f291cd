//! Math fragments in markdown: finding them, preparing them for a typesetting
//! engine, and making the engine's HTML safe to put back into markdown.

pub mod text;
pub mod normalize;
pub mod escape;
pub mod render;
pub mod scan;
pub mod chapter;
pub mod input;

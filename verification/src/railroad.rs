//! The railroad-diagram engine: drawing capability, diagram primitives and
//! the renderer that lays a parsed regular expression out as a grid of
//! box-drawing characters.

pub mod draw;
pub mod renderer;
pub mod sym;

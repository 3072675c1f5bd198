//! Archflow: architecture diagrams as code.
//!
//! The verified core of the diagram pipeline: the DSL parser, the schema
//! checks of the diagram model, the layer assignment of the layout, the
//! built-in themes and the choice of each style attribute, and the SVG
//! writer.

pub mod text;
pub mod error;
pub mod model;
pub mod number;
pub mod dsl;
pub mod layout;
pub mod validate;
pub mod render;
pub mod parse_laws;
pub mod theme;

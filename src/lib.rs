//! Renders a tree of styled text/box widgets onto an RGBA raster.
//!
//! The library resolves geometry and style for every widget, builds the
//! styled text runs handed to a shaping service, validates the shaped text
//! against its box, and composites fills and glyph coverage onto the raster.

pub mod color;
pub mod compose;
pub mod error;
pub mod laws;
pub mod layout;
pub mod raster;
pub mod units;
pub mod widget;

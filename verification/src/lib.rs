//! Text laid out as one triangle mesh.
//!
//! A string is turned into a single indexed mesh by placing the mesh of each
//! of its glyphs at a moving pen position. All geometry is exact integer
//! arithmetic: glyph coordinates are thousandths of an em, sizes are
//! hundredths of a unit, and the positions of the assembled mesh are their
//! product, hundred-thousandths of a unit.

pub mod casing;
pub mod font_loader;
pub mod glyph;
pub mod glyph_supply;
pub mod layout;
pub mod mesh_cache;
pub mod mesh_data_generator;
pub mod text_mesh;

//! Packs the glyph sprites of bitmap fonts into one texture atlas.
//!
//! The way through the crate: [`fnt`] reads the description of a font,
//! [`sources`] keeps what was loaded, [`font`] makes a list of sprites of a
//! description, [`texture_atlas`] collects the sizes of the sprites of its
//! fonts, has [`packing`] find a canvas and a place for each of them, and
//! draws the canvas, and [`atlas_meta`] says where every sprite ended up.
//!
//! [`packing`] is the heart of it. What it promises of every packing, that
//! no two sprites overlap, that every sprite has a place of its own size on
//! the canvas, that the same input gives the same result, is stated and
//! proved there.

pub mod atlas_meta;
pub mod bitmap;
pub mod error;
pub mod fnt;
pub mod font;
pub mod guess;
pub mod math;
pub mod packing;
pub mod render;
pub mod sort;
pub mod sources;
pub mod text;
pub mod texture_atlas;

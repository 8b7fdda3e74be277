//! Conversion of a tag-stream vector animation movie into an animated
//! vector document: character dictionary, timelines, shape paths,
//! script lowering and animation tracks.

pub mod animate;
pub mod avm1;
pub mod bitmap;
pub mod button;
pub mod dictionary;
pub mod emit;
pub mod document;
pub mod geom;
pub mod js;
pub mod jsdata;
pub mod keymap;
pub mod movie;
pub mod path;
pub mod shape;
pub mod sound;
pub mod svg;
pub mod timeline;

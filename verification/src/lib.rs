//! Greedy packing of rectangular images into one growing canvas.
//!
//! The images are ordered largest first. The first becomes the canvas; each
//! of the others is put at the first anchor, a free pixel next to the white
//! padding of an image already placed, where it fits. Where it fits nowhere
//! the canvas grows by as little as an anchor allows, and the image is tried
//! again.
//!
//! `canvas` holds the pixel buffer and everything that is taken on trust
//! about the `image` crate behind it. `grid` is the mathematical model that
//! all contracts speak of. `space` and `placement` decide where one image
//! goes, `builder` places a whole list, `border` adds the padding,
//! `selection` says which files of a directory take part, and `laws` proves
//! what holds of every collage.

pub mod border;
pub mod builder;
pub mod canvas;
pub mod color;
pub mod error;
pub mod grid;
pub mod laws;
pub mod occupancy;
pub mod placement;
pub mod selection;
pub mod space;

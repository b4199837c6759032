//! A software drawing surface: a fixed-size grid of colours onto which points,
//! axis-aligned segments, sloped lines and rectangles are rasterised, every
//! write clipped to the grid, together with the frame clock that paces an
//! animation. Each drawing operation is specified as painting a set of cells
//! of a mathematical canvas, and verified against that model.

pub mod canvas;
pub mod color;
pub mod gametime;
pub mod line;
pub mod rect;
pub mod video;

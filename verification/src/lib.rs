//! Content-aware image resizing by seam carving.
//!
//! An image is narrowed one column at a time. Each round measures how much
//! every pixel matters (a gradient field), accumulates the cheapest cost of a
//! top-to-bottom path through every cell (a cost table), traces one seam and
//! cuts it out of the pixel buffer.

pub mod grid;
pub mod error;
pub mod gradient;
pub mod table;
pub mod seam;
pub mod picture;
pub mod laws;

pub use crate::error::ResizeError;
pub use crate::gradient::GradientBuffer;
pub use crate::table::DPTable;
pub use crate::seam::Path;
pub use crate::picture::{decompose, Dimensions, Image};

//! Geometric transforms and neighbourhood filters on RGB pixel grids.
//!
//! A transform maps every sample of an image forward into a canvas; a filter
//! computes each interior sample from the 3x3 window around it. The contracts
//! describe both over grids of samples: sequences of columns.

pub mod arith;
pub mod buffer;
pub mod canvas;
pub mod color;
pub mod convolve;
pub mod edge;
pub mod filter;
pub mod morphology;
pub mod point;
pub mod rank;
pub mod transform;
pub mod window;

pub use crate::buffer::Image;
pub use crate::canvas::{
    get_cell, image_to_pixel_matrix, new_canvas, pixel_matrix_to_image, set_cell, PixelMatrix,
};
pub use crate::color::Color;
pub use crate::filter::{
    apply_average_filter_mask, average_filter, border_detection, dilation, erosion,
    gaussian_filter, median_filter, mode_filter, threshold, WindowFilter,
};
pub use crate::point::{brightness, contrast, grayscale, negative, transform_light, PointOp};
pub use crate::transform::{flip, rotate, scale, transform, translate, AffineMatrix, Direction};
pub use crate::window::FilterMatrix;

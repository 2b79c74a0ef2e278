//! Index and layout logic of a Fourier-slice visualisation pipeline: image
//! validation, strided views, a generic radix-2 decimation-in-time transform,
//! and the grid remappings that turn a 2-D spectrum into a sinogram.
pub mod validate;
pub mod strided;
pub mod fft;
pub mod remap;
pub mod pipeline;

//! Verified core of an image-transformation benchmark harness.
//!
//! The library holds the pixel kernels that the benchmarks measure
//! (inversion, grayscale conversion, Sobel gradients, rotation, adaptive
//! speckle denoising), the statistics that summarise the measured timings,
//! the benchmark catalog with its task filter, and the runner that times
//! repeated kernel invocations.  Image decoding, file output and console
//! formatting live outside the library.

pub mod arith;
pub mod img;
pub mod grayscale;
pub mod invert;
pub mod lee;
pub mod registry;
pub mod rotate;
pub mod runner;
pub mod sobel;
pub mod stats;

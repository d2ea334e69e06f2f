//! The discrete core of a Monte-Carlo path tracer.
//!
//! The renderer casts rays through every pixel, follows each path from
//! bounce to bounce and averages the samples of a pixel into its colour. The
//! geometry and the light are floating-point work done by the program around
//! this library; what is decided here, and proved, is:
//!
//! - `camera`: the size of the image, from its width and aspect ratio;
//! - `scene`: which surface a ray hits first, in a linear scan of the scene;
//! - `integrator`: how a path ends under its budget of bounces;
//! - `frame`: assembling the image from scanlines that arrive in any order;
//! - `pixel`: the packed 24-bit form of a finished pixel and its bytes.
pub mod camera;
pub mod frame;
pub mod integrator;
pub mod pixel;
pub mod scene;

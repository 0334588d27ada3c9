//! Escape-time rendering of a window of the complex plane into an 8-bit
//! grayscale raster, split into horizontal bands that are rendered in parallel.
//!
//! The arithmetic of the plane stays with the caller. The renderers take a
//! per-pixel classifier, a closure from pixel `(col, row)` to its escape step
//! (`None` for presumed membership), and the escape loop takes the orbit's
//! step and radius test as closures. Every result here is stated over what
//! those closures may return.
//!
//! - `shading`: intensity of a classified pixel, buffer layout.
//! - `escape`: the escape-time loop.
//! - `bands`: cutting the rows into bands.
//! - `render`: rendering one band, the whole image, or all bands in parallel.
//! - `pair`: splitting `"400x600"`-style text around its separator.
pub mod shading;
pub mod escape;
pub mod bands;
pub mod render;
pub mod pair;

//! A path tracer.
//!
//! Rays are cast from a camera into a scene of spheres, bounce off their
//! materials at random, and gather the light of the sky; many samples a pixel
//! are averaged into an image.
//!
//! Every number is an IEEE 754 binary64 value, held as its 64-bit pattern
//! and computed in integer arithmetic. `binary64` states what each operation
//! gives, as the exact result rounded to nearest, and proves that the code
//! gives it. The modules above it state their results over those operations:
//!
//! - `number`: the numbers, with their operators;
//! - `vec3`, `ray`: vectors and rays;
//! - `hittable`, `sphere`: what a ray can hit;
//! - `material`: how a surface sends a ray on;
//! - `camera`: from a place on the screen to a ray;
//! - `render`: the colour along a ray, and the pixels of an image;
//! - `scene`: a scene to render;
//! - `ppm`: the image and its text form;
//! - `utils`: constants and the source of random numbers;
//! - `laws`: what holds of all of these whatever the numbers.
//!
//! Random words come from outside, one for each state of a source that is
//! plain data. What a function draws is therefore stated exactly: its result
//! and the source after it are functions of its arguments and the source
//! before it.

pub mod binary64;
pub mod number;
pub mod vec3;
pub mod utils;
pub mod ray;
pub mod material;
pub mod hittable;
pub mod sphere;
pub mod camera;
pub mod render;
pub mod scene;
pub mod ppm;
pub mod laws;

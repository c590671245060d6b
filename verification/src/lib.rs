//! The integer core of a recursive ray tracer: reading the scene description
//! language, picking the nearest hit of a ray, transposing a transform, and
//! encoding the finished picture as an uncompressed 24-bit bitmap.
//!
//! Everything that computes with real numbers is left to the program that
//! uses this library.

pub mod bmp;
pub mod grid;
pub mod nearest;
pub mod numbers;
pub mod scene_parser;
pub mod tokens;

//! A terminal rendering engine: a grid of coloured characters, primitives that
//! rasterize onto it, a differential ANSI serializer, and the integer stages of
//! a painter's-algorithm 3D pipeline.
pub mod vec2d;
pub mod colchar;
pub mod wrapping;
pub mod canvas;
pub mod view;
pub mod line;
pub mod interpolate;
pub mod triangle;
pub mod polygon;
pub mod view3d;
pub mod ascii;
pub mod containers;
pub mod rect;

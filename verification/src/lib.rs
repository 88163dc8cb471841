//! A layered, multi-frame pixel canvas for small sprites.
//!
//! The library holds the document and everything that changes it:
//!
//! - [`color`]: four-channel colors and the "over" operator, in exact
//!   integer arithmetic;
//! - [`grid`], [`layer`]: pixel grids, layers and frames, with their
//!   models;
//! - [`compositor`]: flattening the layers of a frame, and its
//!   neighbours as onion skins, into the image on display;
//! - [`paint`], [`line`], [`circle`], [`fill`], [`spray`]: the shapes that
//!   the tools paint, with mirror symmetry, and flood fill;
//! - [`filters`], [`plugins`]: blur, noise, outline, pixelation and color
//!   replacement, and the plugins that offer them;
//! - [`history`]: the model of bounded undo and redo;
//! - [`editor`], [`editing`], [`document`], [`resize`], [`gesture`]: the
//!   editor itself, its tools on the layer being edited, the lists of
//!   layers and frames, the canvas size, and what the pointer does;
//! - [`tools`], [`export`]: names and icons of the tools, and pixels as
//!   bytes for the image encoders;
//! - [`random`]: the one place where chance comes in.
//!
//! Fractions (alpha, opacity, intensity) are integers in units of 1/255
//! throughout. Every function states what it computes over the models of
//! its arguments; the functions that draw on chance state what holds of
//! every outcome.

pub mod color;
pub mod grid;
pub mod layer;
pub mod compositor;
pub mod paint;
pub mod line;
pub mod circle;
pub mod fill;
pub mod random;
pub mod spray;
pub mod filters;
pub mod plugins;
pub mod tools;
pub mod export;
pub mod history;
pub mod editor;
pub mod editing;
pub mod resize;
pub mod document;
pub mod gesture;

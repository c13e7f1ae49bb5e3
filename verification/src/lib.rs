//! Core logic of a terminal feed-reader dashboard.
//!
//! The library holds the verified heart of the application: Unicode-width
//! text layout, the marquee animation, feed normalization and merging,
//! the freshness-bounded cache policy, the translation pipeline's pure
//! steps, the interaction state machine, and the cell-grid renderer.
//! Network and terminal I/O live outside, handing plain values in and out.

pub mod aggregate;
pub mod entry;
pub mod feed;
pub mod html;
pub mod marquee;
pub mod render;
pub mod state;
pub mod text;
pub mod translate;

//! Decoding of text containing ANSI escape sequences into styled segments.
//!
//! The crate scans a string for CSI escape sequences, understands the SGR
//! (Select Graphic Rendition) subset, folds the rendition commands into a
//! cumulative style state, and hands callers an ordered list of styled text
//! segments. Rendering those segments is left to the caller.

mod cursor;
mod graphic_rendition;
mod segments;
mod sequences;
mod style;

pub use cursor::CharCursor;
pub use graphic_rendition::{parse_sgrs, ColorEffect, ColorName, Sgr, SgrEffect};
pub use segments::get_sgr_segments;
pub use sequences::{cursor_skip_space, get_markers, read_next_sequence};
pub use sequences::{Csi, Escape, Marker, MarkerModel};
pub use style::{ClassStyle, InlineStyle, StyleBuilder};

//! Terminal emulator core: an ANSI/VT100 escape-sequence decoder and the
//! screen state it drives (cell grid, cursor, text rendition, scroll
//! region). The decoder is restartable: an incomplete trailing sequence
//! is buffered and finished when more input arrives.

pub mod ansi;
pub mod color;
pub mod rend;
pub mod screen;

pub use ansi::{AnsiType, CSIType, OSCType, escape};
pub use color::{Rgb, base_color, bold_color, indexed_color};
pub use rend::{Rendition, apply_sgr, default_rendition};
pub use screen::{Cell, TextArea, create_ta};

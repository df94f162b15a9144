//! Zero-width text representations of ASCII text, for Unicode and HTML.
//!
//! Text is first expanded to a binary representation (one group of eight
//! digits per byte, groups separated by a space), and every binary character
//! is then replaced by an invisible symbol chosen by a replacement
//! configuration. Streams of invisible symbols decode back to the text.
pub mod binary;
pub mod error;
pub mod input;
pub mod output;
pub mod text;
pub mod zero_width;
pub mod zero_width_char;

pub use binary::{decode_binary, Binary, BinaryUnit};
pub use error::Error;
pub use input::{Input, NotSupportedText};
pub use output::Output;
pub use zero_width::{ReplacementConfig, ZeroWidth};
pub use zero_width_char::ZeroWidthChar;

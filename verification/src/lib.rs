//! Terminal text styling through ANSI escape sequences.
//!
//! A [`Style`](style::Style) bundles boolean text attributes (bold, italic,
//! underline, ...) with optional foreground and background [`Color`](style::Color)s.
//! The encoders in [`ansi`] turn a style into the escape bytes that must
//! precede and follow a run of text, and compute the minimal escape sequence
//! that moves a terminal from one style to another.  All encoding is done
//! through the sink abstraction in [`write`], so the same algorithm serves a
//! character buffer and a byte buffer alike.

pub mod ansi;
pub mod codes;
pub mod laws;
pub mod style;
pub mod write;

pub use ansi::Infix;
pub use ansi::Prefix;
pub use ansi::Suffix;
pub use codes::CodeFormat;
pub use style::Color;
pub use style::Style;
pub use write::AnyWrite;
pub use write::BoundedSink;
pub use write::ByteSink;
pub use write::SinkError;
pub use write::StringSink;

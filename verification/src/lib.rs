//! A paginated document layout engine.
//!
//! The engine consumes a stream of structural markup events (headings,
//! paragraphs, code blocks, lists, emphasis, inline code, line breaks) and
//! lays the text out on A4 pages: it wraps text runs into lines, tracks the
//! vertical cursor, breaks pages and stamps a page-number footer on each.
//! The result is a sequence of pages, each a list of text placed at an
//! absolute position in a font and size, ready for an output writer.
//!
//! All geometry is exact integer arithmetic in English Metric Units, in
//! which millimetres and typographic points are both whole numbers.
//!
//! - [`units`]: lengths and the fixed page geometry
//! - [`style`]: the style table
//! - [`text`]: the text flow engine (words, physical lines, wrapping)
//! - [`page`]: pages, placed text and footers
//! - [`layout`]: the mathematical model of a document in progress
//! - [`renderer`]: the page manager
//! - [`event`]: the markup events
//! - [`driver`]: the event state machine
//! - [`laws`]: what holds of every layout

pub mod units;
pub mod style;
pub mod text;
pub mod page;
pub mod layout;
pub mod renderer;
pub mod event;
pub mod driver;
pub mod laws;

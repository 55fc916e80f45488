//! The markup events that the layout driver consumes.

use vstd::prelude::*;

verus! {

/// The level of a heading.
#[derive(Clone, Copy, Debug, PartialEq, Eq, Structural)]
pub enum HeadingLevel {
    H1,
    H2,
    H3,
    H4,
    H5,
    H6,
}

/// The element that a `Start` event opens.
#[derive(Clone, Copy, Debug, PartialEq, Eq, Structural)]
pub enum Tag {
    Heading(HeadingLevel),
    Paragraph,
    CodeBlock,
    List,
    Item,
    Strong,
    Emphasis,
    /// Any other element; the layout ignores it.
    Other,
}

/// The element that an `End` event closes.
#[derive(Clone, Copy, Debug, PartialEq, Eq, Structural)]
pub enum TagEnd {
    Heading,
    Paragraph,
    CodeBlock,
    List,
    Item,
    Strong,
    Emphasis,
    /// Any other element; the layout ignores it.
    Other,
}

/// One markup event.
#[derive(Debug, PartialEq, Eq)]
pub enum Event {
    Start(Tag),
    End(TagEnd),
    /// A run of text.
    Text(String),
    /// An inline code span.
    Code(String),
    SoftBreak,
    HardBreak,
    /// Any other event; the layout ignores it.
    Other,
}

} // verus!

//! Renderings of paths and numbers as Markdown and as plain text.
use vstd::prelude::*;

verus! {

/// Values that can be written as Markdown.
pub trait AsMarkdown {
    /// The Markdown text of the value.
    spec fn markdown(&self) -> Seq<char>;

    /// Writes the value as Markdown.
    fn as_markdown(&self) -> (r: String)
        ensures
            r@ == self.markdown(),
    ;
}

/// Values that can be written as plain text.
pub trait AsText {
    /// The plain text of the value.
    spec fn plain_text(&self) -> Seq<char>;

    /// Writes the value as plain text.
    fn as_text(&self) -> (r: String)
        ensures
            r@ == self.plain_text(),
    ;
}

} // verus!

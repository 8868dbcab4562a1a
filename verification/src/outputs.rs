//! Renderings of paths, numbers and graphs of changes.
pub mod markdown;
pub mod diagram;
pub mod text;
pub use markdown::{AsMarkdown, AsText};
pub use diagram::MermaidDiagram;
pub use text::TextOutput;

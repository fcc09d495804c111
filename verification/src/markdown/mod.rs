//! The Markdown rendering pipeline.
pub mod events;
pub mod highlight;
pub mod images;
pub mod math;
pub mod render;
pub mod sanitize;
pub mod syntaxes;
pub mod toc;

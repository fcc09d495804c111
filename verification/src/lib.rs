//! A read-only Markdown reader's document pipeline: path rules for Markdown
//! files, heading slugs and table of contents, a small LaTeX-to-HTML math
//! renderer, code highlighting, image source resolution and HTML cleaning.
pub mod cli;
pub mod document;
pub mod escape;
pub mod instance;
pub mod links;
pub mod markdown;
pub mod path;
pub mod text;

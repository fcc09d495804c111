//! A Markdown document read from disk, and the rules for reading one.
use vstd::prelude::*;
use vstd::string::*;
use crate::text::push_str;

verus! {

/// A Markdown file's path, the directory it lies in, and its text.
pub struct MarkdownSource {
    pub path: String,
    pub base_dir: String,
    pub content: String,
}

/// Why a document could not be read.
pub enum DocumentError {
    Missing(String),
    NotFile(String),
    Read(String),
    TooLarge,
}

/// The largest Markdown file the reader opens: 10 MB.
pub const MAX_MARKDOWN_BYTES: u64 = 10 * 1024 * 1024;

impl DocumentError {
    /// The message shown for this error.
    pub open spec fn message_spec(&self) -> Seq<char> {
        match self {
            DocumentError::Missing(p) => "The file does not exist: "@ + p@,
            DocumentError::NotFile(p) => "The path is not a file: "@ + p@,
            DocumentError::Read(e) => "Unable to read the file: "@ + e@,
            DocumentError::TooLarge => "The file is too large for the MVP reader. Maximum supported size is 10 MB."@,
        }
    }

    /// The message shown for this error.
    pub fn message(&self) -> (r: String)
        ensures
            r@ == self.message_spec(),
    {
        let mut out = String::new();
        match self {
            DocumentError::Missing(p) => {
                push_str(&mut out, "The file does not exist: ");
                push_str(&mut out, p.as_str());
            },
            DocumentError::NotFile(p) => {
                push_str(&mut out, "The path is not a file: ");
                push_str(&mut out, p.as_str());
            },
            DocumentError::Read(e) => {
                push_str(&mut out, "Unable to read the file: ");
                push_str(&mut out, e.as_str());
            },
            DocumentError::TooLarge => {
                push_str(
                    &mut out,
                    "The file is too large for the MVP reader. Maximum supported size is 10 MB.",
                );
            },
        }
        out
    }
}

/// Whether a file found at `path` may be read: it must be a regular file
/// of at most `MAX_MARKDOWN_BYTES` bytes.
pub fn check_markdown_file(path: &str, is_file: bool, len: u64) -> (r: Result<(), DocumentError>)
    ensures
        !is_file ==> (r matches Err(DocumentError::NotFile(p)) && p@ == path@),
        is_file && len > MAX_MARKDOWN_BYTES ==> r matches Err(DocumentError::TooLarge),
        is_file && len <= MAX_MARKDOWN_BYTES ==> r is Ok,
{
    if !is_file {
        return Err(DocumentError::NotFile(String::from_str(path)));
    }
    if len > MAX_MARKDOWN_BYTES {
        return Err(DocumentError::TooLarge);
    }
    Ok(())
}

} // verus!

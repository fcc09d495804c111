//! Which files the reader opens, and the path it is started with.
use vstd::prelude::*;
use crate::path::{
    body_start, extension_of, file_name, file_name_range, is_verbatim, last_dot_before,
    last_sep_before, path_extension, path_prefix, physical_root, prefix_len,
};
use crate::text::{ascii_lower_seq, str_eq, to_ascii_lowercase};

verus! {

/// Why a start-up path was refused.
#[derive(Debug, Clone, Copy, PartialEq, Eq, Structural)]
pub enum CliError {
    UnsupportedExtension,
}

impl CliError {
    /// The message shown for this error.
    pub fn message(&self) -> (r: String)
        ensures
            r@ == "Only .md and .markdown files are supported."@,
    {
        match self {
            CliError::UnsupportedExtension => String::from_str(
                "Only .md and .markdown files are supported.",
            ),
        }
    }
}

/// A path names a Markdown file when its extension, in any ASCII case, is
/// `md` or `markdown`.
pub open spec fn markdown_path(p: Seq<char>) -> bool {
    match path_extension(p) {
        Some(e) => ascii_lower_seq(e) == "md"@ || ascii_lower_seq(e) == "markdown"@,
        None => false,
    }
}

/// Any non-empty file name (one without `/`, `\` or `:`, as Windows file
/// names are), given the suffix `.md`, names a Markdown file.
pub proof fn lemma_md_suffix_is_markdown(name: Seq<char>)
    requires
        name.len() > 0,
        !name.contains('/'),
        !name.contains('\\'),
        !name.contains(':'),
    ensures
        markdown_path(name + ".md"@),
{
    reveal_strlit(".md");
    reveal_strlit("md");
    let p = name + ".md"@;
    let n = p.len() as int;
    assert(p[n - 1] == 'd');
    assert forall|k: int| 0 <= k < n implies #[trigger] p[k] != '/' && p[k] != '\\' && p[k] != ':' by {
        if k < name.len() {
            assert(p[k] == name[k]);
            if p[k] == '/' {
                assert(name.contains('/'));
            }
            if p[k] == '\\' {
                assert(name.contains('\\'));
            }
            if p[k] == ':' {
                assert(name.contains(':'));
            }
        }
    }
    assert(p[0] != '/' && p[0] != '\\' && p[1] != ':');
    assert(path_prefix(p) is None);
    assert(prefix_len(p) == 0);
    assert(!physical_root(p));
    assert(body_start(p) == 0);
    assert(!is_verbatim(p));
    lemma_last_sep_none(p, n);
    assert(p.subrange(0, n) =~= p);
    assert(p != seq!['.']);
    assert(p != seq!['.', '.']);
    assert(file_name_range(p, 0, n, false) == Some((0int, n)));
    assert(file_name(p) == Some(p));
    let d = name.len() as int;
    assert(p[d] == '.');
    assert(p[d + 1] == 'm');
    assert(last_dot_before(p, d + 1) == d);
    assert(last_dot_before(p, d + 2) == d);
    assert(last_dot_before(p, n) == d);
    assert(p.subrange(d + 1, n) =~= "md"@);
    assert(ascii_lower_seq("md"@) =~= "md"@);
}

proof fn lemma_last_sep_none(p: Seq<char>, end: int)
    requires
        0 <= end <= p.len(),
        forall|k: int| 0 <= k < end ==> #[trigger] p[k] != '/' && p[k] != '\\',
    ensures
        last_sep_before(p, 0, end, false) == -1,
    decreases end,
{
    if end > 0 {
        lemma_last_sep_none(p, end - 1);
    }
}

/// Whether `path` names a Markdown file.
pub fn is_markdown_path(path: &str) -> (r: bool)
    ensures
        r == markdown_path(path@),
{
    match extension_of(path) {
        Some(ext) => {
            let lower = to_ascii_lowercase(ext.as_str());
            str_eq(lower.as_str(), "md") || str_eq(lower.as_str(), "markdown")
        },
        None => false,
    }
}

/// The document to open at start-up, from the first command-line argument:
/// none without an argument, the path when it names a Markdown file, and
/// an error otherwise.
pub fn startup_markdown_path(first_arg: Option<String>) -> (r: Result<Option<String>, CliError>)
    ensures
        match first_arg {
            None => r == Ok::<Option<String>, CliError>(None),
            Some(p) => if markdown_path(p@) {
                r == Ok::<Option<String>, CliError>(Some(p))
            } else {
                r == Err::<Option<String>, CliError>(CliError::UnsupportedExtension)
            },
        },
{
    match first_arg {
        None => Ok(None),
        Some(path) => {
            if !is_markdown_path(path.as_str()) {
                return Err(CliError::UnsupportedExtension);
            }
            Ok(Some(path))
        },
    }
}

} // verus!

//! Paths written as strings, read as `std::path::Path` reads them on
//! Windows, where the reader runs: `/` and `\` both separate components
//! (only `\` after a verbatim `\\?\` prefix), a path may start with a
//! prefix (`C:`, `\\server\share`, `\\.\device`, `\\?\...`), and joining
//! follows `PathBuf::push`.
use vstd::prelude::*;
use vstd::string::*;
use crate::text::{chars_of, is_ascii_alpha, push_char, push_str, string_from_range};

verus! {

/// A path separator: `/` or `\`.
pub open spec fn is_sep_char(c: char) -> bool {
    c == '/' || c == '\\'
}

/// A separator of a path's components: only `\` in a verbatim path.
pub open spec fn sep_for(verbatim: bool, c: char) -> bool {
    if verbatim {
        c == '\\'
    } else {
        is_sep_char(c)
    }
}

/// Index of the first separator at or after `i`, or the length.
pub open spec fn next_sep(p: Seq<char>, i: int, verbatim: bool) -> int
    decreases p.len() - i,
{
    if i < 0 || i >= p.len() {
        p.len() as int
    } else if sep_for(verbatim, p[i]) {
        i
    } else {
        next_sep(p, i + 1, verbatim)
    }
}

/// The kinds of Windows path prefix.
#[derive(Clone, Copy, Debug, PartialEq, Eq, Structural)]
pub enum PrefixKind {
    /// `\\?\name`
    Verbatim,
    /// `\\?\UNC\server\share`
    VerbatimUnc,
    /// `\\?\C:`
    VerbatimDisk,
    /// `\\.\device`
    DeviceNs,
    /// `\\server\share`
    Unc,
    /// `C:`
    Disk,
}

/// Where the part after a component that starts at `i` begins: past the
/// separator that ends it, if there is one.
pub open spec fn after_component(p: Seq<char>, i: int, verbatim: bool) -> int {
    let e = next_sep(p, i, verbatim);
    if e < p.len() {
        e + 1
    } else {
        e
    }
}

/// The prefix of a path and its length.
pub open spec fn path_prefix(p: Seq<char>) -> Option<(PrefixKind, int)> {
    if p.len() >= 2 && is_sep_char(p[0]) && is_sep_char(p[1]) {
        if p.len() >= 4 && p[0] == '\\' && p[1] == '\\' && p[2] == '?' && p[3] == '\\' {
            if p.len() >= 8 && p[4] == 'U' && p[5] == 'N' && p[6] == 'C' && is_sep_char(p[7]) {
                let server_end = next_sep(p, 8, true);
                let share_start = after_component(p, 8, true);
                let share_end = next_sep(p, share_start, true);
                if share_end > share_start {
                    Some((PrefixKind::VerbatimUnc, share_end))
                } else {
                    Some((PrefixKind::VerbatimUnc, server_end))
                }
            } else if p.len() >= 6 && is_ascii_alpha(p[4]) && p[5] == ':' && (p.len() == 6 || p[6]
                == '\\') {
                Some((PrefixKind::VerbatimDisk, 6))
            } else {
                Some((PrefixKind::Verbatim, next_sep(p, 4, true)))
            }
        } else if p.len() >= 4 && p[2] == '.' && is_sep_char(p[3]) {
            Some((PrefixKind::DeviceNs, next_sep(p, 4, false)))
        } else {
            let server_end = next_sep(p, 2, false);
            let share_start = after_component(p, 2, false);
            let share_end = next_sep(p, share_start, false);
            if server_end > 2 && share_end > share_start {
                Some((PrefixKind::Unc, share_end))
            } else {
                None
            }
        }
    } else if p.len() >= 2 && p[1] == ':' && is_ascii_alpha(p[0]) {
        Some((PrefixKind::Disk, 2))
    } else {
        None
    }
}

/// The length of a path's prefix (0 when it has none).
pub open spec fn prefix_len(p: Seq<char>) -> int {
    match path_prefix(p) {
        Some((_, n)) => n,
        None => 0,
    }
}

/// Whether a path has a verbatim (`\\?\`) prefix.
pub open spec fn is_verbatim(p: Seq<char>) -> bool {
    match path_prefix(p) {
        Some((k, _)) => k == PrefixKind::Verbatim || k == PrefixKind::VerbatimUnc || k
            == PrefixKind::VerbatimDisk,
        None => false,
    }
}

/// Whether a separator follows the prefix (or starts a path without one).
pub open spec fn physical_root(p: Seq<char>) -> bool {
    prefix_len(p) < p.len() && is_sep_char(p[prefix_len(p)])
}

/// `Path::has_root`: a separator after the prefix, or a prefix other than
/// a drive letter, which implies a root.
pub open spec fn has_root(p: Seq<char>) -> bool {
    physical_root(p) || match path_prefix(p) {
        Some((k, _)) => k != PrefixKind::Disk,
        None => false,
    }
}

/// `Path::is_absolute`: a prefix and a root.
pub open spec fn path_is_absolute(p: Seq<char>) -> bool {
    path_prefix(p) is Some && has_root(p)
}

/// Where the components after the prefix and the root begin.
pub open spec fn body_start(p: Seq<char>) -> int {
    prefix_len(p) + if physical_root(p) {
        1int
    } else {
        0int
    }
}

/// Index of the last separator in `p[lo..end]`, or `lo - 1`.
pub open spec fn last_sep_before(p: Seq<char>, lo: int, end: int, verbatim: bool) -> int
    decreases end - lo,
{
    if end <= lo {
        lo - 1
    } else if sep_for(verbatim, p[end - 1]) {
        end - 1
    } else {
        last_sep_before(p, lo, end - 1, verbatim)
    }
}

/// Where the final component of `p[lo..end]` lies, when it is a file or
/// directory name: trailing separators and `.` components are passed over
/// (in a verbatim path a final `.` is no name), and a final `..` has none.
pub open spec fn file_name_range(p: Seq<char>, lo: int, end: int, verbatim: bool) -> Option<(int, int)>
    decreases end - lo,
{
    if end <= lo || end > p.len() || lo < 0 {
        None
    } else if sep_for(verbatim, p[end - 1]) {
        file_name_range(p, lo, end - 1, verbatim)
    } else {
        proof {
            lemma_last_sep_before(p, lo, end, verbatim);
        }
        let k = last_sep_before(p, lo, end, verbatim);
        let seg = p.subrange(k + 1, end);
        if seg == seq!['.'] {
            if verbatim || k < lo {
                None
            } else {
                file_name_range(p, lo, k, verbatim)
            }
        } else if seg == seq!['.', '.'] {
            None
        } else {
            Some((k + 1, end))
        }
    }
}

/// `Path::file_name`.
pub open spec fn file_name(p: Seq<char>) -> Option<Seq<char>> {
    match file_name_range(p, body_start(p), p.len() as int, is_verbatim(p)) {
        Some((a, b)) => Some(p.subrange(a, b)),
        None => None,
    }
}

/// Index of the last `.` in `name`, or -1.
pub open spec fn last_dot_before(name: Seq<char>, end: int) -> int
    decreases end,
{
    if end <= 0 {
        -1
    } else if name[end - 1] == '.' {
        end - 1
    } else {
        last_dot_before(name, end - 1)
    }
}

/// The extension of a file name: what follows its last `.`, unless that
/// `.` is the first character or there is none.
pub open spec fn name_extension(name: Seq<char>) -> Option<Seq<char>> {
    let d = last_dot_before(name, name.len() as int);
    if d <= 0 {
        None
    } else {
        Some(name.subrange(d + 1, name.len() as int))
    }
}

/// The stem of a file name: what precedes its last `.`, or the whole name
/// when `name_extension` has none.
pub open spec fn name_stem(name: Seq<char>) -> Seq<char> {
    let d = last_dot_before(name, name.len() as int);
    if d <= 0 {
        name
    } else {
        name.subrange(0, d)
    }
}

/// `Path::extension`.
pub open spec fn path_extension(p: Seq<char>) -> Option<Seq<char>> {
    match file_name(p) {
        Some(n) => name_extension(n),
        None => None,
    }
}

/// `Path::file_stem`.
pub open spec fn path_file_stem(p: Seq<char>) -> Option<Seq<char>> {
    match file_name(p) {
        Some(n) => Some(name_stem(n)),
        None => None,
    }
}

/// The non-empty components of `p[i..]` between separators, in order; a
/// `.` component is dropped unless the path is verbatim.
pub open spec fn parts_from(p: Seq<char>, i: int, verbatim: bool) -> Seq<Seq<char>>
    decreases p.len() - i,
{
    if i < 0 || i >= p.len() {
        Seq::empty()
    } else {
        proof {
            lemma_next_sep(p, i, verbatim);
        }
        let e = next_sep(p, i, verbatim);
        let seg = p.subrange(i, e);
        let rest = if e < p.len() {
            parts_from(p, e + 1, verbatim)
        } else {
            Seq::empty()
        };
        if seg.len() == 0 || (!verbatim && seg == seq!['.']) {
            rest
        } else {
            seq![seg] + rest
        }
    }
}

/// Whether a component is a name (neither `.` nor `..`).
pub open spec fn is_name_part(s: Seq<char>) -> bool {
    s != seq!['.'] && s != seq!['.', '.']
}

/// Appends components after a verbatim path: `..` removes a preceding name
/// (and is dropped otherwise), every other component is added.
pub open spec fn apply_parts(stack: Seq<Seq<char>>, parts: Seq<Seq<char>>) -> Seq<Seq<char>>
    decreases parts.len(),
{
    if parts.len() == 0 {
        stack
    } else {
        let c = parts[0];
        let next = if c == seq!['.', '.'] {
            if stack.len() > 0 && is_name_part(stack.last()) {
                stack.drop_last()
            } else {
                stack
            }
        } else {
            stack.push(c)
        };
        apply_parts(next, parts.drop_first())
    }
}

/// Components written one after another with `\` between them.
pub open spec fn joined(parts: Seq<Seq<char>>) -> Seq<char>
    decreases parts.len(),
{
    if parts.len() == 0 {
        Seq::empty()
    } else if parts.len() == 1 {
        parts[0]
    } else {
        joined(parts.drop_last()) + seq!['\\'] + parts.last()
    }
}

/// Joining a non-empty relative path to a verbatim path: the components
/// are combined with `.` and `..` resolved, and written with `\`.
pub open spec fn verbatim_join(base: Seq<char>, rel: Seq<char>) -> Seq<char> {
    let root = physical_root(base) || physical_root(rel);
    let start = if physical_root(rel) {
        Seq::empty()
    } else {
        parts_from(base, body_start(base), true)
    };
    let stack = apply_parts(start, parts_from(rel, body_start(rel), false));
    base.subrange(0, prefix_len(base)) + if root || stack.len() > 0 {
        seq!['\\'] + joined(stack)
    } else {
        Seq::empty()
    }
}

/// Whether joining onto `base` puts a `\` between: it does not end in a
/// separator and is not a bare drive such as `C:`.
pub open spec fn join_needs_sep(base: Seq<char>) -> bool {
    &&& base.len() > 0
    &&& !is_sep_char(base.last())
    &&& !(path_prefix(base) == Some((PrefixKind::Disk, 2int)) && base.len() == 2)
}

/// `PathBuf::join`: an absolute or prefixed path replaces the base; after a
/// verbatim base the components are combined; a path with a root keeps
/// only the base's prefix; otherwise a `\` goes between the two where
/// needed.
pub open spec fn path_join(base: Seq<char>, rel: Seq<char>) -> Seq<char> {
    if path_is_absolute(rel) || path_prefix(rel) is Some {
        rel
    } else if is_verbatim(base) && rel.len() > 0 {
        verbatim_join(base, rel)
    } else if physical_root(rel) {
        base.subrange(0, prefix_len(base)) + rel
    } else if join_needs_sep(base) {
        base + seq!['\\'] + rel
    } else {
        base + rel
    }
}

pub proof fn lemma_next_sep(p: Seq<char>, i: int, verbatim: bool)
    requires
        0 <= i <= p.len(),
    ensures
        i <= next_sep(p, i, verbatim) <= p.len(),
        next_sep(p, i, verbatim) < p.len() ==> sep_for(verbatim, p[next_sep(p, i, verbatim)]),
        forall|k: int| i <= k < next_sep(p, i, verbatim) ==> !sep_for(verbatim, #[trigger] p[k]),
    decreases p.len() - i,
{
    if i < p.len() && !sep_for(verbatim, p[i]) {
        lemma_next_sep(p, i + 1, verbatim);
    }
}

pub proof fn lemma_last_sep_before(p: Seq<char>, lo: int, end: int, verbatim: bool)
    requires
        0 <= lo <= end <= p.len(),
    ensures
        lo - 1 <= last_sep_before(p, lo, end, verbatim) < end,
        last_sep_before(p, lo, end, verbatim) >= lo ==> sep_for(
            verbatim,
            p[last_sep_before(p, lo, end, verbatim)],
        ),
        forall|k: int|
            last_sep_before(p, lo, end, verbatim) < k < end ==> !sep_for(verbatim, #[trigger] p[k]),
    decreases end - lo,
{
    if end > lo && !sep_for(verbatim, p[end - 1]) {
        lemma_last_sep_before(p, lo, end - 1, verbatim);
    }
}

pub proof fn lemma_last_dot_before(p: Seq<char>, end: int)
    requires
        0 <= end <= p.len(),
    ensures
        -1 <= last_dot_before(p, end) < end,
    decreases end,
{
    if end > 0 && p[end - 1] != '.' {
        lemma_last_dot_before(p, end - 1);
    }
}

pub proof fn lemma_file_name_range(p: Seq<char>, lo: int, end: int, verbatim: bool)
    ensures
        file_name_range(p, lo, end, verbatim) matches Some((a, b)) ==> 0 <= lo <= a < b <= end <= p.len(),
    decreases end - lo,
{
    if 0 <= lo < end <= p.len() {
        if sep_for(verbatim, p[end - 1]) {
            lemma_file_name_range(p, lo, end - 1, verbatim);
        } else {
            lemma_last_sep_before(p, lo, end, verbatim);
            let k = last_sep_before(p, lo, end, verbatim);
            if k >= lo {
                lemma_file_name_range(p, lo, k, verbatim);
            }
        }
    }
}

pub proof fn lemma_prefix_len(p: Seq<char>)
    ensures
        0 <= prefix_len(p) <= p.len(),
        0 <= body_start(p) <= p.len(),
{
    if p.len() >= 2 && is_sep_char(p[0]) && is_sep_char(p[1]) {
        lemma_next_sep(p, 2, false);
        if p.len() >= 4 {
            lemma_next_sep(p, 4, true);
            lemma_next_sep(p, 4, false);
        }
        if p.len() >= 8 {
            lemma_next_sep(p, 8, true);
            let s8 = after_component(p, 8, true);
            lemma_next_sep(p, s8, true);
        }
        let s2 = after_component(p, 2, false);
        lemma_next_sep(p, s2, false);
    }
}

/// Whether `c` separates components.
fn is_sep_exec(c: char, verbatim: bool) -> (r: bool)
    ensures
        r == sep_for(verbatim, c),
{
    if verbatim {
        c == '\\'
    } else {
        c == '/' || c == '\\'
    }
}

/// Index of the first separator at or after `i`, or the length.
fn next_sep_at(chars: &Vec<char>, i: usize, verbatim: bool) -> (r: usize)
    requires
        i <= chars@.len(),
    ensures
        r as int == next_sep(chars@, i as int, verbatim),
        i <= r <= chars@.len(),
    decreases chars@.len() - i,
{
    if i >= chars.len() {
        chars.len()
    } else if is_sep_exec(chars[i], verbatim) {
        i
    } else {
        next_sep_at(chars, i + 1, verbatim)
    }
}

/// Where the part after a component that starts at `i` begins.
fn after_component_at(chars: &Vec<char>, i: usize, verbatim: bool) -> (r: usize)
    requires
        i <= chars@.len(),
    ensures
        r as int == after_component(chars@, i as int, verbatim),
        i <= r <= chars@.len(),
{
    let e = next_sep_at(chars, i, verbatim);
    if e < chars.len() {
        e + 1
    } else {
        e
    }
}

fn is_alpha_exec(c: char) -> (r: bool)
    ensures
        r == is_ascii_alpha(c),
{
    ('a' <= c && c <= 'z') || ('A' <= c && c <= 'Z')
}

/// The prefix of a path and its length.
fn prefix_at(chars: &Vec<char>) -> (r: Option<(PrefixKind, usize)>)
    ensures
        match r {
            Some((k, n)) => path_prefix(chars@) == Some((k, n as int)),
            None => path_prefix(chars@) is None,
        },
{
    let n = chars.len();
    if n >= 2 && is_sep_exec(chars[0], false) && is_sep_exec(chars[1], false) {
        if n >= 4 && chars[0] == '\\' && chars[1] == '\\' && chars[2] == '?' && chars[3] == '\\' {
            if n >= 8 && chars[4] == 'U' && chars[5] == 'N' && chars[6] == 'C' && is_sep_exec(
                chars[7],
                false,
            ) {
                let server_end = next_sep_at(chars, 8, true);
                let share_start = after_component_at(chars, 8, true);
                let share_end = next_sep_at(chars, share_start, true);
                if share_end > share_start {
                    Some((PrefixKind::VerbatimUnc, share_end))
                } else {
                    Some((PrefixKind::VerbatimUnc, server_end))
                }
            } else if n >= 6 && is_alpha_exec(chars[4]) && chars[5] == ':' && (n == 6 || chars[6]
                == '\\') {
                Some((PrefixKind::VerbatimDisk, 6))
            } else {
                Some((PrefixKind::Verbatim, next_sep_at(chars, 4, true)))
            }
        } else if n >= 4 && chars[2] == '.' && is_sep_exec(chars[3], false) {
            Some((PrefixKind::DeviceNs, next_sep_at(chars, 4, false)))
        } else {
            let server_end = next_sep_at(chars, 2, false);
            let share_start = after_component_at(chars, 2, false);
            let share_end = next_sep_at(chars, share_start, false);
            if server_end > 2 && share_end > share_start {
                Some((PrefixKind::Unc, share_end))
            } else {
                None
            }
        }
    } else if n >= 2 && chars[1] == ':' && is_alpha_exec(chars[0]) {
        Some((PrefixKind::Disk, 2))
    } else {
        None
    }
}

/// The facts about a path's layout: prefix length, whether it is verbatim,
/// whether a root separator follows the prefix, and where its components
/// begin.
fn layout_of(chars: &Vec<char>) -> (r: (usize, bool, bool, usize))
    ensures
        r.0 as int == prefix_len(chars@),
        r.1 == is_verbatim(chars@),
        r.2 == physical_root(chars@),
        r.3 as int == body_start(chars@),
        r.3 <= chars@.len(),
{
    proof {
        lemma_prefix_len(chars@);
    }
    let (len, verbatim) = match prefix_at(chars) {
        Some((k, n)) => (
            n,
            k == PrefixKind::Verbatim || k == PrefixKind::VerbatimUnc || k == PrefixKind::VerbatimDisk,
        ),
        None => (0, false),
    };
    let root = len < chars.len() && is_sep_exec(chars[len], false);
    let body = if root {
        len + 1
    } else {
        len
    };
    (len, verbatim, root, body)
}

/// `Path::is_absolute`.
pub fn is_absolute_path(path: &str) -> (r: bool)
    ensures
        r == path_is_absolute(path@),
{
    let chars = chars_of(path);
    match prefix_at(&chars) {
        Some((k, _)) => {
            let (_, _, root, _) = layout_of(&chars);
            root || k != PrefixKind::Disk
        },
        None => false,
    }
}

/// Index of the last separator in `chars[lo..end]`, or `None`.
fn last_sep(chars: &Vec<char>, lo: usize, end: usize, verbatim: bool) -> (r: Option<usize>)
    requires
        lo <= end <= chars@.len(),
    ensures
        match r {
            Some(k) => last_sep_before(chars@, lo as int, end as int, verbatim) == k as int && lo <= k < end,
            None => last_sep_before(chars@, lo as int, end as int, verbatim) == lo - 1,
        },
    decreases end - lo,
{
    if end <= lo {
        None
    } else if is_sep_exec(chars[end - 1], verbatim) {
        Some(end - 1)
    } else {
        last_sep(chars, lo, end - 1, verbatim)
    }
}

/// Where the file name of `chars[lo..end]` lies.
fn file_name_bounds(chars: &Vec<char>, lo: usize, end: usize, verbatim: bool) -> (r: Option<(usize, usize)>)
    requires
        lo <= end <= chars@.len(),
    ensures
        match r {
            Some((a, b)) => file_name_range(chars@, lo as int, end as int, verbatim) == Some((a as int, b as int)),
            None => file_name_range(chars@, lo as int, end as int, verbatim) is None,
        },
    decreases end - lo,
{
    if end <= lo {
        return None;
    }
    if is_sep_exec(chars[end - 1], verbatim) {
        return file_name_bounds(chars, lo, end - 1, verbatim);
    }
    let ks = last_sep(chars, lo, end, verbatim);
    proof {
        lemma_last_sep_before(chars@, lo as int, end as int, verbatim);
    }
    let start = match ks {
        Some(k) => k + 1,
        None => lo,
    };
    let seg_len = end - start;
    if seg_len == 1 && chars[start] == '.' {
        assert(chars@.subrange(start as int, end as int) =~= seq!['.']);
        if verbatim {
            None
        } else {
            match ks {
                Some(k) => file_name_bounds(chars, lo, k, verbatim),
                None => None,
            }
        }
    } else if seg_len == 2 && chars[start] == '.' && chars[start + 1] == '.' {
        assert(chars@.subrange(start as int, end as int) =~= seq!['.', '.']);
        None
    } else {
        proof {
            let seg = chars@.subrange(start as int, end as int);
            let one = seq!['.'];
            let two = seq!['.', '.'];
            assert(one.len() == 1 && one[0] == '.');
            assert(two.len() == 2 && two[0] == '.' && two[1] == '.');
            if seg_len == 1 {
                assert(seg[0] == chars@[start as int]);
            }
            if seg_len == 2 {
                assert(seg[0] == chars@[start as int]);
                assert(seg[1] == chars@[start + 1]);
            }
            assert(seg != one);
            assert(seg != two);
        }
        Some((start, end))
    }
}

/// `Path::file_name`.
pub fn file_name_of(path: &str) -> (r: Option<String>)
    ensures
        match r {
            Some(n) => file_name(path@) == Some(n@),
            None => file_name(path@) is None,
        },
{
    let chars = chars_of(path);
    let (_, verbatim, _, body) = layout_of(&chars);
    proof {
        lemma_file_name_range(chars@, body as int, chars@.len() as int, verbatim);
    }
    match file_name_bounds(&chars, body, chars.len(), verbatim) {
        Some((a, b)) => Some(string_from_range(&chars, a, b)),
        None => None,
    }
}

/// Index of the last `.` in `name[..end]`.
fn last_dot(name: &Vec<char>, end: usize) -> (r: Option<usize>)
    requires
        end <= name@.len(),
    ensures
        match r {
            Some(k) => last_dot_before(name@, end as int) == k as int,
            None => last_dot_before(name@, end as int) == -1,
        },
    decreases end,
{
    if end == 0 {
        None
    } else if name[end - 1] == '.' {
        Some(end - 1)
    } else {
        last_dot(name, end - 1)
    }
}

/// `Path::extension`.
pub fn extension_of(path: &str) -> (r: Option<String>)
    ensures
        match r {
            Some(e) => path_extension(path@) == Some(e@),
            None => path_extension(path@) is None,
        },
{
    match file_name_of(path) {
        None => None,
        Some(name) => {
            let chars = chars_of(name.as_str());
            proof {
                lemma_last_dot_before(chars@, chars@.len() as int);
            }
            match last_dot(&chars, chars.len()) {
                Some(d) => {
                    if d == 0 {
                        None
                    } else {
                        Some(string_from_range(&chars, d + 1, chars.len()))
                    }
                },
                None => None,
            }
        },
    }
}

/// `Path::file_stem`.
pub fn file_stem_of(path: &str) -> (r: Option<String>)
    ensures
        match r {
            Some(e) => path_file_stem(path@) == Some(e@),
            None => path_file_stem(path@) is None,
        },
{
    match file_name_of(path) {
        None => None,
        Some(name) => {
            let chars = chars_of(name.as_str());
            proof {
                lemma_last_dot_before(chars@, chars@.len() as int);
            }
            match last_dot(&chars, chars.len()) {
                Some(d) => {
                    if d == 0 {
                        Some(name)
                    } else {
                        Some(string_from_range(&chars, 0, d))
                    }
                },
                None => Some(name),
            }
        },
    }
}

/// The views of a list of components.
pub open spec fn parts_view(v: Seq<Vec<char>>) -> Seq<Seq<char>> {
    v.map_values(|x: Vec<char>| x@)
}

/// The characters `chars[a..b]`.
fn slice_chars(chars: &Vec<char>, a: usize, b: usize) -> (r: Vec<char>)
    requires
        a <= b <= chars@.len(),
    ensures
        r@ == chars@.subrange(a as int, b as int),
{
    let mut r: Vec<char> = Vec::new();
    let mut i = a;
    while i < b
        invariant
            a <= i <= b <= chars@.len(),
            r@ == chars@.subrange(a as int, i as int),
        decreases b - i,
    {
        r.push(chars[i]);
        i = i + 1;
        assert(r@ =~= chars@.subrange(a as int, i as int));
    }
    r
}

/// Whether a component is `.`.
fn is_dot(seg: &Vec<char>) -> (r: bool)
    ensures
        r == (seg@ == seq!['.']),
{
    let r = seg.len() == 1 && seg[0] == '.';
    proof {
        if seg@.len() == 1 && seg@[0] == '.' {
            assert(seg@ =~= seq!['.']);
        }
        if seg@ == seq!['.'] {
            assert(seq!['.'].len() == 1 && seq!['.'][0] == '.');
        }
    }
    r
}

/// Whether a component is `..`.
fn is_dot_dot(seg: &Vec<char>) -> (r: bool)
    ensures
        r == (seg@ == seq!['.', '.']),
{
    let r = seg.len() == 2 && seg[0] == '.' && seg[1] == '.';
    proof {
        if seg@.len() == 2 && seg@[0] == '.' && seg@[1] == '.' {
            assert(seg@ =~= seq!['.', '.']);
        }
        if seg@ == seq!['.', '.'] {
            assert(seq!['.', '.'].len() == 2 && seq!['.', '.'][0] == '.' && seq!['.', '.'][1] == '.');
        }
    }
    r
}

/// The components of `chars[start..]`.
fn parts_at(chars: &Vec<char>, start: usize, verbatim: bool) -> (r: Vec<Vec<char>>)
    requires
        start <= chars@.len(),
    ensures
        parts_view(r@) == parts_from(chars@, start as int, verbatim),
{
    let mut out: Vec<Vec<char>> = Vec::new();
    let mut i = start;
    proof {
        assert(parts_view(out@) + parts_from(chars@, i as int, verbatim) =~= parts_from(chars@, start as int, verbatim));
    }
    while i < chars.len()
        invariant
            start <= i <= chars@.len() + 1,
            parts_view(out@) + parts_from(chars@, i as int, verbatim) == parts_from(chars@, start as int, verbatim),
        decreases chars@.len() + 1 - i,
    {
        let e = next_sep_at(chars, i, verbatim);
        let seg = slice_chars(chars, i, e);
        let ghost before = parts_view(out@);
        let ghost rest = parts_from(chars@, e + 1, verbatim);
        proof {
            lemma_next_sep(chars@, i as int, verbatim);
        }
        if seg.len() == 0 || (!verbatim && is_dot(&seg)) {
        } else {
            out.push(seg);
            assert(parts_view(out@) =~= before.push(seg@));
            assert(before.push(seg@) + rest =~= before + (seq![seg@] + rest));
        }
        if e < chars.len() {
            i = e + 1;
        } else {
            i = e;
        }
    }
    proof {
        assert(parts_from(chars@, i as int, verbatim) == Seq::<Seq<char>>::empty());
        assert(parts_view(out@) + Seq::<Seq<char>>::empty() =~= parts_view(out@));
    }
    out
}

/// Appends components after a verbatim path.
fn apply_parts_exec(stack: Vec<Vec<char>>, parts: &Vec<Vec<char>>) -> (r: Vec<Vec<char>>)
    ensures
        parts_view(r@) == apply_parts(parts_view(stack@), parts_view(parts@)),
{
    let mut stack = stack;
    let ghost total = apply_parts(parts_view(stack@), parts_view(parts@));
    let mut k: usize = 0;
    proof {
        assert(parts_view(parts@).subrange(0, parts@.len() as int) =~= parts_view(parts@));
    }
    while k < parts.len()
        invariant
            k <= parts@.len(),
            apply_parts(parts_view(stack@), parts_view(parts@).subrange(k as int, parts@.len() as int)) == total,
        decreases parts@.len() - k,
    {
        let ghost rest = parts_view(parts@).subrange(k as int, parts@.len() as int);
        let ghost old_stack = parts_view(stack@);
        assert(rest[0] == parts@[k as int]@);
        assert(rest.drop_first() =~= parts_view(parts@).subrange(k + 1, parts@.len() as int));
        let c = &parts[k];
        if is_dot_dot(c) {
            if stack.len() > 0 {
                let last = stack.len() - 1;
                let d1 = is_dot(&stack[last]);
                let d2 = is_dot_dot(&stack[last]);
                if !d1 && !d2 {
                    stack.pop();
                    assert(parts_view(stack@) =~= old_stack.drop_last());
                }
            }
        } else {
            stack.push(c.clone());
            assert(parts_view(stack@) =~= old_stack.push(c@));
        }
        k = k + 1;
    }
    proof {
        assert(parts_view(parts@).subrange(k as int, parts@.len() as int) =~= Seq::<Seq<char>>::empty());
    }
    stack
}

/// Appends the characters of a component.
fn push_chars(out: &mut String, cs: &Vec<char>)
    ensures
        final(out)@ == old(out)@ + cs@,
{
    let mut i: usize = 0;
    while i < cs.len()
        invariant
            i <= cs@.len(),
            out@ == old(out)@ + cs@.subrange(0, i as int),
        decreases cs@.len() - i,
    {
        push_char(out, cs[i]);
        i = i + 1;
        assert(out@ =~= old(out)@ + cs@.subrange(0, i as int));
    }
    assert(cs@.subrange(0, i as int) =~= cs@);
}

/// Appends components with `\` between them.
fn push_joined(out: &mut String, parts: &Vec<Vec<char>>)
    ensures
        final(out)@ == old(out)@ + joined(parts_view(parts@)),
{
    let mut k: usize = 0;
    proof {
        assert(joined(parts_view(parts@).subrange(0, 0)) =~= Seq::<char>::empty());
        assert(out@ =~= old(out)@ + joined(parts_view(parts@).subrange(0, 0)));
    }
    while k < parts.len()
        invariant
            k <= parts@.len(),
            out@ == old(out)@ + joined(parts_view(parts@).subrange(0, k as int)),
        decreases parts@.len() - k,
    {
        let ghost before = out@;
        let ghost pre = parts_view(parts@).subrange(0, k as int);
        let ghost next = parts_view(parts@).subrange(0, k + 1);
        assert(next.drop_last() =~= pre);
        assert(next.last() == parts@[k as int]@);
        if k > 0 {
            push_char(out, '\\');
        }
        push_chars(out, &parts[k]);
        proof {
            if k == 0 {
                assert(pre =~= Seq::<Seq<char>>::empty());
                assert(joined(pre) =~= Seq::<char>::empty());
                assert(next.len() == 1);
                assert(out@ =~= old(out)@ + joined(next));
            } else {
                assert(out@ =~= old(out)@ + joined(next));
            }
        }
        k = k + 1;
    }
    assert(parts_view(parts@).subrange(0, k as int) =~= parts_view(parts@));
}

/// Joins a non-empty relative path to a verbatim path.
fn verbatim_join_exec(base: &Vec<char>, rel: &Vec<char>) -> (r: String)
    ensures
        r@ == verbatim_join(base@, rel@),
{
    let (blen, _, broot, bbody) = layout_of(base);
    let (_, _, rroot, rbody) = layout_of(rel);
    let root = broot || rroot;
    let start = if rroot {
        Vec::new()
    } else {
        parts_at(base, bbody, true)
    };
    proof {
        if rroot {
            assert(parts_view(start@) =~= Seq::<Seq<char>>::empty());
        }
    }
    let rel_parts = parts_at(rel, rbody, false);
    let stack = apply_parts_exec(start, &rel_parts);
    let mut out = string_from_range(base.as_slice(), 0, blen);
    if root || stack.len() > 0 {
        push_char(&mut out, '\\');
        push_joined(&mut out, &stack);
        assert(out@ =~= base@.subrange(0, blen as int) + (seq!['\\'] + joined(parts_view(stack@))));
    } else {
        assert(out@ =~= base@.subrange(0, blen as int) + Seq::<char>::empty());
    }
    out
}

/// `PathBuf::join`.
pub fn join_path(base: &str, rel: &str) -> (r: String)
    ensures
        r@ == path_join(base@, rel@),
{
    let bc = chars_of(base);
    let rc = chars_of(rel);
    let rel_prefix = prefix_at(&rc);
    if is_absolute_path(rel) || rel_prefix.is_some() {
        return String::from_str(rel);
    }
    let (blen, bverbatim, _, _) = layout_of(&bc);
    let (_, _, rroot, _) = layout_of(&rc);
    if bverbatim && rc.len() > 0 {
        return verbatim_join_exec(&bc, &rc);
    }
    if rroot {
        let mut out = string_from_range(bc.as_slice(), 0, blen);
        push_str(&mut out, rel);
        return out;
    }
    let bare_drive = match prefix_at(&bc) {
        Some((k, n)) => k == PrefixKind::Disk && n == 2 && bc.len() == 2,
        None => false,
    };
    let needs_sep = bc.len() > 0 && !is_sep_exec(bc[bc.len() - 1], false) && !bare_drive;
    let mut out = String::from_str(base);
    if needs_sep {
        push_char(&mut out, '\\');
    }
    push_str(&mut out, rel);
    proof {
        if needs_sep {
            assert(out@ =~= base@ + seq!['\\'] + rel@);
        } else {
            assert(out@ =~= base@ + rel@);
        }
    }
    out
}

} // verus!

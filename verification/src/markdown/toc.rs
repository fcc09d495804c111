//! Heading anchors and the table of contents.
use vstd::prelude::*;
use vstd::string::*;
use crate::markdown::events::{MdEvent, MdEventView, events_view, markdown_events, parse_events};
use crate::text::{
    ascii_lower, char_to_lowercase, chars_of, is_ascii_alnum, is_ascii_char, is_whitespace,
    push_char, push_str, string_from_chars, trim, trim_seq, unicode_lowercase,
    unicode_white_space,
};

verus! {

/// One entry of the table of contents.
pub struct TocItem {
    pub level: u8,
    pub id: String,
    pub text: String,
}

impl View for TocItem {
    type V = (u8, Seq<char>, Seq<char>);

    open spec fn view(&self) -> (u8, Seq<char>, Seq<char>) {
        (self.level, self.id@, self.text@)
    }
}

/// The values of a list of table-of-contents entries.
pub open spec fn toc_views(items: Seq<TocItem>) -> Seq<(u8, Seq<char>, Seq<char>)> {
    items.map_values(|t: TocItem| t@)
}

/// A heading level, `H1` (the largest) to `H6`.
#[derive(Clone, Copy, Debug, PartialEq, Eq, Structural)]
pub enum Level {
    H1,
    H2,
    H3,
    H4,
    H5,
    H6,
}

/// The number of a heading level: 1 for `H1` up to 6 for `H6`.
pub open spec fn rank_of(level: Level) -> u8 {
    match level {
        Level::H1 => 1,
        Level::H2 => 2,
        Level::H3 => 3,
        Level::H4 => 4,
        Level::H5 => 5,
        Level::H6 => 6,
    }
}

/// The number of a heading level.
pub fn heading_rank(level: Level) -> (r: u8)
    ensures
        r == rank_of(level),
        1 <= r <= 6,
{
    match level {
        Level::H1 => 1,
        Level::H2 => 2,
        Level::H3 => 3,
        Level::H4 => 4,
        Level::H5 => 5,
        Level::H6 => 6,
    }
}

/// The lowercase of one character: its ASCII lowercase for an ASCII
/// character, else the Unicode lowercase mapping.
pub open spec fn char_lower(c: char) -> Seq<char> {
    if is_ascii_char(c) {
        seq![ascii_lower(c)]
    } else {
        unicode_lowercase(c)
    }
}

/// The text lowercased character by character.
pub open spec fn lower_all(s: Seq<char>) -> Seq<char>
    decreases s.len(),
{
    if s.len() == 0 {
        Seq::empty()
    } else {
        lower_all(s.drop_last()) + char_lower(s.last())
    }
}

/// Characters that separate words in a slug.
pub open spec fn is_separator(c: char) -> bool {
    unicode_white_space(c) || c == '-' || c == '_' || c == '.' || c == '/'
}

/// One step of building a slug from lowercased text: ASCII letters and
/// digits and all non-ASCII characters are kept, a run of separators
/// becomes one dash (never at the start), other ASCII characters are dropped.
/// The flag says whether the slug ends in a dash that was just added.
pub open spec fn slug_step(state: (Seq<char>, bool), c: char) -> (Seq<char>, bool) {
    let (base, last_dash) = state;
    if is_ascii_alnum(c) {
        (base.push(c), false)
    } else if is_separator(c) {
        if !last_dash && base.len() > 0 {
            (base.push('-'), true)
        } else {
            (base, last_dash)
        }
    } else if !is_ascii_char(c) {
        (base.push(c), false)
    } else {
        (base, last_dash)
    }
}

/// The slug steps over a whole lowercased text.
pub open spec fn slug_fold(s: Seq<char>) -> (Seq<char>, bool)
    decreases s.len(),
{
    if s.len() == 0 {
        (Seq::empty(), false)
    } else {
        slug_step(slug_fold(s.drop_last()), s.last())
    }
}

/// The text without its trailing dashes.
pub open spec fn strip_trailing_dashes(s: Seq<char>) -> Seq<char>
    decreases s.len(),
{
    if s.len() > 0 && s.last() == '-' {
        strip_trailing_dashes(s.drop_last())
    } else {
        s
    }
}

/// The anchor base for a heading text: its lowercased slug, or `heading`
/// when nothing of the text is left.
pub open spec fn slug_base(text: Seq<char>) -> Seq<char> {
    let b = strip_trailing_dashes(slug_fold(lower_all(text)).0);
    if b.len() == 0 {
        "heading"@
    } else {
        b
    }
}

/// The character for a decimal digit.
pub open spec fn digit_char(d: nat) -> char {
    ((d + 48) as u32) as char
}

/// The decimal numeral of `n`, without leading zeros.
pub open spec fn decimal(n: nat) -> Seq<char>
    decreases n,
{
    if n < 10 {
        seq![digit_char(n)]
    } else {
        decimal(n / 10).push(digit_char(n % 10))
    }
}

/// How many times `key` occurs in `s`.
pub open spec fn count_occurrences(s: Seq<Seq<char>>, key: Seq<char>) -> nat
    decreases s.len(),
{
    if s.len() == 0 {
        0
    } else {
        count_occurrences(s.drop_last(), key) + if s.last() == key {
            1nat
        } else {
            0nat
        }
    }
}

/// The anchor for the `n`-th heading (counting from 1) whose slug base is
/// `base`: the base itself the first time, then the base with `-n`.
pub open spec fn numbered_anchor(base: Seq<char>, n: nat) -> Seq<char> {
    if n == 1 {
        base
    } else {
        base + seq!['-'] + decimal(n)
    }
}

/// Issues unique-looking anchors for headings: it remembers each slug base
/// it has handed out.
pub struct Slugger {
    seen: Vec<String>,
}

impl View for Slugger {
    type V = Seq<Seq<char>>;

    /// The slug bases handed out so far, in order.
    closed spec fn view(&self) -> Seq<Seq<char>> {
        self.seen@.map_values(|s: String| s@)
    }
}

impl Slugger {
    /// How many anchors with this base were handed out so far.
    pub open spec fn count(&self, base: Seq<char>) -> nat {
        count_occurrences(self@, base)
    }

    /// A slugger that has handed out nothing.
    pub fn new() -> (s: Slugger)
        ensures
            s@ == Seq::<Seq<char>>::empty(),
    {
        let s = Slugger { seen: Vec::new() };
        assert(s@ =~= Seq::<Seq<char>>::empty());
        s
    }

    /// How often `base` was handed out.
    fn count_of(&self, base: &String) -> (r: usize)
        ensures
            r == self.count(base@),
    {
        let mut n: usize = 0;
        let mut i: usize = 0;
        while i < self.seen.len()
            invariant
                i <= self.seen@.len(),
                n <= i,
                n == count_occurrences(self@.subrange(0, i as int), base@),
            decreases self.seen@.len() - i,
        {
            proof {
                assert(self@.subrange(0, i + 1).drop_last() =~= self@.subrange(0, i as int));
            }
            if self.seen[i] == *base {
                n = n + 1;
            }
            i = i + 1;
        }
        assert(self@.subrange(0, i as int) =~= self@);
        n
    }

    /// The anchor for a heading with the given text: its slug base the first
    /// time that base occurs, and the base with `-2`, `-3`, ... after that.
    pub fn slug(&mut self, text: &str) -> (r: String)
        requires
            old(self)@.len() < usize::MAX,
        ensures
            final(self)@ == old(self)@.push(slug_base(text@)),
            r@ == numbered_anchor(slug_base(text@), old(self).count(slug_base(text@)) + 1),
    {
        let base = slug_base_of(text);
        let seen_before = self.count_of(&base);
        proof {
            assert(seen_before <= old(self)@.len()) by {
                lemma_count_le(old(self)@, base@);
            }
        }
        let count = seen_before + 1;
        let ghost old_view = self@;
        let result = if count == 1 {
            base.clone()
        } else {
            let mut r = base.clone();
            push_char(&mut r, '-');
            push_decimal(&mut r, count);
            r
        };
        self.seen.push(base);
        assert(self@ =~= old_view.push(slug_base(text@)));
        result
    }
}

impl Default for Slugger {
    fn default() -> (s: Slugger)
        ensures
            s@ == Seq::<Seq<char>>::empty(),
    {
        Slugger::new()
    }
}

pub proof fn lemma_count_le(s: Seq<Seq<char>>, key: Seq<char>)
    ensures
        count_occurrences(s, key) <= s.len(),
    decreases s.len(),
{
    if s.len() > 0 {
        lemma_count_le(s.drop_last(), key);
    }
}

/// Appends the decimal numeral of `n`.
pub fn push_decimal(out: &mut String, n: usize)
    ensures
        final(out)@ == old(out)@ + decimal(n as nat),
    decreases n,
{
    if n >= 10 {
        push_decimal(out, n / 10);
    }
    let d = (n % 10) as u8;
    let c = (48u8 + d) as char;
    assert(c == digit_char((n % 10) as nat));
    push_char(out, c);
    proof {
        if n < 10 {
            assert(old(out)@ + decimal(n as nat) =~= old(out)@.push(c));
        } else {
            assert(old(out)@ + decimal(n as nat) =~= (old(out)@ + decimal((n / 10) as nat)).push(c));
        }
    }
}

/// The slug base of a heading text.
pub fn slug_base_of(text: &str) -> (r: String)
    ensures
        r@ == slug_base(text@),
{
    let chars = chars_of(text);
    let mut base: Vec<char> = Vec::new();
    let mut last_dash = false;
    let mut i: usize = 0;
    while i < chars.len()
        invariant
            chars@ == text@,
            i <= chars@.len(),
            (base@, last_dash) == slug_fold(lower_all(text@.subrange(0, i as int))),
        decreases chars@.len() - i,
    {
        let lower = char_to_lowercase(chars[i]);
        let ghost done = lower_all(text@.subrange(0, i as int));
        proof {
            assert(text@.subrange(0, i + 1).drop_last() =~= text@.subrange(0, i as int));
            assert(text@.subrange(0, i + 1).last() == chars@[i as int]);
            assert(done + lower@.subrange(0, 0) =~= done);
        }
        let mut j: usize = 0;
        while j < lower.len()
            invariant
                j <= lower@.len(),
                (base@, last_dash) == slug_fold(done + lower@.subrange(0, j as int)),
            decreases lower@.len() - j,
        {
            let ch = lower[j];
            proof {
                assert((done + lower@.subrange(0, j + 1)).drop_last() =~= done + lower@.subrange(
                    0,
                    j as int,
                ));
                assert((done + lower@.subrange(0, j + 1)).last() == ch);
            }
            if ('a' <= ch && ch <= 'z') || ('A' <= ch && ch <= 'Z') || ('0' <= ch && ch <= '9') {
                base.push(ch);
                last_dash = false;
            } else if is_whitespace(ch) || ch == '-' || ch == '_' || ch == '.' || ch == '/' {
                if !last_dash && base.len() > 0 {
                    base.push('-');
                    last_dash = true;
                }
            } else if (ch as u32) >= 0x80 {
                base.push(ch);
                last_dash = false;
            }
            j = j + 1;
        }
        assert(done + lower@.subrange(0, j as int) =~= lower_all(text@.subrange(0, i + 1)));
        i = i + 1;
    }
    assert(text@.subrange(0, i as int) =~= text@);
    let ghost folded = base@;
    while base.len() > 0 && base[base.len() - 1] == '-'
        invariant
            strip_trailing_dashes(folded) == strip_trailing_dashes(base@),
        decreases base@.len(),
    {
        base.pop();
    }
    if base.len() == 0 {
        String::from_str("heading")
    } else {
        string_from_chars(base.as_slice())
    }
}

pub proof fn lemma_decimal_len(n: nat)
    ensures
        decimal(n).len() >= 1,
        n >= 10 ==> decimal(n).len() >= 2,
    decreases n,
{
    if n >= 10 {
        lemma_decimal_len(n / 10);
    }
}

/// Different numbers have different numerals.
pub proof fn lemma_decimal_injective(n: nat, m: nat)
    requires
        decimal(n) == decimal(m),
    ensures
        n == m,
    decreases n,
{
    lemma_decimal_len(n);
    lemma_decimal_len(m);
    if n < 10 && m < 10 {
        assert(decimal(n)[0] == digit_char(n));
        assert(decimal(m)[0] == digit_char(m));
    } else if n >= 10 && m >= 10 {
        let dn = decimal(n / 10);
        let dm = decimal(m / 10);
        assert(decimal(n).last() == digit_char(n % 10));
        assert(decimal(m).last() == digit_char(m % 10));
        assert(dn =~= decimal(n).drop_last());
        assert(dm =~= decimal(m).drop_last());
        lemma_decimal_injective(n / 10, m / 10);
    } else if n < 10 {
        lemma_decimal_len(m / 10);
        assert(decimal(m).len() == decimal(m / 10).len() + 1);
    } else {
        lemma_decimal_len(n / 10);
        assert(decimal(n).len() == decimal(n / 10).len() + 1);
    }
}

/// The anchors for different occurrences of one slug base differ: the
/// `n`-th and `m`-th headings with the same base never share an anchor.
pub proof fn lemma_numbered_anchors_distinct(base: Seq<char>, n: nat, m: nat)
    requires
        1 <= n,
        1 <= m,
        n != m,
    ensures
        numbered_anchor(base, n) != numbered_anchor(base, m),
{
    lemma_decimal_len(n);
    lemma_decimal_len(m);
    if n != 1 && m != 1 {
        if numbered_anchor(base, n) == numbered_anchor(base, m) {
            let an = base + seq!['-'] + decimal(n);
            let am = base + seq!['-'] + decimal(m);
            assert(decimal(n) =~= an.subrange(base.len() as int + 1, an.len() as int));
            assert(decimal(m) =~= am.subrange(base.len() as int + 1, am.len() as int));
            lemma_decimal_injective(n, m);
        }
    }
}

/// The anchor a slugger hands out at step `k` of its history `h`: the
/// numbered anchor of the base given then, counted among the bases before.
pub open spec fn anchor_at(h: Seq<Seq<char>>, k: int) -> Seq<char> {
    numbered_anchor(h[k], count_occurrences(h.subrange(0, k), h[k]) + 1)
}

pub proof fn lemma_count_prefix_grows(h: Seq<Seq<char>>, a: int, b: int)
    requires
        0 <= a < b <= h.len(),
    ensures
        count_occurrences(h.subrange(0, b), h[a]) >= count_occurrences(h.subrange(0, a), h[a]) + 1,
    decreases b - a,
{
    let key = h[a];
    if b == a + 1 {
        assert(h.subrange(0, b).drop_last() =~= h.subrange(0, a));
        assert(h.subrange(0, b).last() == key);
    } else {
        lemma_count_prefix_grows(h, a, b - 1);
        assert(h.subrange(0, b).drop_last() =~= h.subrange(0, b - 1));
    }
}

/// A slugger never hands out one anchor twice for the same slug base: the
/// anchors given at two different steps with equal bases differ.
pub proof fn lemma_slugger_anchors_distinct(h: Seq<Seq<char>>, a: int, b: int)
    requires
        0 <= a < b < h.len(),
        h[a] == h[b],
    ensures
        anchor_at(h, a) != anchor_at(h, b),
{
    lemma_count_prefix_grows(h, a, b);
    lemma_numbered_anchors_distinct(
        h[a],
        count_occurrences(h.subrange(0, a), h[a]) + 1,
        count_occurrences(h.subrange(0, b), h[b]) + 1,
    );
}

/// The slug of a heading is the anchor of its step in the slugger's history.
pub proof fn lemma_slug_is_anchor_at(old_h: Seq<Seq<char>>, base: Seq<char>)
    ensures
        anchor_at(old_h.push(base), old_h.len() as int) == numbered_anchor(
            base,
            count_occurrences(old_h, base) + 1,
        ),
{
    assert(old_h.push(base).subrange(0, old_h.len() as int) =~= old_h);
}

pub proof fn lemma_slug_fold_shape(s: Seq<char>)
    ensures
        slug_fold(s).0.len() > 0 ==> slug_fold(s).0[0] != '-',
        slug_fold(s).1 ==> slug_fold(s).0.len() > 0 && slug_fold(s).0.last() == '-',
    decreases s.len(),
{
    if s.len() > 0 {
        lemma_slug_fold_shape(s.drop_last());
        let prev = slug_fold(s.drop_last());
        let next = slug_step(prev, s.last());
        if next.0.len() > 0 && prev.0.len() > 0 {
            assert(next.0[0] == prev.0[0]);
        }
    }
}

pub proof fn lemma_strip_trailing_dashes(s: Seq<char>)
    ensures
        strip_trailing_dashes(s).len() <= s.len(),
        strip_trailing_dashes(s) == s.subrange(0, strip_trailing_dashes(s).len() as int),
        strip_trailing_dashes(s).len() > 0 ==> strip_trailing_dashes(s).last() != '-',
    decreases s.len(),
{
    if s.len() > 0 && s.last() == '-' {
        lemma_strip_trailing_dashes(s.drop_last());
        let r = strip_trailing_dashes(s.drop_last());
        assert(s.drop_last().subrange(0, r.len() as int) =~= s.subrange(0, r.len() as int));
    } else {
        assert(s.subrange(0, s.len() as int) =~= s);
    }
}

/// An anchor base neither starts nor ends with a dash.
pub proof fn lemma_slug_base_no_edge_dash(text: Seq<char>)
    ensures
        slug_base(text)[0] != '-',
        slug_base(text).last() != '-',
{
    reveal_strlit("heading");
    let folded = slug_fold(lower_all(text)).0;
    lemma_slug_fold_shape(lower_all(text));
    lemma_strip_trailing_dashes(folded);
    let b = strip_trailing_dashes(folded);
    if b.len() > 0 {
        assert(b[0] == folded[0]);
    }
}

/// A slug base is never empty.
pub proof fn lemma_slug_base_nonempty(text: Seq<char>)
    ensures
        slug_base(text).len() > 0,
{
    reveal_strlit("heading");
}

/// The table of contents that `collect` reads from the events from index
/// `i` on, with `current` the level and text of an open heading of rank at
/// most 4, and `seen` the slug bases handed out before: a heading of rank 5
/// or 6 is passed over, and a closed heading with non-empty trimmed text
/// becomes an entry with the next anchor for its text.
pub open spec fn collect_from(
    ev: Seq<MdEventView>,
    i: int,
    current: Option<(u8, Seq<char>)>,
    seen: Seq<Seq<char>>,
) -> Seq<(u8, Seq<char>, Seq<char>)>
    decreases ev.len() - i,
{
    if i < 0 || i >= ev.len() {
        Seq::empty()
    } else {
        match ev[i] {
            MdEventView::HeadingStart { level, .. } => {
                if rank_of(level) <= 4 {
                    collect_from(ev, i + 1, Some((rank_of(level), Seq::empty())), seen)
                } else {
                    collect_from(ev, i + 1, current, seen)
                }
            },
            MdEventView::HeadingEnd { .. } => match current {
                Some((level, t)) => {
                    let text = trim_seq(t);
                    if text.len() > 0 {
                        let base = slug_base(text);
                        seq![(level, numbered_anchor(base, count_occurrences(seen, base) + 1), text)]
                            + collect_from(ev, i + 1, None, seen.push(base))
                    } else {
                        collect_from(ev, i + 1, None, seen)
                    }
                },
                None => collect_from(ev, i + 1, None, seen),
            },
            MdEventView::Text(v) => collect_from(ev, i + 1, append_open(current, v), seen),
            MdEventView::Code(v) => collect_from(ev, i + 1, append_open(current, v), seen),
            MdEventView::InlineMath(v) => collect_from(ev, i + 1, append_open(current, v), seen),
            _ => collect_from(ev, i + 1, current, seen),
        }
    }
}

/// Adds text to the open heading, if there is one.
pub open spec fn append_open(current: Option<(u8, Seq<char>)>, v: Seq<char>) -> Option<(u8, Seq<char>)> {
    match current {
        Some((level, t)) => Some((level, t + v)),
        None => None,
    }
}

/// The table of contents of a Markdown text, headings `H1` to `H4` only,
/// read straight from the parsed events.
pub fn collect(markdown: &str, options: u32) -> (r: Vec<TocItem>)
    ensures
        toc_views(r@) == collect_from(markdown_events(markdown@, options), 0, None, Seq::empty()),
{
    let events = parse_events(markdown, options);
    let ghost ev = events_view(events@);
    let ghost total = collect_from(ev, 0, None, Seq::empty());
    let mut items: Vec<TocItem> = Vec::new();
    let mut slugger = Slugger::new();
    let mut open: Option<u8> = None;
    let mut text = String::new();
    let mut i: usize = 0;
    proof {
        assert(toc_views(items@) + total =~= total);
    }
    while i < events.len()
        invariant
            i <= events@.len(),
            ev == events_view(events@),
            total == collect_from(ev, 0, None, Seq::empty()),
            slugger@.len() <= i,
            toc_views(items@) + collect_from(ev, i as int, current_of(open, text@), slugger@) == total,
        decreases events@.len() - i,
    {
        let ghost before = toc_views(items@);
        let ghost old_i = i as int;
        let ghost step = collect_from(ev, i as int, current_of(open, text@), slugger@);
        proof {
            assert(ev[i as int] == events@[i as int]@);
        }
        match &events[i] {
            MdEvent::HeadingStart { level, .. } => {
                let rank = heading_rank(*level);
                if rank <= 4 {
                    open = Some(rank);
                    text = String::new();
                }
            },
            MdEvent::HeadingEnd { .. } => {
                match open {
                    Some(level) => {
                        let trimmed = trim(text.as_str());
                        if !trimmed.as_str().is_empty() {
                            let id = slugger.slug(trimmed.as_str());
                            items.push(TocItem { level, id, text: trimmed });
                            assert(toc_views(items@) =~= before.push(items@.last()@));
                        }
                    },
                    None => {},
                }
                open = None;
                text = String::new();
            },
            MdEvent::Text(v) => {
                if open.is_some() {
                    push_str(&mut text, v.as_str());
                }
            },
            MdEvent::Code(v) => {
                if open.is_some() {
                    push_str(&mut text, v.as_str());
                }
            },
            MdEvent::InlineMath(v) => {
                if open.is_some() {
                    push_str(&mut text, v.as_str());
                }
            },
            _ => {},
        }
        i = i + 1;
        proof {
            assert(toc_views(items@) + collect_from(ev, i as int, current_of(open, text@), slugger@)
                =~= before + step);
        }
    }
    proof {
        assert(toc_views(items@) =~= total);
    }
    items
}

/// A table-of-contents entry has a level from 1 to 4 and non-empty text.
pub open spec fn entry_ok(e: (u8, Seq<char>, Seq<char>)) -> bool {
    1 <= e.0 <= 4 && e.2.len() > 0
}

/// `collect` lists only headings `H1` to `H4`, each with non-empty text.
pub proof fn lemma_collect_entries_shape(
    ev: Seq<MdEventView>,
    i: int,
    current: Option<(u8, Seq<char>)>,
    seen: Seq<Seq<char>>,
)
    requires
        current matches Some((level, _)) ==> 1 <= level <= 4,
    ensures
        forall|k: int|
            0 <= k < collect_from(ev, i, current, seen).len() ==> entry_ok(
                #[trigger] collect_from(ev, i, current, seen)[k],
            ),
    decreases ev.len() - i,
{
    let r = collect_from(ev, i, current, seen);
    if 0 <= i < ev.len() {
        match ev[i] {
            MdEventView::HeadingStart { level, .. } => {
                if rank_of(level) <= 4 {
                    lemma_collect_entries_shape(ev, i + 1, Some((rank_of(level), Seq::empty())), seen);
                    assert(r == collect_from(ev, i + 1, Some((rank_of(level), Seq::empty())), seen));
                } else {
                    lemma_collect_entries_shape(ev, i + 1, current, seen);
                    assert(r == collect_from(ev, i + 1, current, seen));
                }
            },
            MdEventView::HeadingEnd { .. } => match current {
                Some((level, t)) => {
                    let text = trim_seq(t);
                    if text.len() > 0 {
                        let base = slug_base(text);
                        let rest = collect_from(ev, i + 1, None, seen.push(base));
                        lemma_collect_entries_shape(ev, i + 1, None, seen.push(base));
                        let head = seq![(level, numbered_anchor(base, count_occurrences(seen, base) + 1), text)];
                        assert(r == head + rest);
                        assert forall|k: int| 0 <= k < r.len() implies entry_ok(#[trigger] r[k]) by {
                            if k == 0 {
                                assert(r[k] == head[0]);
                            } else {
                                assert(r[k] == rest[k - 1]);
                            }
                        }
                    } else {
                        lemma_collect_entries_shape(ev, i + 1, None, seen);
                        assert(r == collect_from(ev, i + 1, None, seen));
                    }
                },
                None => {
                    lemma_collect_entries_shape(ev, i + 1, None, seen);
                    assert(r == collect_from(ev, i + 1, None, seen));
                },
            },
            MdEventView::Text(v) => {
                lemma_collect_entries_shape(ev, i + 1, append_open(current, v), seen);
                assert(r == collect_from(ev, i + 1, append_open(current, v), seen));
            },
            MdEventView::Code(v) => {
                lemma_collect_entries_shape(ev, i + 1, append_open(current, v), seen);
                assert(r == collect_from(ev, i + 1, append_open(current, v), seen));
            },
            MdEventView::InlineMath(v) => {
                lemma_collect_entries_shape(ev, i + 1, append_open(current, v), seen);
                assert(r == collect_from(ev, i + 1, append_open(current, v), seen));
            },
            _ => {
                lemma_collect_entries_shape(ev, i + 1, current, seen);
                assert(r == collect_from(ev, i + 1, current, seen));
            },
        }
    } else {
        assert(r.len() == 0);
    }
}

/// The open heading: its level and the text gathered so far.
pub open spec fn current_of(open: Option<u8>, text: Seq<char>) -> Option<(u8, Seq<char>)> {
    match open {
        Some(level) => Some((level, text)),
        None => None,
    }
}

/// Whether every character of a text is ASCII.
pub open spec fn all_ascii(s: Seq<char>) -> bool {
    forall|k: int| 0 <= k < s.len() ==> is_ascii_char(#[trigger] s[k])
}

/// Whether every character of a text is ASCII and already lowercase.
pub open spec fn lowercase_ascii(s: Seq<char>) -> bool {
    forall|k: int| 0 <= k < s.len() ==> is_ascii_char(#[trigger] s[k]) && ascii_lower(s[k]) == s[k]
}

/// Whether a text has the shape of a slug: lowercase ASCII letters and
/// digits with single dashes between them, never starting with a dash.
pub open spec fn slug_shaped(b: Seq<char>) -> bool {
    &&& forall|k: int|
        0 <= k < b.len() ==> (#[trigger] b[k] == '-' || (is_ascii_alnum(b[k]) && ascii_lower(b[k]) == b[k]))
    &&& forall|j: int, k: int|
        #![trigger b[j], b[k]]
        0 <= j && k == j + 1 && k < b.len() ==> !(b[j] == '-' && b[k] == '-')
    &&& b.len() > 0 ==> b[0] != '-'
}

proof fn lemma_ascii_lower_idempotent(c: char)
    requires
        is_ascii_char(c),
    ensures
        is_ascii_char(ascii_lower(c)),
        ascii_lower(ascii_lower(c)) == ascii_lower(c),
{
    if 'A' <= c && c <= 'Z' {
        let l = ((c as u32) + 32) as char;
        assert(l as u32 == (c as u32) + 32);
        assert('a' <= l && l <= 'z');
    }
}

/// Lowercasing ASCII text gives lowercase ASCII text of the same length.
proof fn lemma_lower_all_ascii(t: Seq<char>)
    requires
        all_ascii(t),
    ensures
        lower_all(t).len() == t.len(),
        lowercase_ascii(lower_all(t)),
    decreases t.len(),
{
    if t.len() > 0 {
        let p = t.drop_last();
        assert(all_ascii(p)) by {
            assert forall|k: int| 0 <= k < p.len() implies is_ascii_char(#[trigger] p[k]) by {
                assert(p[k] == t[k]);
            }
        }
        lemma_lower_all_ascii(p);
        assert(is_ascii_char(t[t.len() - 1]));
        lemma_ascii_lower_idempotent(t.last());
        let l = lower_all(t);
        assert(l =~= lower_all(p).push(ascii_lower(t.last())));
        assert forall|k: int| 0 <= k < l.len() implies is_ascii_char(#[trigger] l[k]) && ascii_lower(l[k]) == l[k] by {
            if k < p.len() {
                assert(l[k] == lower_all(p)[k]);
            }
        }
    }
}

/// Lowercasing lowercase ASCII text changes nothing.
proof fn lemma_lower_all_lowercase(s: Seq<char>)
    requires
        lowercase_ascii(s),
    ensures
        lower_all(s) == s,
    decreases s.len(),
{
    if s.len() > 0 {
        let p = s.drop_last();
        assert(lowercase_ascii(p)) by {
            assert forall|k: int| 0 <= k < p.len() implies is_ascii_char(#[trigger] p[k]) && ascii_lower(p[k]) == p[k] by {
                assert(p[k] == s[k]);
            }
        }
        lemma_lower_all_lowercase(p);
        assert(is_ascii_char(s[s.len() - 1]));
        assert(lower_all(s) =~= s);
    }
}

/// Folding lowercase ASCII text gives a slug-shaped text, and the flag says
/// exactly whether it ends in a dash.
proof fn lemma_fold_shaped(s: Seq<char>)
    requires
        lowercase_ascii(s),
    ensures
        slug_shaped(slug_fold(s).0),
        slug_fold(s).1 <==> (slug_fold(s).0.len() > 0 && slug_fold(s).0.last() == '-'),
    decreases s.len(),
{
    if s.len() > 0 {
        let p = s.drop_last();
        assert(lowercase_ascii(p)) by {
            assert forall|k: int| 0 <= k < p.len() implies is_ascii_char(#[trigger] p[k]) && ascii_lower(p[k]) == p[k] by {
                assert(p[k] == s[k]);
            }
        }
        lemma_fold_shaped(p);
        let (b, f) = slug_fold(p);
        let c = s.last();
        assert(is_ascii_char(s[s.len() - 1]) && ascii_lower(s[s.len() - 1]) == s[s.len() - 1]);
        let n = slug_fold(s).0;
        if n.len() > b.len() {
            assert(n =~= b.push(n.last()));
            assert forall|k: int| 0 <= k < n.len() implies (#[trigger] n[k] == '-' || (is_ascii_alnum(n[k]) && ascii_lower(n[k]) == n[k])) by {
                if k < b.len() {
                    assert(n[k] == b[k]);
                }
            }
            assert forall|j: int, k: int|
                #![trigger n[j], n[k]]
                0 <= j && k == j + 1 && k < n.len() implies !(n[j] == '-' && n[k] == '-') by {
                if k < b.len() {
                    assert(n[j] == b[j] && n[k] == b[k]);
                }
            }
            if b.len() > 0 {
                assert(n[0] == b[0]);
            }
        } else {
            assert(n =~= b);
        }
    }
}

/// A slug-shaped text folds to itself.
proof fn lemma_refold(b: Seq<char>)
    requires
        slug_shaped(b),
    ensures
        slug_fold(b) == (b, b.len() > 0 && b.last() == '-'),
    decreases b.len(),
{
    if b.len() > 0 {
        let p = b.drop_last();
        assert(slug_shaped(p)) by {
            assert forall|k: int| 0 <= k < p.len() implies (#[trigger] p[k] == '-' || (is_ascii_alnum(p[k]) && ascii_lower(p[k]) == p[k])) by {
                assert(p[k] == b[k]);
            }
            assert forall|j: int, k: int|
                #![trigger p[j], p[k]]
                0 <= j && k == j + 1 && k < p.len() implies !(p[j] == '-' && p[k] == '-') by {
                assert(p[j] == b[j] && p[k] == b[k]);
            }
            if p.len() > 0 {
                assert(p[0] == b[0]);
            }
        }
        lemma_refold(p);
        let c = b.last();
        assert(c == b[b.len() - 1]);
        if c == '-' {
            assert(b.len() >= 2);
            assert(p.last() == b[b.len() - 2]);
            assert(!(b[b.len() - 2] == '-' && b[b.len() - 1] == '-'));
        }
        assert(b =~= p.push(c));
    }
}

/// A prefix of a slug-shaped text is slug-shaped.
proof fn lemma_shaped_prefix(b: Seq<char>, n: int)
    requires
        slug_shaped(b),
        0 <= n <= b.len(),
    ensures
        slug_shaped(b.subrange(0, n)),
{
    let p = b.subrange(0, n);
    assert forall|k: int| 0 <= k < p.len() implies (#[trigger] p[k] == '-' || (is_ascii_alnum(p[k]) && ascii_lower(p[k]) == p[k])) by {
        assert(p[k] == b[k]);
    }
    assert forall|j: int, k: int|
        #![trigger p[j], p[k]]
        0 <= j && k == j + 1 && k < p.len() implies !(p[j] == '-' && p[k] == '-') by {
        assert(p[j] == b[j] && p[k] == b[k]);
    }
    if p.len() > 0 {
        assert(p[0] == b[0]);
    }
}

/// A nonempty slug-shaped text without a trailing dash is its own slug base.
proof fn lemma_shaped_is_own_base(b: Seq<char>)
    requires
        slug_shaped(b),
        b.len() > 0,
        b.last() != '-',
    ensures
        slug_base(b) == b,
{
    assert(lowercase_ascii(b)) by {
        assert forall|k: int| 0 <= k < b.len() implies is_ascii_char(#[trigger] b[k]) && ascii_lower(b[k]) == b[k] by {
            if b[k] != '-' {
                assert(is_ascii_alnum(b[k]));
            }
        }
    }
    lemma_lower_all_lowercase(b);
    lemma_refold(b);
}

/// The slug base of ASCII text is its own slug base, so slugging an anchor
/// that a fresh slugger gave for ASCII text, with another fresh slugger,
/// gives the same anchor back.
pub proof fn lemma_slug_base_idempotent(text: Seq<char>)
    requires
        all_ascii(text),
    ensures
        slug_base(slug_base(text)) == slug_base(text),
        numbered_anchor(slug_base(numbered_anchor(slug_base(text), 1)), 1) == numbered_anchor(slug_base(text), 1),
{
    let l = lower_all(text);
    lemma_lower_all_ascii(text);
    lemma_fold_shaped(l);
    let folded = slug_fold(l).0;
    let b = strip_trailing_dashes(folded);
    lemma_strip_trailing_dashes(folded);
    lemma_shaped_prefix(folded, b.len() as int);
    if b.len() == 0 {
        let h = "heading"@;
        reveal_strlit("heading");
        assert(h.len() == 7);
        assert(slug_shaped(h)) by {
            assert forall|k: int| 0 <= k < h.len() implies (#[trigger] h[k] == '-' || (is_ascii_alnum(h[k]) && ascii_lower(h[k]) == h[k])) by {
                assert('a' <= h[k] && h[k] <= 'z');
            }
        }
        lemma_shaped_is_own_base(h);
    } else {
        lemma_shaped_is_own_base(b);
    }
}

/// The slug bases of a list of heading texts.
pub open spec fn slug_bases(texts: Seq<Seq<char>>) -> Seq<Seq<char>> {
    texts.map_values(|t: Seq<char>| slug_base(t))
}

/// What successive `slug` calls on a fresh slugger return for the texts, as
/// `slug` states each call: the base of the text, numbered after the
/// earlier calls with that base.
pub open spec fn slug_results(texts: Seq<Seq<char>>) -> Seq<Seq<char>>
    decreases texts.len(),
{
    if texts.len() == 0 {
        Seq::empty()
    } else {
        let b = slug_base(texts.last());
        slug_results(texts.drop_last()).push(
            numbered_anchor(b, count_occurrences(slug_bases(texts.drop_last()), b) + 1),
        )
    }
}

proof fn lemma_slug_results_len(texts: Seq<Seq<char>>)
    ensures
        slug_results(texts).len() == texts.len(),
    decreases texts.len(),
{
    if texts.len() > 0 {
        lemma_slug_results_len(texts.drop_last());
    }
}

/// Slugging texts `t_0, t_1, ...` in order with a fresh slugger gives, for
/// `t_i`, its slug base numbered by how many of `t_0 ..= t_i` share that
/// base: the base itself the first time, then with `-2`, `-3`, ...; calls
/// with other bases do not change the number.
pub proof fn lemma_slug_results(texts: Seq<Seq<char>>, i: int)
    requires
        0 <= i < texts.len(),
    ensures
        slug_results(texts).len() == texts.len(),
        slug_results(texts)[i] == numbered_anchor(
            slug_base(texts[i]),
            count_occurrences(slug_bases(texts).subrange(0, i + 1), slug_base(texts[i])),
        ),
    decreases texts.len(),
{
    lemma_slug_results_len(texts);
    let p = texts.drop_last();
    lemma_slug_results_len(p);
    assert(slug_bases(p) =~= slug_bases(texts).drop_last());
    if i < texts.len() - 1 {
        lemma_slug_results(p, i);
        assert(p[i] == texts[i]);
        assert(slug_bases(p).subrange(0, i + 1) =~= slug_bases(texts).subrange(0, i + 1));
    } else {
        let h = slug_bases(texts).subrange(0, i + 1);
        assert(h =~= slug_bases(p).push(slug_base(texts.last())));
        assert(h.drop_last() =~= slug_bases(p));
    }
}

/// What successive `slug` calls return for the texts, as `slug` states each
/// call, on a slugger that has already handed out the bases `seen`.
pub open spec fn slug_results_after(seen: Seq<Seq<char>>, texts: Seq<Seq<char>>) -> Seq<Seq<char>>
    decreases texts.len(),
{
    if texts.len() == 0 {
        Seq::empty()
    } else {
        let b = slug_base(texts[0]);
        seq![numbered_anchor(b, count_occurrences(seen, b) + 1)] + slug_results_after(
            seen.push(b),
            texts.drop_first(),
        )
    }
}

proof fn lemma_slug_results_split(p: Seq<Seq<char>>, q: Seq<Seq<char>>)
    ensures
        slug_results(p + q) == slug_results(p) + slug_results_after(slug_bases(p), q),
    decreases q.len(),
{
    if q.len() == 0 {
        assert(p + q =~= p);
        assert(slug_results(p) + slug_results_after(slug_bases(p), q) =~= slug_results(p));
    } else {
        let x = q[0];
        let p2 = p.push(x);
        let q2 = q.drop_first();
        assert(p + q =~= p2 + q2);
        lemma_slug_results_split(p2, q2);
        assert(p2.drop_last() =~= p);
        assert(slug_bases(p2) =~= slug_bases(p).push(slug_base(x)));
        assert(slug_results(p2) == slug_results(p).push(
            numbered_anchor(slug_base(x), count_occurrences(slug_bases(p), slug_base(x)) + 1),
        ));
        assert(slug_results(p) + slug_results_after(slug_bases(p), q) =~= slug_results(p2)
            + slug_results_after(slug_bases(p2), q2));
    }
}

/// Slugging texts in order from a fresh slugger, stated call by call from
/// the front, is `slug_results`.
pub proof fn lemma_slug_results_after_fresh(texts: Seq<Seq<char>>)
    ensures
        slug_results_after(Seq::empty(), texts) == slug_results(texts),
{
    lemma_slug_results_split(Seq::empty(), texts);
    assert(Seq::<Seq<char>>::empty() + texts =~= texts);
    assert(slug_bases(Seq::<Seq<char>>::empty()) =~= Seq::<Seq<char>>::empty());
    assert(slug_results(Seq::<Seq<char>>::empty()) + slug_results_after(Seq::empty(), texts)
        =~= slug_results_after(Seq::empty(), texts));
}

} // verus!

//! HTML escaping through the `html_escape` crate.
use vstd::prelude::*;

verus! {

/// The entity that `html_escape::encode_safe` writes for one character:
/// `&`, `<`, `>`, `"`, `'` and `/` become entities, all else stays.
pub open spec fn escape_safe_char(c: char) -> Seq<char> {
    if c == '&' {
        seq!['&', 'a', 'm', 'p', ';']
    } else if c == '<' {
        seq!['&', 'l', 't', ';']
    } else if c == '>' {
        seq!['&', 'g', 't', ';']
    } else if c == '"' {
        seq!['&', 'q', 'u', 'o', 't', ';']
    } else if c == '\'' {
        seq!['&', '#', 'x', '2', '7', ';']
    } else if c == '/' {
        seq!['&', '#', 'x', '2', 'F', ';']
    } else {
        seq![c]
    }
}

/// `encode_safe` of a whole string: each character escaped in turn.
pub open spec fn escape_safe(s: Seq<char>) -> Seq<char>
    decreases s.len(),
{
    if s.len() == 0 {
        Seq::empty()
    } else {
        escape_safe_char(s[0]) + escape_safe(s.drop_first())
    }
}

/// `html_escape::encode_safe`. Its documentation and source encode exactly
/// `&`, `<`, `>`, `"`, `'` and `/` as `&amp;`, `&lt;`, `&gt;`, `&quot;`,
/// `&#x27;` and `&#x2F;` and copy every other character.
#[verifier::external_body]
pub(crate) fn encode_safe(s: &str) -> (r: String)
    ensures
        r@ == escape_safe(s@),
{
    html_escape::encode_safe(s).into_owned()
}

/// Escaping one character is escaping the string that holds only it.
pub proof fn lemma_escape_safe_single(c: char)
    ensures
        escape_safe(seq![c]) == escape_safe_char(c),
{
    let e = Seq::<char>::empty();
    assert(escape_safe(e) == e);
    assert(seq![c].drop_first() =~= e);
    assert(seq![c][0] == c);
    assert(escape_safe_char(c) + e =~= escape_safe_char(c));
}

/// Escaping distributes over concatenation.
pub proof fn lemma_escape_safe_concat(a: Seq<char>, b: Seq<char>)
    ensures
        escape_safe(a + b) == escape_safe(a) + escape_safe(b),
    decreases a.len(),
{
    if a.len() == 0 {
        assert(a + b =~= b);
    } else {
        assert((a + b).drop_first() =~= a.drop_first() + b);
        lemma_escape_safe_concat(a.drop_first(), b);
        assert(escape_safe(a + b) =~= escape_safe(a) + escape_safe(b));
    }
}

/// The characters that HTML reads as markup inside text or attributes.
pub open spec fn is_markup_char(c: char) -> bool {
    c == '<' || c == '>' || c == '"' || c == '\''
}

/// Escaped text holds no markup characters: whatever the input, `<`, `>`,
/// `"` and `'` never appear in the output of `encode_safe`.
pub proof fn lemma_escape_safe_no_markup(s: Seq<char>)
    ensures
        forall|k: int| 0 <= k < escape_safe(s).len() ==> !is_markup_char(#[trigger] escape_safe(s)[k]),
    decreases s.len(),
{
    if s.len() > 0 {
        lemma_escape_safe_no_markup(s.drop_first());
        let head = escape_safe_char(s[0]);
        let tail = escape_safe(s.drop_first());
        assert forall|k: int| 0 <= k < head.len() implies !is_markup_char(#[trigger] head[k]) by {}
        assert(escape_safe(s) == head + tail);
        assert forall|k: int| 0 <= k < escape_safe(s).len() implies !is_markup_char(
            #[trigger] escape_safe(s)[k],
        ) by {
            if k < head.len() {
                assert(escape_safe(s)[k] == head[k]);
            } else {
                assert(escape_safe(s)[k] == tail[k - head.len()]);
            }
        }
    }
}

} // verus!

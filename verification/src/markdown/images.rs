//! Local images: which destinations name a local file, where that file is,
//! and the data URL that inlines it.
use vstd::prelude::*;
use vstd::string::*;
use vstd::utf8::{
    decode_utf8, encode_utf8, encode_utf8_decode_utf8, encode_utf8_valid_utf8, is_ascii_chars,
    is_ascii_chars_encode_utf8, is_continuation_byte, valid_utf8,
};
use crate::path::{is_absolute_path, join_path, path_is_absolute, path_join};
use crate::text::{chars_of, push_str, starts_with, string_from_range};

verus! {

/// The largest image file that is inlined: 5 MB.
pub const MAX_IMAGE_BYTES: u64 = 5 * 1024 * 1024;

/// The value of one hexadecimal digit.
pub open spec fn hex_value(b: u8) -> Option<u8> {
    if 48 <= b && b <= 57 {
        Some((b - 48) as u8)
    } else if 97 <= b && b <= 102 {
        Some((b - 87) as u8)
    } else if 65 <= b && b <= 70 {
        Some((b - 55) as u8)
    } else {
        None
    }
}

/// What `u8::from_str_radix(_, 16)` makes of the two bytes `b1 b2`: two
/// hexadecimal digits, or a `+` sign and one digit.
pub open spec fn hex_pair(b1: u8, b2: u8) -> Option<u8> {
    if b1 == 43 {
        hex_value(b2)
    } else {
        match (hex_value(b1), hex_value(b2)) {
            (Some(h), Some(l)) => Some((h * 16 + l) as u8),
            _ => None,
        }
    }
}

/// The bytes from index `i` on with each `%XX` escape that reads as a
/// hexadecimal byte replaced by that byte.
pub open spec fn unescape_from(b: Seq<u8>, i: int) -> Seq<u8>
    decreases b.len() - i,
{
    if i < 0 || i >= b.len() {
        Seq::empty()
    } else if b[i] == 37 && i + 2 < b.len() && hex_pair(b[i + 1], b[i + 2]) is Some {
        seq![hex_pair(b[i + 1], b[i + 2]).unwrap()] + unescape_from(b, i + 3)
    } else {
        seq![b[i]] + unescape_from(b, i + 1)
    }
}

/// Whether unescaping from index `i` meets a `%` whose two following bytes
/// end inside a multi-byte character: reading them as text then panics.
pub open spec fn escape_splits_char(b: Seq<u8>, i: int) -> bool
    decreases b.len() - i,
{
    if i < 0 || i >= b.len() {
        false
    } else if b[i] == 37 && i + 2 < b.len() {
        if i + 3 < b.len() && is_continuation_byte(b[i + 3]) {
            true
        } else if hex_pair(b[i + 1], b[i + 2]) is Some {
            escape_splits_char(b, i + 3)
        } else {
            escape_splits_char(b, i + 1)
        }
    } else {
        escape_splits_char(b, i + 1)
    }
}

/// A path with `%XX` escapes decoded, when it holds a `%` and the decoded
/// bytes are UTF-8; otherwise the path as given.
pub open spec fn percent_decoded(value: Seq<char>) -> Seq<char> {
    if !value.contains('%') {
        value
    } else {
        let d = unescape_from(encode_utf8(value), 0);
        if valid_utf8(d) {
            decode_utf8(d)
        } else {
            value
        }
    }
}

/// The characters before the first `#`.
pub open spec fn before_hash(s: Seq<char>) -> Seq<char>
    decreases s.len(),
{
    if s.len() == 0 {
        s
    } else if s.last() == '#' && !s.drop_last().contains('#') {
        s.drop_last()
    } else if s.drop_last().contains('#') {
        before_hash(s.drop_last())
    } else {
        s
    }
}

/// Whether an image destination is remote, already inline, or an anchor.
pub open spec fn not_local(raw: Seq<char>) -> bool {
    "http://"@.is_prefix_of(raw) || "https://"@.is_prefix_of(raw) || "data:"@.is_prefix_of(raw)
        || "#"@.is_prefix_of(raw)
}

/// Whether resolving `raw` as a local path would split a character while
/// decoding its escapes.
pub open spec fn local_path_splits_char(raw: Seq<char>) -> bool {
    before_hash(raw).contains('%') && escape_splits_char(encode_utf8(before_hash(raw)), 0)
}

/// The relative path that an image destination names, joined to the
/// document's directory: its part before `#`, unescaped; `None` when that
/// path is absolute.
pub open spec fn local_path(base_dir: Seq<char>, raw: Seq<char>) -> Option<Seq<char>> {
    let decoded = percent_decoded(before_hash(raw));
    if path_is_absolute(decoded) {
        None
    } else {
        Some(path_join(base_dir, decoded))
    }
}

/// `String::from_utf8`, successful exactly on valid UTF-8.
#[verifier::external_body]
fn string_from_utf8(bytes: Vec<u8>) -> (r: Option<String>)
    ensures
        r is Some <==> valid_utf8(bytes@),
        r matches Some(s) ==> s@ == decode_utf8(bytes@),
{
    String::from_utf8(bytes).ok()
}

/// Whether `s` holds the character `c`.
pub fn contains_char(s: &str, c: char) -> (r: bool)
    ensures
        r == s@.contains(c),
{
    let chars = chars_of(s);
    let mut i: usize = 0;
    while i < chars.len()
        invariant
            chars@ == s@,
            i <= chars@.len(),
            forall|k: int| 0 <= k < i ==> chars@[k] != c,
        decreases chars@.len() - i,
    {
        if chars[i] == c {
            assert(s@[i as int] == c);
            return true;
        }
        i = i + 1;
    }
    false
}

/// The value of one hexadecimal digit.
fn hex_digit(b: u8) -> (r: Option<u8>)
    ensures
        r == hex_value(b),
{
    if 48 <= b && b <= 57 {
        Some(b - 48)
    } else if 97 <= b && b <= 102 {
        Some(b - 87)
    } else if 65 <= b && b <= 70 {
        Some(b - 55)
    } else {
        None
    }
}

/// Reads two bytes as `u8::from_str_radix(_, 16)` reads a two-character string.
fn parse_hex_pair(b1: u8, b2: u8) -> (r: Option<u8>)
    ensures
        r == hex_pair(b1, b2),
{
    if b1 == 43 {
        return hex_digit(b2);
    }
    match (hex_digit(b1), hex_digit(b2)) {
        (Some(h), Some(l)) => Some(h * 16 + l),
        _ => None,
    }
}

/// Whether decoding `value`'s escapes would split a character.
pub fn escape_would_split(value: &str) -> (r: bool)
    ensures
        r == escape_splits_char(encode_utf8(value@), 0),
{
    let bytes = value.as_bytes();
    let ghost b = bytes@;
    let n = bytes.len();
    let mut index: usize = 0;
    while index < n
        invariant
            b == bytes@,
            b == encode_utf8(value@),
            n == b.len(),
            index <= n,
            escape_splits_char(b, 0) == escape_splits_char(b, index as int),
        decreases n - index,
    {
        if bytes[index] == 37 && 2 < n - index {
            if index + 3 < n && 0x80 <= bytes[index + 3] && bytes[index + 3] <= 0xbf {
                return true;
            }
            if parse_hex_pair(bytes[index + 1], bytes[index + 2]).is_some() {
                index = index + 3;
                continue;
            }
        }
        index = index + 1;
    }
    false
}

/// Decodes `%XX` escapes in a path. The caller rules out escapes that would
/// split a character (see `escape_would_split`), on which reading the
/// escape as text panics.
pub fn percent_decode_minimal(value: &str) -> (r: String)
    requires
        value@.contains('%') ==> !escape_splits_char(encode_utf8(value@), 0),
    ensures
        r@ == percent_decoded(value@),
{
    if !contains_char(value, '%') {
        return String::from_str(value);
    }
    let bytes = value.as_bytes();
    let ghost b = bytes@;
    let n = bytes.len();
    let mut decoded: Vec<u8> = Vec::new();
    let mut index: usize = 0;
    while index < n
        invariant
            b == bytes@,
            b == encode_utf8(value@),
            n == b.len(),
            index <= n,
            decoded@ + unescape_from(b, index as int) == unescape_from(b, 0),
        decreases n - index,
    {
        let ghost before = decoded@;
        if bytes[index] == 37 && 2 < n - index {
            if let Some(hex) = parse_hex_pair(bytes[index + 1], bytes[index + 2]) {
                decoded.push(hex);
                index = index + 3;
                assert(decoded@ + unescape_from(b, index as int) =~= before + unescape_from(b, index - 3));
                continue;
            }
        }
        decoded.push(bytes[index]);
        index = index + 1;
        assert(decoded@ + unescape_from(b, index as int) =~= before + unescape_from(b, index - 1));
    }
    assert(decoded@ =~= unescape_from(b, 0));
    match string_from_utf8(decoded) {
        Some(s) => s,
        None => String::from_str(value),
    }
}

/// The characters of `raw` before its first `#`.
pub fn strip_fragment(raw: &str) -> (r: String)
    ensures
        r@ == before_hash(raw@),
{
    let chars = chars_of(raw);
    let mut i: usize = 0;
    while i < chars.len() && chars[i] != '#'
        invariant
            chars@ == raw@,
            i <= chars@.len(),
            forall|k: int| 0 <= k < i ==> chars@[k] != '#',
        decreases chars@.len() - i,
    {
        i = i + 1;
    }
    proof {
        lemma_before_hash(raw@, i as int);
    }
    string_from_range(&chars, 0, i)
}

/// `before_hash` is the prefix up to the first `#`.
pub proof fn lemma_before_hash(s: Seq<char>, i: int)
    requires
        0 <= i <= s.len(),
        forall|k: int| 0 <= k < i ==> s[k] != '#',
        i == s.len() || s[i] == '#',
    ensures
        before_hash(s) == s.subrange(0, i),
    decreases s.len(),
{
    if s.len() == 0 {
        assert(s.subrange(0, i) =~= s);
    } else if i == s.len() {
        assert(!s.contains('#'));
        assert(!s.drop_last().contains('#')) by {
            if s.drop_last().contains('#') {
                let k = choose|k: int| 0 <= k < s.drop_last().len() && s.drop_last()[k] == '#';
                assert(s[k] == '#');
            }
        }
        assert(s.subrange(0, i) =~= s);
    } else {
        let t = s.drop_last();
        if i == s.len() - 1 {
            assert(!t.contains('#')) by {
                if t.contains('#') {
                    let k = choose|k: int| 0 <= k < t.len() && t[k] == '#';
                    assert(s[k] == '#');
                }
            }
            assert(t =~= s.subrange(0, i));
        } else {
            assert(t[i] == '#');
            assert(t.contains('#'));
            lemma_before_hash(t, i);
            assert(t.subrange(0, i) =~= s.subrange(0, i));
        }
    }
}

/// The path of the local file that an image destination names, joined to
/// the document's directory (the caller canonicalises it); `None` for an
/// absolute path.
pub fn normalize_local_path(base_dir: &str, raw: &str) -> (r: Option<String>)
    requires
        !local_path_splits_char(raw@),
    ensures
        match r {
            Some(p) => local_path(base_dir@, raw@) == Some(p@),
            None => local_path(base_dir@, raw@) is None,
        },
{
    let without_fragment = strip_fragment(raw);
    let decoded = percent_decode_minimal(without_fragment.as_str());
    if is_absolute_path(decoded.as_str()) {
        return None;
    }
    Some(join_path(base_dir, decoded.as_str()))
}

/// The local path for an image destination, unless it is remote, already
/// inline, an anchor, or absolute.
pub fn local_image_candidate(base_dir: &str, raw: &str) -> (r: Option<String>)
    requires
        !not_local(raw@) ==> !local_path_splits_char(raw@),
    ensures
        not_local(raw@) ==> r is None,
        !not_local(raw@) ==> match r {
            Some(p) => local_path(base_dir@, raw@) == Some(p@),
            None => local_path(base_dir@, raw@) is None,
        },
{
    if starts_with(raw, "http://") || starts_with(raw, "https://") || starts_with(raw, "data:")
        || starts_with(raw, "#") {
        return None;
    }
    normalize_local_path(base_dir, raw)
}

/// Whether resolving an image destination as a local path would panic on a
/// split character.
pub fn local_image_splits_char(raw: &str) -> (r: bool)
    ensures
        r == (!not_local(raw@) && local_path_splits_char(raw@)),
{
    if starts_with(raw, "http://") || starts_with(raw, "https://") || starts_with(raw, "data:")
        || starts_with(raw, "#") {
        return false;
    }
    let without_fragment = strip_fragment(raw);
    contains_char(without_fragment.as_str(), '%') && escape_would_split(without_fragment.as_str())
}

/// Whether a local image file is inlined: a regular file of at most 5 MB.
pub fn image_size_allowed(is_file: bool, len: u64) -> (r: bool)
    ensures
        r == (is_file && len <= MAX_IMAGE_BYTES),
{
    is_file && len <= MAX_IMAGE_BYTES
}

/// The character for a six-bit value in the standard Base64 alphabet.
pub open spec fn base64_char(v: int) -> char {
    if v < 26 {
        (65 + v) as char
    } else if v < 52 {
        (97 + v - 26) as char
    } else if v < 62 {
        (48 + v - 52) as char
    } else if v == 62 {
        '+'
    } else {
        '/'
    }
}

/// Standard Base64 with `=` padding (RFC 4648, section 4).
pub open spec fn base64_standard(b: Seq<u8>) -> Seq<char>
    decreases b.len(),
{
    if b.len() == 0 {
        Seq::empty()
    } else if b.len() == 1 {
        seq![base64_char(b[0] as int / 4), base64_char((b[0] as int % 4) * 16), '=', '=']
    } else if b.len() == 2 {
        seq![
            base64_char(b[0] as int / 4),
            base64_char((b[0] as int % 4) * 16 + b[1] as int / 16),
            base64_char((b[1] as int % 16) * 4),
            '=',
        ]
    } else {
        seq![
            base64_char(b[0] as int / 4),
            base64_char((b[0] as int % 4) * 16 + b[1] as int / 16),
            base64_char((b[1] as int % 16) * 4 + b[2] as int / 64),
            base64_char(b[2] as int % 64),
        ] + base64_standard(b.subrange(3, b.len() as int))
    }
}

/// The MIME type that `mime_guess` gives for a path's extension, or
/// `application/octet-stream` when it knows none.
pub uninterp spec fn guessed_mime(path: Seq<char>) -> Seq<char>;

/// `mime_guess::from_path(path).first_or_octet_stream()`, written out with
/// `Display`. The result is named by `guessed_mime`.
#[verifier::external_body]
fn mime_for_path(path: &str) -> (r: String)
    ensures
        r@ == guessed_mime(path@),
{
    mime_guess::from_path(path).first_or_octet_stream().to_string()
}

/// `base64::engine::general_purpose::STANDARD.encode`: the standard
/// alphabet with padding, as the crate documents.
#[verifier::external_body]
fn base64_encode(bytes: &[u8]) -> (r: String)
    ensures
        r@ == base64_standard(bytes@),
{
    base64::Engine::encode(&base64::engine::general_purpose::STANDARD, bytes)
}

/// The data URL that inlines an image file's bytes.
pub open spec fn data_url(path: Seq<char>, bytes: Seq<u8>) -> Seq<char> {
    "data:"@ + guessed_mime(path) + ";base64,"@ + base64_standard(bytes)
}

/// The data URL for an image read from `path`.
pub fn image_data_url(path: &str, bytes: &[u8]) -> (r: String)
    ensures
        r@ == data_url(path@, bytes@),
{
    let mime = mime_for_path(path);
    let encoded = base64_encode(bytes);
    let mut out = String::new();
    push_str(&mut out, "data:");
    push_str(&mut out, mime.as_str());
    push_str(&mut out, ";base64,");
    push_str(&mut out, encoded.as_str());
    out
}

/// A hexadecimal digit for a value below 16, upper- or lower-case.
pub open spec fn hex_digit_char(d: u8, upper: bool) -> char {
    if d < 10 {
        ((d + 48) as u32) as char
    } else if upper {
        ((d + 55) as u32) as char
    } else {
        ((d + 87) as u32) as char
    }
}

/// An upper-case hexadecimal digit for a value below 16.
pub open spec fn upper_hex_digit(d: u8) -> char {
    hex_digit_char(d, true)
}

/// Every byte written as a `%xx` escape with hex digits of one case.
pub open spec fn percent_encode_bytes(b: Seq<u8>, upper: bool) -> Seq<char>
    decreases b.len(),
{
    if b.len() == 0 {
        Seq::empty()
    } else {
        seq!['%', hex_digit_char(b[0] / 16, upper), hex_digit_char(b[0] % 16, upper)]
            + percent_encode_bytes(b.drop_first(), upper)
    }
}

/// Every byte written as a `%XX` escape with upper-case hex digits.
pub open spec fn percent_encode_all(b: Seq<u8>) -> Seq<char> {
    percent_encode_bytes(b, true)
}

proof fn lemma_hex_digit_char(d: u8, upper: bool)
    requires
        d < 16,
    ensures
        '\0' <= hex_digit_char(d, upper) <= '\u{7f}',
        hex_digit_char(d, upper) as u8 != 43,
        hex_value(hex_digit_char(d, upper) as u8) == Some(d),
{
    if d < 10 {
        assert((((d + 48) as u32) as char) as u32 == d + 48);
    } else if upper {
        assert((((d + 55) as u32) as char) as u32 == d + 55);
    } else {
        assert((((d + 87) as u32) as char) as u32 == d + 87);
    }
}

/// Hexadecimal digits are read in either case, as `u8::from_str_radix(_, 16)`
/// reads them: every value below 16 is read back from its upper-case and
/// from its lower-case digit (`a`-`f` as 10-15 just like `A`-`F`), and a
/// byte read as a digit is one of these two digits for its value.
pub proof fn lemma_hex_digits_any_case(d: u8, b: u8)
    ensures
        d < 16 ==> hex_value(hex_digit_char(d, true) as u8) == Some(d),
        d < 16 ==> hex_value(hex_digit_char(d, false) as u8) == Some(d),
        hex_value(b) matches Some(v) ==> v < 16 && (b == hex_digit_char(v, true) as u8 || b
            == hex_digit_char(v, false) as u8),
{
    if d < 16 {
        lemma_hex_digit_char(d, true);
        lemma_hex_digit_char(d, false);
    }
    if let Some(v) = hex_value(b) {
        if 48 <= b && b <= 57 {
            assert((((v + 48) as u32) as char) as u32 == v + 48);
        } else if 97 <= b && b <= 102 {
            assert((((v + 87) as u32) as char) as u32 == v + 87);
        } else {
            assert((((v + 55) as u32) as char) as u32 == v + 55);
        }
    }
}

proof fn lemma_percent_encode_bytes(b: Seq<u8>, upper: bool)
    ensures
        percent_encode_bytes(b, upper).len() == 3 * b.len(),
        forall|k: int|
            0 <= k < b.len() ==> {
                &&& #[trigger] percent_encode_bytes(b, upper)[3 * k] == '%'
                &&& percent_encode_bytes(b, upper)[3 * k + 1] == hex_digit_char(b[k] / 16, upper)
                &&& percent_encode_bytes(b, upper)[3 * k + 2] == hex_digit_char(b[k] % 16, upper)
            },
        is_ascii_chars(percent_encode_bytes(b, upper)),
    decreases b.len(),
{
    if b.len() > 0 {
        let rest = b.drop_first();
        lemma_percent_encode_bytes(rest, upper);
        let e = percent_encode_bytes(b, upper);
        let head = seq!['%', hex_digit_char(b[0] / 16, upper), hex_digit_char(b[0] % 16, upper)];
        assert(e =~= head + percent_encode_bytes(rest, upper));
        assert forall|k: int| 0 <= k < b.len() implies {
            &&& #[trigger] e[3 * k] == '%'
            &&& e[3 * k + 1] == hex_digit_char(b[k] / 16, upper)
            &&& e[3 * k + 2] == hex_digit_char(b[k] % 16, upper)
        } by {
            if k > 0 {
                assert(rest[k - 1] == b[k]);
                assert(percent_encode_bytes(rest, upper)[3 * (k - 1)] == '%');
                assert(e[3 * k] == percent_encode_bytes(rest, upper)[3 * (k - 1)]);
            }
        }
        lemma_hex_digit_char(b[0] / 16, upper);
        lemma_hex_digit_char(b[0] % 16, upper);
        assert forall|i: int| 0 <= i < e.len() implies '\0' <= #[trigger] e[i] <= '\u{7f}' by {
            if i >= 3 {
                assert(e[i] == percent_encode_bytes(rest, upper)[i - 3]);
            }
        }
    }
}

proof fn lemma_unescape_encoded(b: Seq<u8>, k: int, upper: bool)
    requires
        0 <= k <= b.len(),
    ensures
        unescape_from(encode_utf8(percent_encode_bytes(b, upper)), 3 * k) == b.subrange(k, b.len() as int),
    decreases b.len() - k,
{
    let e = percent_encode_bytes(b, upper);
    lemma_percent_encode_bytes(b, upper);
    is_ascii_chars_encode_utf8(e);
    let eb = encode_utf8(e);
    if k < b.len() {
        lemma_unescape_encoded(b, k + 1, upper);
        let x = b[k];
        lemma_hex_digit_char(x / 16, upper);
        lemma_hex_digit_char(x % 16, upper);
        assert(e[3 * k] == '%');
        assert(eb[3 * k] == e[3 * k] as u8);
        assert(eb[3 * k + 1] == e[3 * k + 1] as u8);
        assert(eb[3 * k + 2] == e[3 * k + 2] as u8);
        assert(eb[3 * k] == 37);
        assert(hex_pair(eb[3 * k + 1], eb[3 * k + 2]) == Some(x));
        assert(b.subrange(k, b.len() as int) =~= seq![x] + b.subrange(k + 1, b.len() as int));
    } else {
        assert(b.subrange(k, b.len() as int) =~= Seq::<u8>::empty());
    }
}

/// Decoding a text whose every UTF-8 byte is written as a `%xx` escape,
/// with hex digits of either case, gives the text back (`caf%c3%a9` and
/// `caf%C3%A9` both decode to `café`).
pub proof fn lemma_percent_round_trip_any_case(text: Seq<char>, upper: bool)
    ensures
        percent_decoded(percent_encode_bytes(encode_utf8(text), upper)) == text,
        percent_encode_bytes(encode_utf8(text), upper).contains('%') ==> !escape_splits_char(
            encode_utf8(percent_encode_bytes(encode_utf8(text), upper)),
            0,
        ),
{
    let b = encode_utf8(text);
    let e = percent_encode_bytes(b, upper);
    lemma_percent_encode_bytes(b, upper);
    encode_utf8_valid_utf8(text);
    encode_utf8_decode_utf8(text);
    if b.len() == 0 {
        assert(e =~= Seq::<char>::empty());
        assert(decode_utf8(b) =~= Seq::<char>::empty());
    } else {
        assert(e[0int] == '%');
        assert(e.contains('%'));
        lemma_unescape_encoded(b, 0, upper);
        assert(b.subrange(0, b.len() as int) =~= b);
    }
    is_ascii_chars_encode_utf8(e);
    lemma_no_split_ascii(encode_utf8(e), 0);
}

/// Decoding a text whose every UTF-8 byte is written as a `%XX` escape
/// (upper-case hex digits) gives the text back.
pub proof fn lemma_percent_round_trip(text: Seq<char>)
    ensures
        percent_decoded(percent_encode_all(encode_utf8(text))) == text,
        percent_encode_all(encode_utf8(text)).contains('%') ==> !escape_splits_char(
            encode_utf8(percent_encode_all(encode_utf8(text))),
            0,
        ),
{
    lemma_percent_round_trip_any_case(text, true);
}

proof fn lemma_no_split_ascii(b: Seq<u8>, i: int)
    requires
        forall|k: int| 0 <= k < b.len() ==> #[trigger] b[k] < 128,
    ensures
        !escape_splits_char(b, i),
    decreases b.len() - i,
{
    if 0 <= i < b.len() {
        if b[i] == 37 && i + 2 < b.len() {
            if i + 3 < b.len() {
                assert(b[i + 3] < 128);
            }
            lemma_no_split_ascii(b, i + 3);
        }
        lemma_no_split_ascii(b, i + 1);
    }
}

} // verus!

//! Cleaning the rendered HTML with `ammonia`: only an allow-list of tags,
//! attributes and URL schemes survives.
use vstd::prelude::*;
use crate::text::starts_with;

verus! {

/// The tags that survive cleaning.
pub open spec fn allowed_tags() -> Seq<Seq<char>> {
    seq![
        "a"@, "blockquote"@, "br"@, "code"@, "del"@, "div"@, "em"@, "h1"@, "h2"@, "h3"@, "h4"@,
        "h5"@, "h6"@, "hr"@, "img"@, "li"@, "ol"@, "p"@, "pre"@, "span"@, "strong"@, "table"@,
        "tbody"@, "td"@, "th"@, "thead"@, "tr"@, "ul"@,
    ]
}

/// The attributes that survive cleaning on any allowed tag.
pub open spec fn allowed_attributes() -> Seq<Seq<char>> {
    seq!["alt"@, "class"@, "href"@, "id"@, "src"@, "style"@, "title"@]
}

/// The URL schemes that links and images may use.
pub open spec fn allowed_schemes() -> Seq<Seq<char>> {
    seq!["http"@, "https"@, "mailto"@, "data"@]
}

/// The views of a list of string slices.
pub open spec fn str_views(v: Seq<&str>) -> Seq<Seq<char>> {
    v.map_values(|s: &str| s@)
}

/// Links and images keep exactly the URL schemes `http`, `https`, `mailto`
/// and `data`: an ordinary `http://` link keeps its target.
pub proof fn lemma_allowed_schemes_exact(x: Seq<char>)
    ensures
        allowed_schemes().contains(x) <==> (x == "http"@ || x == "https"@ || x == "mailto"@ || x == "data"@),
{
    if allowed_schemes().contains(x) {
        let i = choose|i: int| 0 <= i < allowed_schemes().len() && allowed_schemes()[i] == x;
        if i == 0 {} else if i == 1 {} else if i == 2 {} else if i == 3 {}
    }
    if x == "http"@ || x == "https"@ || x == "mailto"@ || x == "data"@ {
        if x == "http"@ {
            assert(allowed_schemes()[0] == x);
        }
        if x == "https"@ {
            assert(allowed_schemes()[1] == x);
        }
        if x == "mailto"@ {
            assert(allowed_schemes()[2] == x);
        }
        if x == "data"@ {
            assert(allowed_schemes()[3] == x);
        }
    }
}

/// Exactly the attributes `alt`, `class`, `href`, `id`, `src`, `style` and
/// `title` survive on an allowed tag.
pub proof fn lemma_allowed_attributes_exact(x: Seq<char>)
    ensures
        allowed_attributes().contains(x) <==> (x == "alt"@ || x == "class"@ || x == "href"@ || x == "id"@ || x == "src"@ || x == "style"@ || x == "title"@),
{
    if allowed_attributes().contains(x) {
        let i = choose|i: int| 0 <= i < allowed_attributes().len() && allowed_attributes()[i] == x;
        if i == 0 {} else if i == 1 {} else if i == 2 {} else if i == 3 {} else if i == 4 {} else if i == 5 {} else if i == 6 {}
    }
    if x == "alt"@ || x == "class"@ || x == "href"@ || x == "id"@ || x == "src"@ || x == "style"@ || x == "title"@ {
        if x == "alt"@ {
            assert(allowed_attributes()[0] == x);
        }
        if x == "class"@ {
            assert(allowed_attributes()[1] == x);
        }
        if x == "href"@ {
            assert(allowed_attributes()[2] == x);
        }
        if x == "id"@ {
            assert(allowed_attributes()[3] == x);
        }
        if x == "src"@ {
            assert(allowed_attributes()[4] == x);
        }
        if x == "style"@ {
            assert(allowed_attributes()[5] == x);
        }
        if x == "title"@ {
            assert(allowed_attributes()[6] == x);
        }
    }
}

/// Exactly these tags survive cleaning: links, block quotes, line breaks,
/// code, deletions, divisions, emphasis, headings `h1`-`h6`, rules, images,
/// list items and lists, paragraphs, preformatted blocks, spans, strong
/// text and tables.
pub proof fn lemma_allowed_tags_exact(x: Seq<char>)
    ensures
        allowed_tags().contains(x) <==> (x == "a"@ || x == "blockquote"@ || x == "br"@ || x == "code"@ || x == "del"@ || x == "div"@ || x == "em"@ || x == "h1"@ || x == "h2"@ || x == "h3"@ || x == "h4"@ || x == "h5"@ || x == "h6"@ || x == "hr"@ || x == "img"@ || x == "li"@ || x == "ol"@ || x == "p"@ || x == "pre"@ || x == "span"@ || x == "strong"@ || x == "table"@ || x == "tbody"@ || x == "td"@ || x == "th"@ || x == "thead"@ || x == "tr"@ || x == "ul"@),
{
    if allowed_tags().contains(x) {
        let i = choose|i: int| 0 <= i < allowed_tags().len() && allowed_tags()[i] == x;
        if i == 0 {} else if i == 1 {} else if i == 2 {} else if i == 3 {} else if i == 4 {} else if i == 5 {} else if i == 6 {} else if i == 7 {} else if i == 8 {} else if i == 9 {} else if i == 10 {} else if i == 11 {} else if i == 12 {} else if i == 13 {} else if i == 14 {} else if i == 15 {} else if i == 16 {} else if i == 17 {} else if i == 18 {} else if i == 19 {} else if i == 20 {} else if i == 21 {} else if i == 22 {} else if i == 23 {} else if i == 24 {} else if i == 25 {} else if i == 26 {} else if i == 27 {}
    }
    if x == "a"@ || x == "blockquote"@ || x == "br"@ || x == "code"@ || x == "del"@ || x == "div"@ || x == "em"@ || x == "h1"@ || x == "h2"@ || x == "h3"@ || x == "h4"@ || x == "h5"@ || x == "h6"@ || x == "hr"@ || x == "img"@ || x == "li"@ || x == "ol"@ || x == "p"@ || x == "pre"@ || x == "span"@ || x == "strong"@ || x == "table"@ || x == "tbody"@ || x == "td"@ || x == "th"@ || x == "thead"@ || x == "tr"@ || x == "ul"@ {
        if x == "a"@ {
            assert(allowed_tags()[0] == x);
        }
        if x == "blockquote"@ {
            assert(allowed_tags()[1] == x);
        }
        if x == "br"@ {
            assert(allowed_tags()[2] == x);
        }
        if x == "code"@ {
            assert(allowed_tags()[3] == x);
        }
        if x == "del"@ {
            assert(allowed_tags()[4] == x);
        }
        if x == "div"@ {
            assert(allowed_tags()[5] == x);
        }
        if x == "em"@ {
            assert(allowed_tags()[6] == x);
        }
        if x == "h1"@ {
            assert(allowed_tags()[7] == x);
        }
        if x == "h2"@ {
            assert(allowed_tags()[8] == x);
        }
        if x == "h3"@ {
            assert(allowed_tags()[9] == x);
        }
        if x == "h4"@ {
            assert(allowed_tags()[10] == x);
        }
        if x == "h5"@ {
            assert(allowed_tags()[11] == x);
        }
        if x == "h6"@ {
            assert(allowed_tags()[12] == x);
        }
        if x == "hr"@ {
            assert(allowed_tags()[13] == x);
        }
        if x == "img"@ {
            assert(allowed_tags()[14] == x);
        }
        if x == "li"@ {
            assert(allowed_tags()[15] == x);
        }
        if x == "ol"@ {
            assert(allowed_tags()[16] == x);
        }
        if x == "p"@ {
            assert(allowed_tags()[17] == x);
        }
        if x == "pre"@ {
            assert(allowed_tags()[18] == x);
        }
        if x == "span"@ {
            assert(allowed_tags()[19] == x);
        }
        if x == "strong"@ {
            assert(allowed_tags()[20] == x);
        }
        if x == "table"@ {
            assert(allowed_tags()[21] == x);
        }
        if x == "tbody"@ {
            assert(allowed_tags()[22] == x);
        }
        if x == "td"@ {
            assert(allowed_tags()[23] == x);
        }
        if x == "th"@ {
            assert(allowed_tags()[24] == x);
        }
        if x == "thead"@ {
            assert(allowed_tags()[25] == x);
        }
        if x == "tr"@ {
            assert(allowed_tags()[26] == x);
        }
        if x == "ul"@ {
            assert(allowed_tags()[27] == x);
        }
    }
}

/// Whether an attribute value is kept: links may not point at `data:`
/// URLs, and images must use a `data:image/` URL.
pub open spec fn attribute_kept(element: Seq<char>, attribute: Seq<char>, value: Seq<char>) -> bool {
    if element == "a"@ && attribute == "href"@ {
        !"data:"@.is_prefix_of(value)
    } else if element == "img"@ && attribute == "src"@ {
        "data:image/"@.is_prefix_of(value)
    } else {
        true
    }
}

/// What happens to relative URLs while cleaning.
#[derive(Clone, Copy, Debug, PartialEq, Eq, Structural)]
pub enum RelativeUrls {
    /// Relative URLs are removed.
    Deny,
    /// Relative URLs are kept as they are.
    PassThrough,
}

/// What `ammonia` makes of `html` when only the given tags, generic
/// attributes and URL schemes are allowed, relative URLs are treated as
/// `relative` says, and attribute values are filtered by `keep_attribute`.
pub uninterp spec fn ammonia_clean(
    html: Seq<char>,
    tags: Seq<Seq<char>>,
    attributes: Seq<Seq<char>>,
    schemes: Seq<Seq<char>>,
    relative: RelativeUrls,
) -> Seq<char>;

/// Whether `ammonia` accepts the allow-lists: its default content-stripping
/// tags (`script`, `style`) may not be allowed tags, and `rel` may not be a
/// generic attribute while it sets `rel` on links itself.
pub open spec fn ammonia_accepts(tags: Seq<Seq<char>>, attributes: Seq<Seq<char>>) -> bool {
    &&& !tags.contains("script"@)
    &&& !tags.contains("style"@)
    &&& !attributes.contains("rel"@)
}

/// Whether an attribute value is kept.
pub fn keep_attribute(element: &str, attribute: &str, value: &str) -> (r: bool)
    ensures
        r == attribute_kept(element@, attribute@, value@),
{
    if crate::text::str_eq(element, "a") && crate::text::str_eq(attribute, "href") {
        !starts_with(value, "data:")
    } else if crate::text::str_eq(element, "img") && crate::text::str_eq(attribute, "src") {
        starts_with(value, "data:image/")
    } else {
        true
    }
}

/// `ammonia::Builder` configured with the given allow-lists, relative-URL
/// rule and `keep_attribute` as the attribute filter, then `clean` and
/// `to_string`. `Builder::clean` panics when one of its default
/// content-stripping tags is allowed or `rel` is a generic attribute while
/// it sets `rel` on links (by default it does), so `requires` leaves those
/// lists out. The result is named by `ammonia_clean` over the HTML, the
/// three lists and the rule; nothing more of it is stated.
#[verifier::external_body]
fn ammonia_clean_with(
    html: &str,
    tags: &Vec<&'static str>,
    attributes: &Vec<&'static str>,
    schemes: &Vec<&'static str>,
    relative: RelativeUrls,
) -> (r: String)
    requires
        ammonia_accepts(str_views(tags@), str_views(attributes@)),
    ensures
        r@ == ammonia_clean(
            html@,
            str_views(tags@),
            str_views(attributes@),
            str_views(schemes@),
            relative,
        ),
{
    ammonia::Builder::default().tags(tags.iter().copied().collect()).generic_attributes(
        attributes.iter().copied().collect(),
    ).url_schemes(schemes.iter().copied().collect()).url_relative(match relative {
        RelativeUrls::Deny => ammonia::UrlRelative::Deny,
        RelativeUrls::PassThrough => ammonia::UrlRelative::PassThrough,
    })
        .attribute_filter(|e, a, v| keep_attribute(e, a, v).then_some(v.into())).clean(html)
        .to_string()
}

/// The allowed tags.
pub fn allowed_tag_list() -> (r: Vec<&'static str>)
    ensures
        str_views(r@) == allowed_tags(),
{
    let r = vec![
        "a", "blockquote", "br", "code", "del", "div", "em", "h1", "h2", "h3", "h4", "h5", "h6",
        "hr", "img", "li", "ol", "p", "pre", "span", "strong", "table", "tbody", "td", "th",
        "thead", "tr", "ul",
    ];
    assert(str_views(r@) =~= allowed_tags());
    r
}

/// The allowed generic attributes.
pub fn allowed_attribute_list() -> (r: Vec<&'static str>)
    ensures
        str_views(r@) == allowed_attributes(),
{
    let r = vec!["alt", "class", "href", "id", "src", "style", "title"];
    assert(str_views(r@) =~= allowed_attributes());
    r
}

/// The allowed URL schemes.
pub fn allowed_scheme_list() -> (r: Vec<&'static str>)
    ensures
        str_views(r@) == allowed_schemes(),
{
    let r = vec!["http", "https", "mailto", "data"];
    assert(str_views(r@) =~= allowed_schemes());
    r
}

/// The reader's allow-lists are ones that `ammonia` accepts.
proof fn lemma_allow_lists_accepted()
    ensures
        ammonia_accepts(allowed_tags(), allowed_attributes()),
{
    reveal_strlit("a");
    reveal_strlit("alt");
    reveal_strlit("blockquote");
    reveal_strlit("br");
    reveal_strlit("class");
    reveal_strlit("code");
    reveal_strlit("del");
    reveal_strlit("div");
    reveal_strlit("em");
    reveal_strlit("h1");
    reveal_strlit("h2");
    reveal_strlit("h3");
    reveal_strlit("h4");
    reveal_strlit("h5");
    reveal_strlit("h6");
    reveal_strlit("hr");
    reveal_strlit("href");
    reveal_strlit("id");
    reveal_strlit("img");
    reveal_strlit("li");
    reveal_strlit("ol");
    reveal_strlit("p");
    reveal_strlit("pre");
    reveal_strlit("rel");
    reveal_strlit("script");
    reveal_strlit("span");
    reveal_strlit("src");
    reveal_strlit("strong");
    reveal_strlit("style");
    reveal_strlit("table");
    reveal_strlit("tbody");
    reveal_strlit("td");
    reveal_strlit("th");
    reveal_strlit("thead");
    reveal_strlit("title");
    reveal_strlit("tr");
    reveal_strlit("ul");
    assert("script"@.len() == 6);
    assert("style"@.len() == 5);
    assert("rel"@.len() == 3);
    assert forall|i: int| 0 <= i < allowed_tags().len() implies allowed_tags()[i] != "script"@
        && allowed_tags()[i] != "style"@ by {
        if i == 0 {
            assert(allowed_tags()[i] == "a"@); assert("a"@.len() == 1);
        } else if i == 1 {
            assert(allowed_tags()[i] == "blockquote"@); assert("blockquote"@.len() == 10);
        } else if i == 2 {
            assert(allowed_tags()[i] == "br"@); assert("br"@.len() == 2);
        } else if i == 3 {
            assert(allowed_tags()[i] == "code"@); assert("code"@.len() == 4);
        } else if i == 4 {
            assert(allowed_tags()[i] == "del"@); assert("del"@.len() == 3);
        } else if i == 5 {
            assert(allowed_tags()[i] == "div"@); assert("div"@.len() == 3);
        } else if i == 6 {
            assert(allowed_tags()[i] == "em"@); assert("em"@.len() == 2);
        } else if i == 7 {
            assert(allowed_tags()[i] == "h1"@); assert("h1"@.len() == 2);
        } else if i == 8 {
            assert(allowed_tags()[i] == "h2"@); assert("h2"@.len() == 2);
        } else if i == 9 {
            assert(allowed_tags()[i] == "h3"@); assert("h3"@.len() == 2);
        } else if i == 10 {
            assert(allowed_tags()[i] == "h4"@); assert("h4"@.len() == 2);
        } else if i == 11 {
            assert(allowed_tags()[i] == "h5"@); assert("h5"@.len() == 2);
        } else if i == 12 {
            assert(allowed_tags()[i] == "h6"@); assert("h6"@.len() == 2);
        } else if i == 13 {
            assert(allowed_tags()[i] == "hr"@); assert("hr"@.len() == 2);
        } else if i == 14 {
            assert(allowed_tags()[i] == "img"@); assert("img"@.len() == 3);
        } else if i == 15 {
            assert(allowed_tags()[i] == "li"@); assert("li"@.len() == 2);
        } else if i == 16 {
            assert(allowed_tags()[i] == "ol"@); assert("ol"@.len() == 2);
        } else if i == 17 {
            assert(allowed_tags()[i] == "p"@); assert("p"@.len() == 1);
        } else if i == 18 {
            assert(allowed_tags()[i] == "pre"@); assert("pre"@.len() == 3);
        } else if i == 19 {
            assert(allowed_tags()[i] == "span"@); assert("span"@.len() == 4);
        } else if i == 20 {
            assert(allowed_tags()[i] == "strong"@); assert("strong"@.len() == 6); assert("strong"@[1] == 't'); assert("script"@[1] == 'c');
        } else if i == 21 {
            assert(allowed_tags()[i] == "table"@); assert("table"@.len() == 5); assert("table"@[0] == 't'); assert("style"@[0] == 's');
        } else if i == 22 {
            assert(allowed_tags()[i] == "tbody"@); assert("tbody"@.len() == 5); assert("tbody"@[0] == 't'); assert("style"@[0] == 's');
        } else if i == 23 {
            assert(allowed_tags()[i] == "td"@); assert("td"@.len() == 2);
        } else if i == 24 {
            assert(allowed_tags()[i] == "th"@); assert("th"@.len() == 2);
        } else if i == 25 {
            assert(allowed_tags()[i] == "thead"@); assert("thead"@.len() == 5); assert("thead"@[0] == 't'); assert("style"@[0] == 's');
        } else if i == 26 {
            assert(allowed_tags()[i] == "tr"@); assert("tr"@.len() == 2);
        } else if i == 27 {
            assert(allowed_tags()[i] == "ul"@); assert("ul"@.len() == 2);
        }
    }
    assert forall|i: int| 0 <= i < allowed_attributes().len() implies allowed_attributes()[i]
        != "rel"@ by {
        if i == 0 {
            assert(allowed_attributes()[i] == "alt"@); assert("alt"@.len() == 3); assert("alt"@[0] == 'a'); assert("rel"@[0] == 'r');
        } else if i == 1 {
            assert(allowed_attributes()[i] == "class"@); assert("class"@.len() == 5);
        } else if i == 2 {
            assert(allowed_attributes()[i] == "href"@); assert("href"@.len() == 4);
        } else if i == 3 {
            assert(allowed_attributes()[i] == "id"@); assert("id"@.len() == 2);
        } else if i == 4 {
            assert(allowed_attributes()[i] == "src"@); assert("src"@.len() == 3); assert("src"@[0] == 's'); assert("rel"@[0] == 'r');
        } else if i == 5 {
            assert(allowed_attributes()[i] == "style"@); assert("style"@.len() == 5);
        } else if i == 6 {
            assert(allowed_attributes()[i] == "title"@); assert("title"@.len() == 5);
        }
    }
}

/// Cleans rendered HTML down to the reader's allow-lists.
pub fn clean(html: &str) -> (r: String)
    ensures
        r@ == ammonia_clean(
            html@,
            allowed_tags(),
            allowed_attributes(),
            allowed_schemes(),
            RelativeUrls::Deny,
        ),
{
    let tags = allowed_tag_list();
    let attributes = allowed_attribute_list();
    let schemes = allowed_scheme_list();
    proof {
        lemma_allow_lists_accepted();
    }
    ammonia_clean_with(html, &tags, &attributes, &schemes, RelativeUrls::Deny)
}

} // verus!

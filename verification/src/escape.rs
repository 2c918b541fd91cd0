//! Escaping text for the documents the reader builds, and the plain-text
//! fallback for bodies that carry no markup.

use vstd::prelude::*;
use crate::text::{chars_of, contains, contains_str, push_all, push_str, string_of};

verus! {

/// What one character becomes in HTML element text.
pub open spec fn esc_text_char(c: char) -> Seq<char> {
    if c == '&' {
        seq!['&', 'a', 'm', 'p', ';']
    } else if c == '<' {
        seq!['&', 'l', 't', ';']
    } else if c == '>' {
        seq!['&', 'g', 't', ';']
    } else {
        seq![c]
    }
}

/// Text escaped for HTML element content: `&`, `<` and `>` become entities.
pub open spec fn esc_text(s: Seq<char>) -> Seq<char>
    decreases s.len(),
{
    if s.len() == 0 {
        seq![]
    } else {
        esc_text(s.drop_last()) + esc_text_char(s.last())
    }
}

/// What one character becomes inside a double-quoted attribute value.
pub open spec fn esc_attr_char(c: char) -> Seq<char> {
    if c == '&' {
        seq!['&', 'a', 'm', 'p', ';']
    } else if c == '"' {
        seq!['&', 'q', 'u', 'o', 't', ';']
    } else {
        seq![c]
    }
}

/// Text escaped for a double-quoted attribute value: `&` and `"` only.
pub open spec fn esc_attr(s: Seq<char>) -> Seq<char>
    decreases s.len(),
{
    if s.len() == 0 {
        seq![]
    } else {
        esc_attr(s.drop_last()) + esc_attr_char(s.last())
    }
}

/// Escaping a concatenation escapes each part.
pub proof fn law_escape_concat(a: Seq<char>, b: Seq<char>)
    ensures
        esc_text(a + b) == esc_text(a) + esc_text(b),
    decreases b.len(),
{
    if b.len() == 0 {
        assert(a + b =~= a);
        assert(esc_text(a) + esc_text(b) =~= esc_text(a));
    } else {
        law_escape_concat(a, b.drop_last());
        assert((a + b).drop_last() =~= a + b.drop_last());
        assert((a + b).last() == b.last());
        assert(esc_text(a) + esc_text(b) =~= esc_text(a) + esc_text(b.drop_last()) + esc_text_char(b.last()));
    }
}

/// No `<` or `>` survives escaping, so escaped text can never open a tag.
pub proof fn law_escaped_text_opens_no_tag(s: Seq<char>)
    ensures
        forall|i: int| 0 <= i < esc_text(s).len() ==> esc_text(s)[i] != '<' && esc_text(s)[i] != '>',
    decreases s.len(),
{
    if s.len() > 0 {
        law_escaped_text_opens_no_tag(s.drop_last());
        let a = esc_text(s.drop_last());
        let b = esc_text_char(s.last());
        assert forall|i: int| 0 <= i < (a + b).len() implies (a + b)[i] != '<' && (a + b)[i] != '>' by {
            if i >= a.len() {
                assert((a + b)[i] == b[i - a.len()]);
            }
        }
    }
}

/// No `"` survives attribute escaping, so escaped text cannot close the value.
pub proof fn law_escaped_attr_stays_quoted(s: Seq<char>)
    ensures
        forall|i: int| 0 <= i < esc_attr(s).len() ==> esc_attr(s)[i] != '"',
    decreases s.len(),
{
    if s.len() > 0 {
        law_escaped_attr_stays_quoted(s.drop_last());
        let a = esc_attr(s.drop_last());
        let b = esc_attr_char(s.last());
        assert forall|i: int| 0 <= i < (a + b).len() implies (a + b)[i] != '"' by {
            if i >= a.len() {
                assert((a + b)[i] == b[i - a.len()]);
            }
        }
    }
}

/// `esc_text` of a character vector.
pub fn escape_text_chars(s: &Vec<char>) -> (r: Vec<char>)
    ensures
        r@ == esc_text(s@),
{
    let mut r: Vec<char> = Vec::new();
    let mut i: usize = 0;
    while i < s.len()
        invariant
            i <= s.len(),
            r@ == esc_text(s@.take(i as int)),
        decreases s.len() - i,
    {
        let c = s[i];
        let ghost before = r@;
        if c == '&' {
            push_str(&mut r, "&amp;");
        } else if c == '<' {
            push_str(&mut r, "&lt;");
        } else if c == '>' {
            push_str(&mut r, "&gt;");
        } else {
            r.push(c);
        }
        proof {
            reveal_strlit("&amp;");
            reveal_strlit("&lt;");
            reveal_strlit("&gt;");
            assert(s@.take(i + 1 as int).drop_last() =~= s@.take(i as int));
            assert(r@ =~= before + esc_text_char(c));
        }
        i += 1;
    }
    assert(s@.take(s.len() as int) =~= s@);
    r
}

/// Escape text for HTML content: a subject or an address that contains `<`
/// must not become a tag.
pub fn escape_text(s: &str) -> (r: String)
    ensures
        r@ == esc_text(s@),
{
    let v = chars_of(s);
    let e = escape_text_chars(&v);
    string_of(&e)
}

/// Escape a string for use inside a double-quoted HTML attribute value (such
/// as `srcdoc`), and nothing else: `<` and `>` are left alone, so this is not
/// safe for element text.
pub fn attr_escape(s: &str) -> (r: String)
    ensures
        r@ == esc_attr(s@),
{
    let v = chars_of(s);
    let mut r: Vec<char> = Vec::new();
    let mut i: usize = 0;
    while i < v.len()
        invariant
            i <= v.len(),
            r@ == esc_attr(v@.take(i as int)),
        decreases v.len() - i,
    {
        let c = v[i];
        let ghost before = r@;
        if c == '&' {
            push_str(&mut r, "&amp;");
        } else if c == '"' {
            push_str(&mut r, "&quot;");
        } else {
            r.push(c);
        }
        proof {
            reveal_strlit("&amp;");
            reveal_strlit("&quot;");
            assert(v@.take(i + 1 as int).drop_last() =~= v@.take(i as int));
            assert(r@ =~= before + esc_attr_char(c));
        }
        i += 1;
    }
    assert(v@.take(v.len() as int) =~= v@);
    string_of(&r)
}

/// The page a tag-less plain-text body is wrapped in.
pub open spec fn plain_body_doc(body: Seq<char>) -> Seq<char> {
    "<!doctype html><html><head><meta charset=\"utf-8\"><style>body{margin:0;padding:16px;font:14px/1.5 system-ui,sans-serif;white-space:pre-wrap;word-wrap:break-word}</style></head><body>"@
        + esc_text(body) + "</body></html>"@
}

/// A body as HTML: bodies with markup are used as they are; tag-less plain
/// text (older cached bodies, odd messages) is escaped and wrapped so it reads
/// well.
pub open spec fn body_doc(body: Seq<char>) -> Seq<char> {
    if contains(body, "<"@) {
        body
    } else {
        plain_body_doc(body)
    }
}

pub fn body_html(body: &str) -> (r: String)
    ensures
        r@ == body_doc(body@),
{
    let v = chars_of(body);
    if contains_str(&v, "<") {
        return string_of(&v);
    }
    let mut out: Vec<char> = Vec::new();
    push_str(
        &mut out,
        "<!doctype html><html><head><meta charset=\"utf-8\"><style>body{margin:0;padding:16px;font:14px/1.5 system-ui,sans-serif;white-space:pre-wrap;word-wrap:break-word}</style></head><body>",
    );
    let e = escape_text_chars(&v);
    push_all(&mut out, &e);
    push_str(&mut out, "</body></html>");
    string_of(&out)
}

} // verus!

//! The remote-content detector and stripper.
//!
//! One walk over a message body finds every URL that would make the engine
//! fetch from a remote host: attribute values that load something (`src`,
//! `poster`, `<link href>`, ...), each candidate of a `srcset`, and the
//! `url(...)` and `@import` of stylesheets in `style=` attributes and
//! `<style>` elements. The same walk feeds the "remote content was blocked"
//! banner and the stripping, so the two cannot disagree.

use vstd::prelude::*;
use crate::text::{
    chars_of, find_char, find_char_exec, is_ascii_alnum, is_ascii_alnum_char, is_ascii_ws,
    is_ascii_ws_char, lower, lower_chars, lower_char, lower_char_exec, push_range, push_str,
    seq_eq, starts_with, string_of, trim, trim_chars, char_width_exec, utf8_len,
    lemma_utf8_len_concat, lemma_utf8_len_encode, lemma_utf8_len_prefix, lemma_utf8_len_take_next,
    lemma_find_char, lemma_trim_end_cut, lemma_trim_start_at,
};
use vstd::utf8::encode_utf8;

verus! {

// ---------------------------------------------------------------------------
// Runs of characters
// ---------------------------------------------------------------------------

/// Character classes the walk advances over.
pub const NAME: u8 = 0;
pub const ATTR_NAME: u8 = 1;
pub const WS: u8 = 2;
pub const NOT_QUOTE: u8 = 3;
pub const UNQUOTED: u8 = 4;
pub const NOT_COMMA: u8 = 5;
pub const BARE_CSS: u8 = 6;
pub const NOT_WS: u8 = 7;

/// Whether `ch` belongs to class `cls` (`q` is the closing quote for `NOT_QUOTE`).
pub open spec fn in_class(cls: u8, q: char, ch: char) -> bool {
    if cls == NAME {
        is_ascii_alnum(ch) || ch == '-' || ch == ':'
    } else if cls == ATTR_NAME {
        ch != '=' && ch != '>' && ch != '/' && !is_ascii_ws(ch)
    } else if cls == WS {
        is_ascii_ws(ch)
    } else if cls == NOT_QUOTE {
        ch != q
    } else if cls == UNQUOTED {
        ch != '>' && !is_ascii_ws(ch)
    } else if cls == NOT_COMMA {
        ch != ','
    } else if cls == BARE_CSS {
        ch != ')' && !is_ascii_ws(ch)
    } else {
        !is_ascii_ws(ch)
    }
}

/// The end of the run of class `cls` starting at `i`, stopping at `end`.
pub open spec fn run_end(c: Seq<char>, i: int, end: int, cls: u8, q: char) -> int
    decreases end - i,
{
    if 0 <= i < end && i < c.len() && in_class(cls, q, c[i]) {
        run_end(c, i + 1, end, cls, q)
    } else {
        i
    }
}

pub proof fn lemma_run_end(c: Seq<char>, i: int, end: int, cls: u8, q: char)
    requires
        0 <= i,
        end <= c.len(),
    ensures
        i <= run_end(c, i, end, cls, q),
        i <= end ==> run_end(c, i, end, cls, q) <= end,
        i > end ==> run_end(c, i, end, cls, q) == i,
    decreases end - i,
{
    if i < end && in_class(cls, q, c[i]) {
        lemma_run_end(c, i + 1, end, cls, q);
    }
}

fn in_class_exec(cls: u8, q: char, ch: char) -> (r: bool)
    ensures
        r == in_class(cls, q, ch),
{
    if cls == NAME {
        is_ascii_alnum_char(ch) || ch == '-' || ch == ':'
    } else if cls == ATTR_NAME {
        ch != '=' && ch != '>' && ch != '/' && !is_ascii_ws_char(ch)
    } else if cls == WS {
        is_ascii_ws_char(ch)
    } else if cls == NOT_QUOTE {
        ch != q
    } else if cls == UNQUOTED {
        ch != '>' && !is_ascii_ws_char(ch)
    } else if cls == NOT_COMMA {
        ch != ','
    } else if cls == BARE_CSS {
        ch != ')' && !is_ascii_ws_char(ch)
    } else {
        !is_ascii_ws_char(ch)
    }
}

fn run_end_exec(c: &Vec<char>, i: usize, end: usize, cls: u8, q: char) -> (r: usize)
    requires
        end <= c@.len(),
    ensures
        r as int == run_end(c@, i as int, end as int, cls, q),
        i <= r,
        i <= end ==> r <= end,
{
    proof {
        lemma_run_end(c@, i as int, end as int, cls, q);
    }
    let mut k = i;
    while k < end && in_class_exec(cls, q, c[k])
        invariant
            i <= k,
            end <= c@.len(),
            i <= end ==> k <= end,
            run_end(c@, k as int, end as int, cls, q) == run_end(c@, i as int, end as int, cls, q),
        decreases end - k,
    {
        k += 1;
    }
    k
}

// ---------------------------------------------------------------------------
// Case-insensitive search
// ---------------------------------------------------------------------------

/// `pat` (given in lower case) occurs at `p`, ignoring ASCII case, within `c[..end]`.
pub open spec fn matches_ci(c: Seq<char>, pat: Seq<char>, p: int, end: int) -> bool {
    0 <= p && p + pat.len() <= end && end <= c.len() && lower(c.subrange(p, p + pat.len())) == pat
}

/// The first case-insensitive occurrence of a non-empty `pat` in `c[from..end]`.
pub open spec fn find_ci(c: Seq<char>, pat: Seq<char>, from: int, end: int) -> Option<int>
    decreases end + 1 - from,
{
    if from < 0 || from + pat.len() > end || pat.len() == 0 {
        None
    } else if matches_ci(c, pat, from, end) {
        Some(from)
    } else {
        find_ci(c, pat, from + 1, end)
    }
}

pub proof fn lemma_find_ci(c: Seq<char>, pat: Seq<char>, from: int, end: int)
    requires
        0 <= from,
    ensures
        find_ci(c, pat, from, end) matches Some(p) ==> from <= p && p + pat.len() <= end,
    decreases end + 1 - from,
{
    if from + pat.len() <= end && pat.len() > 0 && !matches_ci(c, pat, from, end) {
        lemma_find_ci(c, pat, from + 1, end);
    }
}

fn matches_ci_exec(c: &Vec<char>, pat: &Vec<char>, p: usize, end: usize) -> (r: bool)
    requires
        end <= c@.len(),
    ensures
        r == matches_ci(c@, pat@, p as int, end as int),
{
    if p > end || pat.len() > end - p {
        return false;
    }
    let mut k: usize = 0;
    while k < pat.len()
        invariant
            p + pat@.len() <= end <= c@.len(),
            k <= pat@.len(),
            forall|j: int| 0 <= j < k ==> lower_char(c@[p + j]) == pat@[j],
        decreases pat@.len() - k,
    {
        if lower_char_exec(c[p + k]) != pat[k] {
            assert(lower(c@.subrange(p as int, p + pat@.len()))[k as int] != pat@[k as int]);
            return false;
        }
        k += 1;
    }
    assert(lower(c@.subrange(p as int, p + pat@.len())) =~= pat@);
    true
}

fn find_ci_exec(c: &Vec<char>, pat: &Vec<char>, from: usize, end: usize) -> (r: Option<usize>)
    requires
        end <= c@.len(),
    ensures
        r matches Some(p) ==> find_ci(c@, pat@, from as int, end as int) == Some(p as int),
        r is None ==> find_ci(c@, pat@, from as int, end as int) is None,
{
    if pat.len() == 0 {
        return None;
    }
    let mut i = from;
    while i <= end && pat.len() <= end - i
        invariant
            from <= i,
            pat@.len() > 0,
            end <= c@.len(),
            find_ci(c@, pat@, from as int, end as int) == find_ci(c@, pat@, i as int, end as int),
        decreases end + 1 - i,
    {
        if matches_ci_exec(c, pat, i, end) {
            return Some(i);
        }
        i += 1;
    }
    None
}

// ---------------------------------------------------------------------------
// Which URLs reach the network
// ---------------------------------------------------------------------------

/// The schemes that carry their own bytes or fetch nothing.
pub open spec fn local_scheme(s: Seq<char>) -> bool {
    s == "data"@ || s == "cid"@ || s == "blocked"@ || s == "mailto"@ || s == "tel"@ || s
        == "about"@ || s == "javascript"@
}

/// A scheme's characters: ASCII letters and digits, `+`, `-` and `.`.
pub open spec fn scheme_chars(s: Seq<char>) -> bool {
    forall|i: int| 0 <= i < s.len() ==> is_ascii_alnum(#[trigger] s[i]) || s[i] == '+' || s[i]
        == '-' || s[i] == '.'
}

/// Whether a URL reaches a remote host: protocol-relative (`//host/x`), or
/// with a scheme other than the local ones. A path- or root-relative URL
/// resolves against a host that serves nothing, so it is not remote.
pub open spec fn is_remote(u: Seq<char>) -> bool {
    let t = trim(u);
    if starts_with(t, "//"@) {
        true
    } else {
        match find_char(t, ':', 0) {
            Some(ci) => {
                let scheme = t.subrange(0, ci);
                scheme.len() > 0 && scheme_chars(scheme) && !local_scheme(lower(scheme))
            },
            None => false,
        }
    }
}

fn eq_lit(v: &Vec<char>, lit: &str) -> (r: bool)
    ensures
        r == (v@ == lit@),
{
    let l = chars_of(lit);
    seq_eq(v, &l)
}

fn is_remote_exec(c: &Vec<char>, s: usize, e: usize) -> (r: bool)
    requires
        s <= e <= c@.len(),
    ensures
        r == is_remote(c@.subrange(s as int, e as int)),
{
    let u = crate::text::slice_of(c, s, e);
    let t = trim_chars(&u);
    if crate::text::starts_with_str(&t, "//") {
        return true;
    }
    match find_char_exec(&t, ':', 0) {
        Some(ci) => {
            proof {
                crate::text::lemma_find_char(t@, ':', 0);
            }
            if ci == 0 {
                assert(t@.subrange(0, 0).len() == 0);
                return false;
            }
            let mut k: usize = 0;
            while k < ci
                invariant
                    s <= e <= c@.len(),
                    t@ == trim(c@.subrange(s as int, e as int)),
                    !starts_with(t@, "//"@),
                    find_char(t@, ':', 0) == Some(ci as int),
                    ci <= t@.len(),
                    k <= ci,
                    forall|j: int| 0 <= j < k ==> is_ascii_alnum(#[trigger] t@[j]) || t@[j] == '+'
                        || t@[j] == '-' || t@[j] == '.',
                decreases ci - k,
            {
                let ch = t[k];
                if !(is_ascii_alnum_char(ch) || ch == '+' || ch == '-' || ch == '.') {
                    assert(!scheme_chars(t@.subrange(0, ci as int))) by {
                        assert(t@.subrange(0, ci as int)[k as int] == ch);
                    }
                    return false;
                }
                k += 1;
            }
            let scheme = crate::text::slice_of(&t, 0, ci);
            let ls = lower_chars(&scheme);
            let local = eq_lit(&ls, "data") || eq_lit(&ls, "cid") || eq_lit(&ls, "blocked")
                || eq_lit(&ls, "mailto") || eq_lit(&ls, "tel") || eq_lit(&ls, "about")
                || eq_lit(&ls, "javascript");
            !local
        },
        None => false,
    }
}

// ---------------------------------------------------------------------------
// The walk
// ---------------------------------------------------------------------------

/// Spans as integer pairs.
pub open spec fn sv(v: Seq<(usize, usize)>) -> Seq<(int, int)> {
    v.map_values(|p: (usize, usize)| (p.0 as int, p.1 as int))
}

/// Every span lies inside `c`, is not empty, and is a remote URL.
pub open spec fn spans_ok(c: Seq<char>, v: Seq<(int, int)>) -> bool {
    forall|k: int|
        0 <= k < v.len() ==> 0 <= (#[trigger] v[k]).0 < v[k].1 <= c.len() && is_remote(
            c.subrange(v[k].0, v[k].1),
        )
}

/// `c[start..end]` (leading whitespace dropped, ending at the first
/// whitespace) when it is a remote URL.
pub open spec fn url_span(c: Seq<char>, start: int, end: int) -> Seq<(int, int)> {
    let e0 = if end < c.len() { end } else { c.len() as int };
    let s = run_end(c, start, e0, WS, ' ');
    let e = run_end(c, s, e0, NOT_WS, ' ');
    if s < e && is_remote(c.subrange(s, e)) {
        seq![(s, e)]
    } else {
        seq![]
    }
}

/// The candidates of a `srcset` in `c[at..ve]`, separated by commas.
pub open spec fn srcset_spans(c: Seq<char>, at: int, ve: int) -> Seq<(int, int)>
    decreases ve + 1 - at,
{
    if 0 <= at < ve && ve <= c.len() {
        let end = run_end(c, at, ve, NOT_COMMA, ' ');
        proof {
            lemma_run_end(c, at, ve, NOT_COMMA, ' ');
        }
        url_span(c, at, end) + srcset_spans(c, end + 1, ve)
    } else {
        seq![]
    }
}

/// The remote `url(...)` values of a stylesheet in `c[at..end]`.
pub open spec fn css_url_pass(c: Seq<char>, at: int, end: int) -> Seq<(int, int)>
    decreases end - at,
{
    if at < 0 || end > c.len() {
        seq![]
    } else {
        match find_ci(c, "url("@, at, end) {
            None => seq![],
            Some(p) => {
                proof {
                    lemma_find_ci(c, "url("@, at, end);
                    reveal_strlit("url(");
                }
                let k1 = run_end(c, p + 4, end, WS, ' ');
                let quoted = k1 < end && (c[k1] == '"' || c[k1] == '\'');
                let vs = if quoted {
                    k1 + 1
                } else {
                    k1
                };
                let k = if quoted {
                    run_end(c, vs, end, NOT_QUOTE, c[k1])
                } else {
                    run_end(c, vs, end, BARE_CSS, ' ')
                };
                proof {
                    lemma_run_end(c, p + 4, end, WS, ' ');
                    lemma_run_end(c, vs, end, NOT_QUOTE, c[k1]);
                    lemma_run_end(c, vs, end, BARE_CSS, ' ');
                }
                let here = if vs < k && is_remote(c.subrange(vs, k)) {
                    seq![(vs, k)]
                } else {
                    seq![]
                };
                let next = if p + 4 > k {
                    p + 4
                } else {
                    k
                };
                here + css_url_pass(c, next, end)
            },
        }
    }
}

/// The remote `@import "..."` strings of a stylesheet in `c[at..end]`.
pub open spec fn css_import_pass(c: Seq<char>, at: int, end: int) -> Seq<(int, int)>
    decreases end - at,
{
    if at < 0 || end > c.len() {
        seq![]
    } else {
        match find_ci(c, "@import"@, at, end) {
            None => seq![],
            Some(p) => {
                proof {
                    lemma_find_ci(c, "@import"@, at, end);
                    reveal_strlit("@import");
                }
                let k = run_end(c, p + 7, end, WS, ' ');
                let here = if k < end && (c[k] == '"' || c[k] == '\'') {
                    let vs = k + 1;
                    let k2 = run_end(c, vs, end, NOT_QUOTE, c[k]);
                    if vs < k2 && is_remote(c.subrange(vs, k2)) {
                        seq![(vs, k2)]
                    } else {
                        seq![]
                    }
                } else {
                    seq![]
                };
                here + css_import_pass(c, p + 7, end)
            },
        }
    }
}

/// The remote URLs of a stylesheet (an element's body or a `style=` value).
pub open spec fn css_spans(c: Seq<char>, start: int, end: int) -> Seq<(int, int)> {
    let e = if end < c.len() { end } else { c.len() as int };
    css_url_pass(c, start, e) + css_import_pass(c, start, e)
}

/// Whether this attribute of this element fetches on its own. `href` fetches on
/// `<link>` and on SVG `<image>`/`<use>`; on `<a>` it is a destination the
/// user must click.
pub open spec fn fetches(tag: Seq<char>, attr: Seq<char>) -> bool {
    if attr == "src"@ || attr == "poster"@ || attr == "background"@ || attr == "lowsrc"@ || attr
        == "dynsrc"@ || attr == "codebase"@ || attr == "xlink:href"@ {
        true
    } else if attr == "data"@ {
        tag == "object"@
    } else if attr == "href"@ {
        tag == "link"@ || tag == "image"@ || tag == "use"@
    } else {
        false
    }
}

/// The remote URLs in one attribute value `c[vs..ve]`.
pub open spec fn attr_spans(c: Seq<char>, tag: Seq<char>, attr: Seq<char>, vs: int, ve: int) -> Seq<(int, int)> {
    if attr == "srcset"@ || attr == "imagesrcset"@ {
        srcset_spans(c, vs, ve)
    } else if attr == "style"@ {
        css_spans(c, vs, ve)
    } else if fetches(tag, attr) {
        url_span(c, vs, ve)
    } else {
        seq![]
    }
}

/// An attribute that loads on its own yields the remote URL of its value, on
/// any element: `src`, `poster`, `background`, `lowsrc`, `dynsrc`,
/// `codebase` and `xlink:href`; so do `data` on `<object>` and `href` on
/// `<link>`, `<image>` and `<use>`. A link's `href` on `<a>` yields nothing.
pub proof fn law_fetching_attributes(c: Seq<char>, tag: Seq<char>, attr: Seq<char>, vs: int, ve: int)
    ensures
        (attr == "src"@ || attr == "poster"@ || attr == "background"@ || attr == "lowsrc"@ || attr == "dynsrc"@
            || attr == "codebase"@ || attr == "xlink:href"@) ==> attr_spans(c, tag, attr, vs, ve) == url_span(
            c,
            vs,
            ve,
        ),
        (attr == "data"@ && tag == "object"@) ==> attr_spans(c, tag, attr, vs, ve) == url_span(c, vs, ve),
        (attr == "href"@ && (tag == "link"@ || tag == "image"@ || tag == "use"@)) ==> attr_spans(
            c,
            tag,
            attr,
            vs,
            ve,
        ) == url_span(c, vs, ve),
        (attr == "href"@ && tag == "a"@) ==> attr_spans(c, tag, attr, vs, ve) == Seq::<(int, int)>::empty(),
{
    reveal_strlit("src");
    reveal_strlit("poster");
    reveal_strlit("background");
    reveal_strlit("lowsrc");
    reveal_strlit("dynsrc");
    reveal_strlit("codebase");
    reveal_strlit("xlink:href");
    reveal_strlit("data");
    reveal_strlit("href");
    reveal_strlit("srcset");
    reveal_strlit("imagesrcset");
    reveal_strlit("style");
    reveal_strlit("object");
    reveal_strlit("link");
    reveal_strlit("image");
    reveal_strlit("use");
    reveal_strlit("a");
    assert("srcset"@.len() == 6 && "imagesrcset"@.len() == 11 && "style"@.len() == 5);
    if attr.len() == 5 {
        assert(attr == "style"@ ==> attr[0] == 's');
        assert(attr == "image"@ ==> attr[0] == 'i');
    }
    if attr == "poster"@ {
        assert(attr[0] != "srcset"@[0]);
    }
    if attr == "lowsrc"@ {
        assert(attr[0] != "srcset"@[0]);
    }
    if attr == "dynsrc"@ {
        assert(attr[0] != "srcset"@[0]);
    }
    if attr == "href"@ {
        assert(attr[0] != "data"@[0]);
        assert(attr.len() != "src"@.len() && attr.len() != "poster"@.len() && attr.len() != "background"@.len());
        assert(attr.len() != "lowsrc"@.len() && attr.len() != "codebase"@.len() && attr.len() != "xlink:href"@.len());
        assert(!fetches(tag, attr) <==> !(tag == "link"@ || tag == "image"@ || tag == "use"@));
        assert(attr.len() != "srcset"@.len() && attr.len() != "imagesrcset"@.len() && attr.len() != "style"@.len());
        if tag == "a"@ {
            assert(tag.len() != "link"@.len() && tag.len() != "image"@.len() && tag.len() != "use"@.len());
            assert(!fetches(tag, attr));
        }
    }
}

/// The attributes of a tag from `j` up to its `>`: the remote URLs in their
/// values, and where the tag ends.
pub open spec fn attrs(c: Seq<char>, tag: Seq<char>, j: int) -> (Seq<(int, int)>, int)
    decreases c.len() - j,
{
    if j < 0 || j >= c.len() || c[j] == '>' {
        (seq![], j)
    } else if is_ascii_ws(c[j]) || c[j] == '/' {
        attrs(c, tag, j + 1)
    } else {
        let ae = run_end(c, j, c.len() as int, ATTR_NAME, ' ');
        proof {
            lemma_run_end(c, j, c.len() as int, ATTR_NAME, ' ');
        }
        if ae == j {
            attrs(c, tag, j + 1)
        } else {
            let attr = lower(c.subrange(j, ae));
            let k = run_end(c, ae, c.len() as int, WS, ' ');
            proof {
                lemma_run_end(c, ae, c.len() as int, WS, ' ');
            }
            if k >= c.len() || c[k] != '=' {
                attrs(c, tag, ae)
            } else {
                let k1 = run_end(c, k + 1, c.len() as int, WS, ' ');
                proof {
                    lemma_run_end(c, k + 1, c.len() as int, WS, ' ');
                }
                let quoted = k1 < c.len() && (c[k1] == '"' || c[k1] == '\'');
                let vs = if quoted {
                    k1 + 1
                } else {
                    k1
                };
                let ve = if quoted {
                    run_end(c, vs, c.len() as int, NOT_QUOTE, c[k1])
                } else {
                    run_end(c, vs, c.len() as int, UNQUOTED, ' ')
                };
                proof {
                    lemma_run_end(c, vs, c.len() as int, NOT_QUOTE, c[k1]);
                    lemma_run_end(c, vs, c.len() as int, UNQUOTED, ' ');
                }
                let next = if quoted && ve < c.len() {
                    ve + 1
                } else {
                    ve
                };
                let rest = attrs(c, tag, next);
                (attr_spans(c, tag, attr, vs, ve) + rest.0, rest.1)
            }
        }
    }
}

/// Every remote URL from position `i` on, in the order the walk meets them.
pub open spec fn scan(c: Seq<char>, i: int) -> Seq<(int, int)>
    decreases c.len() - i,
{
    if i < 0 || i >= c.len() {
        seq![]
    } else if c[i] != '<' {
        scan(c, i + 1)
    } else {
        let closing = i + 1 < c.len() && c[i + 1] == '/';
        let ns = if closing {
            i + 2
        } else {
            i + 1
        };
        let ne = run_end(c, ns, c.len() as int, NAME, ' ');
        proof {
            lemma_run_end(c, ns, c.len() as int, NAME, ' ');
        }
        if ne == ns {
            scan(c, i + 1)
        } else {
            let tag = lower(c.subrange(ns, ne));
            let a = attrs(c, tag, ne);
            proof {
                lemma_attrs_end(c, tag, ne);
            }
            let st = if a.1 + 1 < c.len() {
                a.1 + 1
            } else {
                c.len() as int
            };
            let en = match find_ci(c, "</style"@, st, c.len() as int) {
                Some(p) => p,
                None => c.len() as int,
            };
            proof {
                lemma_find_ci(c, "</style"@, st, c.len() as int);
            }
            let is_style = tag == "style"@ && !closing;
            let css = if is_style {
                css_spans(c, st, en)
            } else {
                seq![]
            };
            let j2 = if is_style {
                en
            } else {
                a.1
            };
            let next = if j2 > i {
                j2
            } else {
                i + 1
            };
            a.0 + css + scan(c, next)
        }
    }
}

/// A run of class `cls` from `i` that stops at `k` ends there.
proof fn lemma_run_end_at(c: Seq<char>, i: int, k: int, end: int, cls: u8, q: char)
    requires
        0 <= i <= k <= end <= c.len(),
        forall|j: int| i <= j < k ==> in_class(cls, q, #[trigger] c[j]),
        k == end || !in_class(cls, q, c[k]),
    ensures
        run_end(c, i, end, cls, q) == k,
    decreases k - i,
{
    if i < k {
        lemma_run_end_at(c, i + 1, k, end, cls, q);
    }
}

/// ` background="`, as it opens the attribute in a tag.
pub open spec fn background_lead() -> Seq<char> {
    seq![' ', 'b', 'a', 'c', 'k', 'g', 'r', 'o', 'u', 'n', 'd', '=', '"']
}

/// The walk over a document opening with an element that carries a remote
/// URL in a double-quoted `background` attribute, `<name background="u">`,
/// meets that URL first, whatever the element and whatever follows, and it
/// is among the document's remote spans.
pub proof fn law_background_url_found(name: Seq<char>, u: Seq<char>, rest: Seq<char>)
    requires
        name.len() > 0,
        forall|j: int| 0 <= j < name.len() ==> is_ascii_alnum(#[trigger] name[j]) || name[j] == '-' || name[j] == ':',
        u.len() > 0,
        forall|j: int| 0 <= j < u.len() ==> #[trigger] u[j] != '"' && !is_ascii_ws(u[j]),
        is_remote(u),
    ensures
        ({
            let c = seq!['<'] + name + background_lead() + u + seq!['"', '>'] + rest;
            let vs = 1 + name.len() as int + 13;
            let ve = vs + u.len() as int;
            &&& scan(c, 0).len() > 0
            &&& scan(c, 0)[0] == (vs, ve)
            &&& c.subrange(vs, ve) == u
            &&& attrs(c, lower(name), 1 + name.len() as int) == (seq![(vs, ve)], ve + 1)
            &&& remote_spans(c).contains((vs, ve))
        }),
{
    let lead = background_lead();
    let c = seq!['<'] + name + lead + u + seq!['"', '>'] + rest;
    let n = name.len() as int;
    let ne = 1 + n;
    let vs = ne + 13;
    let ve = vs + u.len() as int;
    let len = c.len() as int;
    assert(len == ve + 2 + rest.len());
    assert forall|j: int| 0 <= j < n implies c[1 + j] == name[j] by {}
    assert forall|j: int| 0 <= j < 13 implies c[ne + j] == lead[j] by {}
    assert forall|j: int| 0 <= j < u.len() implies c[vs + j] == u[j] by {}
    assert(c[ve] == '"' && c[ve + 1] == '>');
    assert(c[0] == '<');
    assert(c[1] == name[0]);
    assert(c[1] != '/');
    // the element's name
    assert forall|j: int| 1 <= j < ne implies in_class(NAME, ' ', #[trigger] c[j]) by {
        assert(c[j] == name[j - 1]);
    }
    lemma_run_end_at(c, 1, ne, len, NAME, ' ');
    let tag = lower(c.subrange(1, ne));
    // the attribute's name
    assert(c[ne] == ' ');
    assert forall|j: int| ne + 1 <= j < ne + 11 implies in_class(ATTR_NAME, ' ', #[trigger] c[j]) by {
        assert(c[j] == lead[j - ne]);
    }
    assert(c[ne + 11] == '=');
    lemma_run_end_at(c, ne + 1, ne + 11, len, ATTR_NAME, ' ');
    let attr = lower(c.subrange(ne + 1, ne + 11));
    assert(attr =~= "background"@) by {
        reveal_strlit("background");
        assert forall|j: int| 0 <= j < 10 implies attr[j] == "background"@[j] by {
            assert(c.subrange(ne + 1, ne + 11)[j] == lead[j + 1]);
        }
    }
    lemma_run_end_at(c, ne + 11, ne + 11, len, WS, ' ');
    assert(c[ne + 12] == '"');
    lemma_run_end_at(c, ne + 12, ne + 12, len, WS, ' ');
    // the value
    assert forall|j: int| vs <= j < ve implies in_class(NOT_QUOTE, '"', #[trigger] c[j]) by {
        assert(c[j] == u[j - vs]);
    }
    lemma_run_end_at(c, vs, ve, len, NOT_QUOTE, '"');
    assert(c.subrange(vs, ve) =~= u);
    // the URL in it
    assert(!in_class(WS, ' ', c[vs])) by {
        assert(c[vs] == u[0]);
    }
    lemma_run_end_at(c, vs, vs, ve, WS, ' ');
    assert forall|j: int| vs <= j < ve implies in_class(NOT_WS, ' ', #[trigger] c[j]) by {
        assert(c[j] == u[j - vs]);
    }
    lemma_run_end_at(c, vs, ve, ve, NOT_WS, ' ');
    assert(url_span(c, vs, ve) == seq![(vs, ve)]);
    law_fetching_attributes(c, tag, attr, vs, ve);
    assert(attrs(c, tag, ve + 1) == (Seq::<(int, int)>::empty(), ve + 1));
    assert(attrs(c, tag, ne + 1) == (seq![(vs, ve)], ve + 1));
    assert(attrs(c, tag, ne) == (seq![(vs, ve)], ve + 1));
    assert(c.subrange(1, ne) =~= name);
    assert(scan(c, 0)[0] == (vs, ve));
    assert(scan(c, 0).contains((vs, ve)));
    lemma_sorted_spans(scan(c, 0));
}

/// Text without a `<` holds no tag, so the walk finds nothing in it.
proof fn lemma_scan_no_tag(c: Seq<char>, i: int)
    requires
        0 <= i,
        forall|j: int| i <= j < c.len() ==> #[trigger] c[j] != '<',
    ensures
        scan(c, i) == Seq::<(int, int)>::empty(),
    decreases c.len() - i,
{
    if i < c.len() {
        lemma_scan_no_tag(c, i + 1);
    }
}

/// A document that is one element carrying a remote URL in a double-quoted
/// `background` attribute, followed by text, has that URL as its only remote
/// span, and stripping puts `blocked://` in its place and keeps the rest.
pub proof fn law_background_url_stripped(name: Seq<char>, u: Seq<char>, rest: Seq<char>)
    requires
        name.len() > 0,
        forall|j: int| 0 <= j < name.len() ==> is_ascii_alnum(#[trigger] name[j]) || name[j] == '-' || name[j] == ':',
        lower(name) != "style"@,
        u.len() > 0,
        forall|j: int| 0 <= j < u.len() ==> #[trigger] u[j] != '"' && !is_ascii_ws(u[j]),
        is_remote(u),
        forall|j: int| 0 <= j < rest.len() ==> #[trigger] rest[j] != '<',
    ensures
        ({
            let c = seq!['<'] + name + background_lead() + u + seq!['"', '>'] + rest;
            let vs = 1 + name.len() as int + 13;
            let ve = vs + u.len() as int;
            &&& remote_spans(c) == seq![(vs, ve)]
            &&& stripped(c) == seq!['<'] + name + background_lead() + "blocked://"@ + seq!['"', '>'] + rest
        }),
{
    let c = seq!['<'] + name + background_lead() + u + seq!['"', '>'] + rest;
    let n = name.len() as int;
    let ne = 1 + n;
    let vs = ne + 13;
    let ve = vs + u.len() as int;
    let len = c.len() as int;
    law_background_url_found(name, u, rest);
    assert forall|j: int| ve + 1 <= j < len implies #[trigger] c[j] != '<' by {
        if j > ve + 1 {
            assert(c[j] == rest[j - ve - 2]);
        }
    }
    lemma_scan_no_tag(c, ve + 1);
    // the walk's first step, as in `law_background_url_found`
    assert(c[1] == name[0]);
    assert forall|j: int| 1 <= j < ne implies in_class(NAME, ' ', #[trigger] c[j]) by {
        assert(c[j] == name[j - 1]);
    }
    lemma_run_end_at(c, 1, ne, len, NAME, ' ');
    assert(c.subrange(1, ne) =~= name);
    let w = seq![(vs, ve)];
    assert(attrs(c, lower(name), ne) == (w, ve + 1));
    assert(scan(c, 0) =~= w + Seq::<(int, int)>::empty() + scan(c, ve + 1));
    assert(scan(c, 0) =~= w);
    assert(sorted_strict(w));
    assert(same_spans(w, scan(c, 0)));
    let r = remote_spans(c);
    assert(sorted_strict(r) && same_spans(r, scan(c, 0)));
    lemma_sorted_unique(r, w);
    assert(strip_from(c, w, 1, ve) == c.subrange(ve, len));
    assert(stripped(c) == c.subrange(0, vs) + "blocked://"@ + c.subrange(ve, len));
    assert(c.subrange(0, vs) =~= seq!['<'] + name + background_lead());
    assert(c.subrange(ve, len) =~= seq!['"', '>'] + rest);
}

pub proof fn lemma_attrs_end(c: Seq<char>, tag: Seq<char>, j: int)
    requires
        0 <= j <= c.len(),
    ensures
        j <= attrs(c, tag, j).1 <= c.len(),
    decreases c.len() - j,
{
    if j < c.len() && c[j] != '>' {
        if is_ascii_ws(c[j]) || c[j] == '/' {
            lemma_attrs_end(c, tag, j + 1);
        } else {
            let ae = run_end(c, j, c.len() as int, ATTR_NAME, ' ');
            lemma_run_end(c, j, c.len() as int, ATTR_NAME, ' ');
            if ae == j {
                lemma_attrs_end(c, tag, j + 1);
            } else {
                let k = run_end(c, ae, c.len() as int, WS, ' ');
                lemma_run_end(c, ae, c.len() as int, WS, ' ');
                if k >= c.len() || c[k] != '=' {
                    lemma_attrs_end(c, tag, ae);
                } else {
                    let k1 = run_end(c, k + 1, c.len() as int, WS, ' ');
                    lemma_run_end(c, k + 1, c.len() as int, WS, ' ');
                    let quoted = k1 < c.len() && (c[k1] == '"' || c[k1] == '\'');
                    let vs = if quoted {
                        k1 + 1
                    } else {
                        k1
                    };
                    lemma_run_end(c, vs, c.len() as int, NOT_QUOTE, c[k1]);
                    lemma_run_end(c, vs, c.len() as int, UNQUOTED, ' ');
                    let ve = if quoted {
                        run_end(c, vs, c.len() as int, NOT_QUOTE, c[k1])
                    } else {
                        run_end(c, vs, c.len() as int, UNQUOTED, ' ')
                    };
                    let next = if quoted && ve < c.len() {
                        ve + 1
                    } else {
                        ve
                    };
                    lemma_attrs_end(c, tag, next);
                }
            }
        }
    }
}


// ---------------------------------------------------------------------------
// The walk, executed
// ---------------------------------------------------------------------------

proof fn lemma_sv_push(v: Seq<(usize, usize)>, p: (usize, usize))
    ensures
        sv(v.push(p)) == sv(v).push((p.0 as int, p.1 as int)),
{
    assert(sv(v.push(p)) =~= sv(v).push((p.0 as int, p.1 as int)));
}

fn url_span_exec(c: &Vec<char>, start: usize, end: usize, out: &mut Vec<(usize, usize)>)
    requires
        spans_ok(c@, sv(old(out)@)),
    ensures
        sv(final(out)@) == sv(old(out)@) + url_span(c@, start as int, end as int),
        spans_ok(c@, sv(final(out)@)),
{
    let e0 = if end < c.len() {
        end
    } else {
        c.len()
    };
    let s = run_end_exec(c, start, e0, WS, ' ');
    let e = run_end_exec(c, s, e0, NOT_WS, ' ');
    let ghost before = out@;
    if s < e && is_remote_exec(c, s, e) {
        out.push((s, e));
        proof {
            lemma_sv_push(before, (s, e));
        }
    } else {
        assert(sv(out@) + seq![] =~= sv(out@));
    }
}

fn srcset_exec(c: &Vec<char>, vs: usize, ve: usize, out: &mut Vec<(usize, usize)>)
    requires
        spans_ok(c@, sv(old(out)@)),
        ve <= c@.len(),
    ensures
        sv(final(out)@) == sv(old(out)@) + srcset_spans(c@, vs as int, ve as int),
        spans_ok(c@, sv(final(out)@)),
{
    let ghost start = sv(out@);
    let mut at = vs;
    assert(start + srcset_spans(c@, vs as int, ve as int) =~= sv(out@) + srcset_spans(c@, at as int, ve as int));
    while at < ve
        invariant
            ve <= c@.len(),
            start == sv(old(out)@),
            spans_ok(c@, sv(out@)),
            start + srcset_spans(c@, vs as int, ve as int) == sv(out@) + srcset_spans(c@, at as int, ve as int),
        decreases ve - at,
    {
        let end = run_end_exec(c, at, ve, NOT_COMMA, ' ');
        let ghost mid = sv(out@);
        url_span_exec(c, at, end, out);
        proof {
            assert(srcset_spans(c@, at as int, ve as int) == url_span(c@, at as int, end as int)
                + srcset_spans(c@, end + 1, ve as int));
            assert(mid + srcset_spans(c@, at as int, ve as int) =~= sv(out@) + srcset_spans(c@, end + 1, ve as int));
        }
        if end >= ve {
            assert(srcset_spans(c@, end + 1, ve as int) =~= seq![]);
            assert(sv(out@) + seq![] =~= sv(out@));
            return;
        }
        at = end + 1;
    }
    assert(srcset_spans(c@, at as int, ve as int) =~= seq![]);
    assert(sv(out@) + seq![] =~= sv(out@));
}

fn css_url_exec(c: &Vec<char>, from: usize, end: usize, out: &mut Vec<(usize, usize)>)
    requires
        spans_ok(c@, sv(old(out)@)),
        end <= c@.len(),
    ensures
        sv(final(out)@) == sv(old(out)@) + css_url_pass(c@, from as int, end as int),
        spans_ok(c@, sv(final(out)@)),
{
    let pat = chars_of("url(");
    proof {
        reveal_strlit("url(");
    }
    let ghost start = sv(out@);
    let mut at = from;
    assert(start + css_url_pass(c@, from as int, end as int) =~= sv(out@) + css_url_pass(c@, at as int, end as int));
    loop
        invariant
            end <= c@.len(),
            pat@ == "url("@,
            pat@.len() == 4,
            start == sv(old(out)@),
            spans_ok(c@, sv(out@)),
            start + css_url_pass(c@, from as int, end as int) == sv(out@) + css_url_pass(c@, at as int, end as int),
        decreases end - at,
    {
        match find_ci_exec(c, &pat, at, end) {
            None => {
                assert(css_url_pass(c@, at as int, end as int) =~= seq![]);
                assert(sv(out@) + seq![] =~= sv(out@));
                return;
            },
            Some(p) => {
                proof {
                    lemma_find_ci(c@, "url("@, at as int, end as int);
                }
                let k1 = run_end_exec(c, p + 4, end, WS, ' ');
                let quoted = k1 < end && (c[k1] == '"' || c[k1] == '\'');
                let vs = if quoted {
                    k1 + 1
                } else {
                    k1
                };
                let k = if quoted {
                    run_end_exec(c, vs, end, NOT_QUOTE, c[k1])
                } else {
                    run_end_exec(c, vs, end, BARE_CSS, ' ')
                };
                let ghost mid = sv(out@);
                let ghost mid_raw = out@;
                if vs < k && is_remote_exec(c, vs, k) {
                    out.push((vs, k));
                    proof {
                        lemma_sv_push(mid_raw, (vs, k));
                    }
                }
                let next = if p + 4 > k {
                    p + 4
                } else {
                    k
                };
                proof {
                    let here = if vs < k && is_remote(c@.subrange(vs as int, k as int)) {
                        seq![(vs as int, k as int)]
                    } else {
                        seq![]
                    };
                    assert(sv(out@) =~= mid + here);
                    assert(css_url_pass(c@, at as int, end as int) == here + css_url_pass(c@, next as int, end as int));
                    assert(mid + (here + css_url_pass(c@, next as int, end as int)) =~= sv(out@) + css_url_pass(c@, next as int, end as int));
                }
                at = next;
            },
        }
    }
}

fn css_import_exec(c: &Vec<char>, from: usize, end: usize, out: &mut Vec<(usize, usize)>)
    requires
        spans_ok(c@, sv(old(out)@)),
        end <= c@.len(),
    ensures
        sv(final(out)@) == sv(old(out)@) + css_import_pass(c@, from as int, end as int),
        spans_ok(c@, sv(final(out)@)),
{
    let pat = chars_of("@import");
    proof {
        reveal_strlit("@import");
    }
    let ghost start = sv(out@);
    let mut at = from;
    assert(start + css_import_pass(c@, from as int, end as int) =~= sv(out@) + css_import_pass(c@, at as int, end as int));
    loop
        invariant
            end <= c@.len(),
            pat@ == "@import"@,
            pat@.len() == 7,
            start == sv(old(out)@),
            spans_ok(c@, sv(out@)),
            start + css_import_pass(c@, from as int, end as int) == sv(out@) + css_import_pass(c@, at as int, end as int),
        decreases end - at,
    {
        match find_ci_exec(c, &pat, at, end) {
            None => {
                assert(css_import_pass(c@, at as int, end as int) =~= seq![]);
                assert(sv(out@) + seq![] =~= sv(out@));
                return;
            },
            Some(p) => {
                proof {
                    lemma_find_ci(c@, "@import"@, at as int, end as int);
                }
                let k = run_end_exec(c, p + 7, end, WS, ' ');
                let ghost mid = sv(out@);
                let ghost mid_raw = out@;
                let ghost here: Seq<(int, int)> = seq![];
                if k < end && (c[k] == '"' || c[k] == '\'') {
                    let vs = k + 1;
                    let k2 = run_end_exec(c, vs, end, NOT_QUOTE, c[k]);
                    if vs < k2 && is_remote_exec(c, vs, k2) {
                        out.push((vs, k2));
                        proof {
                            lemma_sv_push(mid_raw, (vs, k2));
                            here = seq![(vs as int, k2 as int)];
                        }
                    }
                }
                proof {
                    assert(sv(out@) =~= mid + here);
                    assert(css_import_pass(c@, at as int, end as int) == here + css_import_pass(c@, p + 7, end as int));
                    assert(mid + (here + css_import_pass(c@, p + 7, end as int)) =~= sv(out@) + css_import_pass(c@, p + 7, end as int));
                }
                at = p + 7;
            },
        }
    }
}

fn css_exec(c: &Vec<char>, start: usize, end: usize, out: &mut Vec<(usize, usize)>)
    requires
        spans_ok(c@, sv(old(out)@)),
    ensures
        sv(final(out)@) == sv(old(out)@) + css_spans(c@, start as int, end as int),
        spans_ok(c@, sv(final(out)@)),
{
    let e = if end < c.len() {
        end
    } else {
        c.len()
    };
    let ghost s0 = sv(out@);
    css_url_exec(c, start, e, out);
    css_import_exec(c, start, e, out);
    assert(sv(out@) =~= s0 + css_spans(c@, start as int, end as int));
}

fn attr_spans_exec(c: &Vec<char>, tag: &Vec<char>, attr: &Vec<char>, vs: usize, ve: usize, out: &mut Vec<(usize, usize)>)
    requires
        spans_ok(c@, sv(old(out)@)),
        ve <= c@.len(),
    ensures
        sv(final(out)@) == sv(old(out)@) + attr_spans(c@, tag@, attr@, vs as int, ve as int),
        spans_ok(c@, sv(final(out)@)),
{
    if eq_lit(attr, "srcset") || eq_lit(attr, "imagesrcset") {
        srcset_exec(c, vs, ve, out);
    } else if eq_lit(attr, "style") {
        css_exec(c, vs, ve, out);
    } else {
        let f = if eq_lit(attr, "src") || eq_lit(attr, "poster") || eq_lit(attr, "background")
            || eq_lit(attr, "lowsrc") || eq_lit(attr, "dynsrc") || eq_lit(attr, "codebase")
            || eq_lit(attr, "xlink:href") {
            true
        } else if eq_lit(attr, "data") {
            eq_lit(tag, "object")
        } else if eq_lit(attr, "href") {
            eq_lit(tag, "link") || eq_lit(tag, "image") || eq_lit(tag, "use")
        } else {
            false
        };
        if f {
            url_span_exec(c, vs, ve, out);
        } else {
            assert(sv(out@) + seq![] =~= sv(out@));
        }
    }
}

fn attrs_exec(c: &Vec<char>, tag: &Vec<char>, j0: usize, out: &mut Vec<(usize, usize)>) -> (jend: usize)
    requires
        spans_ok(c@, sv(old(out)@)),
        j0 <= c@.len(),
    ensures
        sv(final(out)@) == sv(old(out)@) + attrs(c@, tag@, j0 as int).0,
        jend as int == attrs(c@, tag@, j0 as int).1,
        spans_ok(c@, sv(final(out)@)),
{
    let ghost start = sv(out@);
    let mut j = j0;
    assert(start + attrs(c@, tag@, j0 as int).0 =~= sv(out@) + attrs(c@, tag@, j as int).0);
    let n = c.len();
    loop
        invariant
            j <= n,
            n == c@.len(),
            start == sv(old(out)@),
            spans_ok(c@, sv(out@)),
            start + attrs(c@, tag@, j0 as int).0 == sv(out@) + attrs(c@, tag@, j as int).0,
            attrs(c@, tag@, j0 as int).1 == attrs(c@, tag@, j as int).1,
        decreases n - j,
    {
        if j >= n || c[j] == '>' {
            assert(sv(out@) + seq![] =~= sv(out@));
            return j;
        }
        if is_ascii_ws_char(c[j]) || c[j] == '/' {
            j += 1;
            continue;
        }
        let ae = run_end_exec(c, j, n, ATTR_NAME, ' ');
        if ae == j {
            j += 1;
            continue;
        }
        let name = crate::text::slice_of(c, j, ae);
        let attr = lower_chars(&name);
        let k = run_end_exec(c, ae, n, WS, ' ');
        if k >= n || c[k] != '=' {
            j = ae;
            continue;
        }
        let k1 = run_end_exec(c, k + 1, n, WS, ' ');
        let quoted = k1 < n && (c[k1] == '"' || c[k1] == '\'');
        let vs = if quoted {
            k1 + 1
        } else {
            k1
        };
        let ve = if quoted {
            run_end_exec(c, vs, n, NOT_QUOTE, c[k1])
        } else {
            run_end_exec(c, vs, n, UNQUOTED, ' ')
        };
        let next = if quoted && ve < n {
            ve + 1
        } else {
            ve
        };
        let ghost mid = sv(out@);
        attr_spans_exec(c, tag, &attr, vs, ve, out);
        proof {
            let sp = attr_spans(c@, tag@, attr@, vs as int, ve as int);
            assert(attrs(c@, tag@, j as int).0 == sp + attrs(c@, tag@, next as int).0);
            assert(mid + (sp + attrs(c@, tag@, next as int).0) =~= sv(out@) + attrs(c@, tag@, next as int).0);
        }
        j = next;
    }
}

/// Every remote URL the walk over `c` meets, in the order it meets them.
fn scan_exec(c: &Vec<char>) -> (r: Vec<(usize, usize)>)
    ensures
        sv(r@) == scan(c@, 0),
        spans_ok(c@, sv(r@)),
{
    let mut out: Vec<(usize, usize)> = Vec::new();
    let n = c.len();
    let style_end = chars_of("</style");
    let mut i: usize = 0;
    assert(sv(out@) + scan(c@, 0) =~= scan(c@, 0));
    while i < n
        invariant
            i <= n,
            n == c@.len(),
            style_end@ == "</style"@,
            spans_ok(c@, sv(out@)),
            sv(out@) + scan(c@, i as int) == scan(c@, 0),
        decreases n - i,
    {
        if c[i] != '<' {
            i += 1;
            continue;
        }
        let closing = i + 1 < n && c[i + 1] == '/';
        let ns = if closing {
            i + 2
        } else {
            i + 1
        };
        let ne = run_end_exec(c, ns, n, NAME, ' ');
        if ne == ns {
            i += 1;
            continue;
        }
        let name = crate::text::slice_of(c, ns, ne);
        let tag = lower_chars(&name);
        let ghost before = sv(out@);
        let j = attrs_exec(c, &tag, ne, &mut out);
        proof {
            lemma_attrs_end(c@, tag@, ne as int);
        }
        let ghost after_attrs = sv(out@);
        let st = if j < n {
            j + 1
        } else {
            n
        };
        let is_style = eq_lit(&tag, "style") && !closing;
        let mut j2 = j;
        if is_style {
            let en = match find_ci_exec(c, &style_end, st, n) {
                Some(p) => p,
                None => n,
            };
            proof {
                lemma_find_ci(c@, "</style"@, st as int, n as int);
            }
            css_exec(c, st, en, &mut out);
            j2 = en;
        } else {
            assert(sv(out@) =~= after_attrs + seq![]);
        }
        let next = if j2 > i {
            j2
        } else {
            i + 1
        };
        proof {
            let a = attrs(c@, tag@, ne as int);
            let en = match find_ci(c@, "</style"@, st as int, n as int) {
                Some(p) => p,
                None => n as int,
            };
            let css = if is_style {
                css_spans(c@, st as int, en)
            } else {
                seq![]
            };
            assert(scan(c@, i as int) == a.0 + css + scan(c@, next as int));
            assert(sv(out@) == before + a.0 + css);
            assert(before + (a.0 + css + scan(c@, next as int)) =~= sv(out@) + scan(c@, next as int));
        }
        i = next;
    }
    assert(scan(c@, i as int) =~= seq![]);
    assert(sv(out@) + seq![] =~= sv(out@));
    out
}


// ---------------------------------------------------------------------------
// Sorted, without repeats
// ---------------------------------------------------------------------------

/// Lexicographic order on spans.
pub open spec fn span_lt(a: (int, int), b: (int, int)) -> bool {
    a.0 < b.0 || (a.0 == b.0 && a.1 < b.1)
}

/// Strictly increasing, so without repeats.
pub open spec fn sorted_strict(v: Seq<(int, int)>) -> bool {
    forall|i: int, j: int| 0 <= i < j < v.len() ==> span_lt(#[trigger] v[i], #[trigger] v[j])
}

/// The same spans, regardless of order and repetition.
pub open spec fn same_spans(a: Seq<(int, int)>, b: Seq<(int, int)>) -> bool {
    forall|x: (int, int)| a.contains(x) <==> b.contains(x)
}

/// The spans of `raw` in order, each once.
pub open spec fn sorted_spans(raw: Seq<(int, int)>) -> Seq<(int, int)> {
    choose|r: Seq<(int, int)>| sorted_strict(r) && same_spans(r, raw)
}

/// There is only one strictly sorted arrangement of a set of spans.
pub proof fn lemma_sorted_unique(a: Seq<(int, int)>, b: Seq<(int, int)>)
    requires
        sorted_strict(a),
        sorted_strict(b),
        same_spans(a, b),
    ensures
        a == b,
    decreases a.len(),
{
    if a.len() == 0 {
        if b.len() > 0 {
            assert(b.contains(b[0]));
        }
        assert(a =~= b);
    } else {
        assert(a.contains(a[0]));
        assert(b.contains(a[0]));
        let j = choose|j: int| 0 <= j < b.len() && b[j] == a[0];
        assert(b.contains(b[0]));
        assert(a.contains(b[0]));
        let i = choose|i: int| 0 <= i < a.len() && a[i] == b[0];
        if j > 0 {
            assert(span_lt(b[0], b[j]));
            if i > 0 {
                assert(span_lt(a[0], a[i]));
            }
            assert(false);
        }
        let a2 = a.drop_first();
        let b2 = b.drop_first();
        assert forall|x: (int, int)| a2.contains(x) <==> b2.contains(x) by {
            if a2.contains(x) {
                let k = choose|k: int| 0 <= k < a2.len() && a2[k] == x;
                assert(span_lt(a[0], a[k + 1]));
                assert(a.contains(x));
                let m = choose|m: int| 0 <= m < b.len() && b[m] == x;
                assert(m != 0);
                assert(b2[m - 1] == x);
            }
            if b2.contains(x) {
                let k = choose|k: int| 0 <= k < b2.len() && b2[k] == x;
                assert(span_lt(b[0], b[k + 1]));
                assert(b.contains(x));
                let m = choose|m: int| 0 <= m < a.len() && a[m] == x;
                assert(m != 0);
                assert(a2[m - 1] == x);
            }
        }
        assert(sorted_strict(a2)) by {
            assert forall|i: int, j: int| 0 <= i < j < a2.len() implies span_lt(#[trigger] a2[i], #[trigger] a2[j]) by {
                assert(span_lt(a[i + 1], a[j + 1]));
            }
        }
        assert(sorted_strict(b2)) by {
            assert forall|i: int, j: int| 0 <= i < j < b2.len() implies span_lt(#[trigger] b2[i], #[trigger] b2[j]) by {
                assert(span_lt(b[i + 1], b[j + 1]));
            }
        }
        lemma_sorted_unique(a2, b2);
        assert(a =~= seq![a[0]] + a2);
        assert(b =~= seq![b[0]] + b2);
    }
}

fn span_lt_exec(a: (usize, usize), b: (usize, usize)) -> (r: bool)
    ensures
        r == span_lt((a.0 as int, a.1 as int), (b.0 as int, b.1 as int)),
{
    a.0 < b.0 || (a.0 == b.0 && a.1 < b.1)
}

/// `raw` sorted, with repeats dropped.
fn sort_dedup(raw: &Vec<(usize, usize)>) -> (r: Vec<(usize, usize)>)
    ensures
        sv(r@) == sorted_spans(sv(raw@)),
        sorted_strict(sv(r@)),
        same_spans(sv(r@), sv(raw@)),
{
    let mut out: Vec<(usize, usize)> = Vec::new();
    let mut i: usize = 0;
    while i < raw.len()
        invariant
            i <= raw@.len(),
            sorted_strict(sv(out@)),
            forall|x: (int, int)| sv(out@).contains(x) <==> sv(raw@).take(i as int).contains(x),
        decreases raw@.len() - i,
    {
        let x = raw[i];
        let ghost xi = (x.0 as int, x.1 as int);
        let ghost before = sv(out@);
        let mut p: usize = 0;
        while p < out.len() && span_lt_exec(out[p], x)
            invariant
                p <= out@.len(),
                sv(out@) == before,
                xi == (x.0 as int, x.1 as int),
                forall|k: int| 0 <= k < p ==> span_lt(#[trigger] sv(out@)[k], xi),
            decreases out@.len() - p,
        {
            assert(sv(out@)[p as int] == (out@[p as int].0 as int, out@[p as int].1 as int));
            p += 1;
        }
        assert(p < out@.len() ==> sv(out@)[p as int] == (out@[p as int].0 as int, out@[p as int].1 as int));
        assert(p < out@.len() ==> !span_lt(before[p as int], xi));
        assert(sv(raw@).take(i + 1 as int) =~= sv(raw@).take(i as int).push(xi));
        if p < out.len() && out[p].0 == x.0 && out[p].1 == x.1 {
            assert(before[p as int] == xi);
            assert forall|y: (int, int)| sv(out@).contains(y) <==> sv(raw@).take(i + 1 as int).contains(y) by {
                if y == xi {
                    assert(sv(out@).contains(y));
                }
            }
        } else {
            assert(p < out@.len() ==> before[p as int] != xi);
            out.insert(p, x);
            proof {
                let now = sv(out@);
                assert(now =~= before.insert(p as int, xi));
                assert forall|a: int, b: int| 0 <= a < b < now.len() implies span_lt(#[trigger] now[a], #[trigger] now[b]) by {
                    if a < p && b < p {
                        assert(span_lt(before[a], before[b]));
                    } else if a < p && b == p {
                    } else if a < p {
                        assert(span_lt(before[a], before[b - 1]));
                    } else if a == p {
                        assert(now[a] == xi);
                        assert(now[b] == before[b - 1]);
                        if b - 1 > p {
                            assert(span_lt(before[p as int], before[b - 1]));
                        }
                        assert(span_lt(xi, before[b - 1]));
                    } else {
                        assert(span_lt(before[a - 1], before[b - 1]));
                    }
                }
                assert forall|y: (int, int)| now.contains(y) <==> sv(raw@).take(i + 1 as int).contains(y) by {
                    let t1 = sv(raw@).take(i + 1 as int);
                    let t0 = sv(raw@).take(i as int);
                    if t1.contains(y) {
                        let k = choose|k: int| 0 <= k < t1.len() && t1[k] == y;
                        if k < i {
                            assert(t0[k] == y);
                        }
                    }
                    if t0.contains(y) {
                        let k = choose|k: int| 0 <= k < t0.len() && t0[k] == y;
                        assert(t1[k] == y);
                    }
                    if y == xi {
                        assert(t1[i as int] == xi);
                    }
                    assert(t1.contains(y) <==> (t0.contains(y) || y == xi));
                    if now.contains(y) && y != xi {
                        let k = choose|k: int| 0 <= k < now.len() && now[k] == y;
                        if k < p {
                            assert(before[k] == y);
                        } else {
                            assert(before[k - 1] == y);
                        }
                        assert(before.contains(y));
                    }
                    if before.contains(y) {
                        let k = choose|k: int| 0 <= k < before.len() && before[k] == y;
                        if k < p {
                            assert(now[k] == y);
                        } else {
                            assert(now[k + 1] == y);
                        }
                    }
                    if y == xi {
                        assert(now[p as int] == xi);
                    }
                }
            }
        }
        i += 1;
    }
    assert(sv(raw@).take(raw@.len() as int) =~= sv(raw@));
    proof {
        let r = sv(out@);
        assert(sorted_strict(r) && same_spans(r, sv(raw@)));
        let w = sorted_spans(sv(raw@));
        assert(sorted_strict(w) && same_spans(w, sv(raw@)));
        assert(same_spans(r, w));
        lemma_sorted_unique(r, w);
    }
    out
}

// ---------------------------------------------------------------------------
// Detecting and stripping
// ---------------------------------------------------------------------------

/// Where `x` goes in a strictly sorted `s`: after every span below it.
proof fn lemma_insert_point(s: Seq<(int, int)>, x: (int, int)) -> (p: int)
    requires
        sorted_strict(s),
    ensures
        0 <= p <= s.len(),
        forall|k: int| 0 <= k < p ==> span_lt(#[trigger] s[k], x),
        forall|k: int| p <= k < s.len() ==> !span_lt(#[trigger] s[k], x),
    decreases s.len(),
{
    if s.len() == 0 {
        0
    } else {
        let t = s.drop_last();
        assert forall|i: int, j: int| 0 <= i < j < t.len() implies span_lt(#[trigger] t[i], #[trigger] t[j]) by {
            assert(t[i] == s[i] && t[j] == s[j]);
        }
        let p0 = lemma_insert_point(t, x);
        if p0 == t.len() && span_lt(s[s.len() - 1], x) {
            assert forall|k: int| 0 <= k < s.len() implies span_lt(#[trigger] s[k], x) by {
                if k < t.len() {
                    assert(s[k] == t[k]);
                }
            }
            s.len() as int
        } else {
            assert forall|k: int| p0 <= k < s.len() implies !span_lt(#[trigger] s[k], x) by {
                if k < t.len() {
                    assert(s[k] == t[k]);
                } else if p0 < t.len() {
                    assert(s[p0] == t[p0]);
                    assert(span_lt(s[p0], s[k]));
                }
            }
            assert forall|k: int| 0 <= k < p0 implies span_lt(#[trigger] s[k], x) by {
                assert(s[k] == t[k]);
            }
            p0
        }
    }
}

/// Every list of spans has a strictly sorted arrangement of the same spans.
proof fn lemma_sorted_spans(raw: Seq<(int, int)>)
    ensures
        sorted_strict(sorted_spans(raw)),
        same_spans(sorted_spans(raw), raw),
    decreases raw.len(),
{
    if raw.len() == 0 {
        let w = Seq::<(int, int)>::empty();
        assert(same_spans(w, raw));
        assert(sorted_strict(w));
    } else {
        let t = raw.drop_last();
        let x = raw.last();
        lemma_sorted_spans(t);
        let s0 = sorted_spans(t);
        assert forall|y: (int, int)| raw.contains(y) <==> (t.contains(y) || y == x) by {
            if raw.contains(y) {
                let k = choose|k: int| 0 <= k < raw.len() && raw[k] == y;
                if k < t.len() {
                    assert(t[k] == y);
                }
            }
            if t.contains(y) {
                let k = choose|k: int| 0 <= k < t.len() && t[k] == y;
                assert(raw[k] == y);
            }
            if y == x {
                assert(raw[raw.len() - 1] == y);
            }
        }
        if s0.contains(x) {
            assert(same_spans(s0, raw));
        } else {
            let p = lemma_insert_point(s0, x);
            let w = s0.take(p) + seq![x] + s0.skip(p);
            assert(w.len() == s0.len() + 1);
            assert forall|k: int| 0 <= k < w.len() implies #[trigger] w[k] == (if k < p {
                s0[k]
            } else if k == p {
                x
            } else {
                s0[k - 1]
            }) by {}
            assert forall|i: int, j: int| 0 <= i < j < w.len() implies span_lt(#[trigger] w[i], #[trigger] w[j]) by {
                if j < p {
                    assert(span_lt(s0[i], s0[j]));
                } else if j == p {
                } else if i < p {
                    assert(span_lt(s0[i], x));
                    assert(!span_lt(s0[j - 1], x));
                    assert(s0[j - 1] != x) by {
                        assert(s0.contains(s0[j - 1]));
                    }
                } else if i == p {
                    assert(!span_lt(s0[j - 1], x));
                    assert(s0[j - 1] != x) by {
                        assert(s0.contains(s0[j - 1]));
                    }
                } else {
                    assert(span_lt(s0[i - 1], s0[j - 1]));
                }
            }
            assert forall|y: (int, int)| w.contains(y) <==> raw.contains(y) by {
                if w.contains(y) {
                    let k = choose|k: int| 0 <= k < w.len() && w[k] == y;
                    if k < p {
                        assert(s0.contains(s0[k]));
                    } else if k > p {
                        assert(s0.contains(s0[k - 1]));
                    }
                }
                if s0.contains(y) {
                    let k = choose|k: int| 0 <= k < s0.len() && s0[k] == y;
                    if k < p {
                        assert(w[k] == y);
                    } else {
                        assert(w[k + 1] == y);
                    }
                }
                if y == x {
                    assert(w[p] == y);
                }
            }
            assert(sorted_strict(w) && same_spans(w, raw));
        }
    }
}

/// The remote URLs of a document, as character positions, in order and each
/// once.
pub open spec fn remote_spans(c: Seq<char>) -> Seq<(int, int)> {
    sorted_spans(scan(c, 0))
}

/// The remote URLs of `html` as character ranges, sorted and each once.
fn remote_char_spans(html: &str) -> (r: Vec<(usize, usize)>)
    ensures
        sv(r@) == remote_spans(html@),
        sorted_strict(sv(r@)),
        spans_ok(html@, sv(r@)),
{
    let c = chars_of(html);
    let raw = scan_exec(&c);
    let r = sort_dedup(&raw);
    proof {
        let w = sv(r@);
        assert(same_spans(w, sv(raw@)));
        assert forall|k: int| 0 <= k < w.len() implies 0 <= (#[trigger] w[k]).0 < w[k].1 <= c@.len()
            && is_remote(c@.subrange(w[k].0, w[k].1)) by {
            assert(w.contains(w[k]));
            assert(sv(raw@).contains(w[k]));
        }
    }
    r
}

/// Where the `i`-th character of `c` starts in its UTF-8 bytes.
pub open spec fn byte_at(c: Seq<char>, i: int) -> int {
    utf8_len(c.take(i)) as int
}

/// The remote URLs of a document as byte ranges into its UTF-8 text.
pub open spec fn byte_spans(c: Seq<char>) -> Seq<(int, int)> {
    remote_spans(c).map_values(|p: (int, int)| (byte_at(c, p.0), byte_at(c, p.1)))
}

/// Later characters start at later bytes.
pub proof fn lemma_byte_at_strict(c: Seq<char>, i: int, j: int)
    requires
        0 <= i < j <= c.len(),
    ensures
        byte_at(c, i) < byte_at(c, j),
{
    let mid = c.subrange(i, j);
    assert(c.take(j) =~= c.take(i) + mid);
    lemma_utf8_len_concat(c.take(i), mid);
    assert(utf8_len(mid) >= 1);
}

/// vstd's UTF-8 encoding of a concatenation is the concatenation of the
/// encodings.
pub proof fn lemma_encode_concat(a: Seq<char>, b: Seq<char>)
    ensures
        encode_utf8(a + b) == encode_utf8(a) + encode_utf8(b),
    decreases a.len(),
{
    if a.len() == 0 {
        assert(a + b =~= b);
        assert(encode_utf8(a) =~= Seq::<u8>::empty());
        assert(encode_utf8(a) + encode_utf8(b) =~= encode_utf8(b));
    } else {
        assert((a + b).drop_first() =~= a.drop_first() + b);
        assert((a + b)[0] == a[0]);
        lemma_encode_concat(a.drop_first(), b);
        assert(encode_utf8(a + b) =~= encode_utf8(a) + encode_utf8(b));
    }
}

/// The bytes between the starts of characters `a` and `e` are the UTF-8 of
/// exactly the characters `c[a..e]`.
pub proof fn lemma_byte_range(c: Seq<char>, a: int, e: int)
    requires
        0 <= a <= e <= c.len(),
    ensures
        byte_at(c, e) <= encode_utf8(c).len(),
        encode_utf8(c).subrange(byte_at(c, a), byte_at(c, e)) == encode_utf8(c.subrange(a, e)),
{
    let x = c.take(a);
    let m = c.subrange(a, e);
    let y = c.skip(e);
    assert(c =~= x + m + y);
    assert(c.take(e) =~= x + m);
    lemma_encode_concat(x, m);
    lemma_encode_concat(x + m, y);
    lemma_utf8_len_encode(x);
    lemma_utf8_len_encode(x + m);
    lemma_utf8_len_encode(c);
    lemma_utf8_len_prefix(c, e);
    assert(encode_utf8(c).subrange(byte_at(c, a), byte_at(c, e)) =~= encode_utf8(m));
}

/// Every URL in `html` that would cause a fetch from a remote host, as byte
/// ranges `(start, end)` into `html`: sorted and without repeats, and each
/// delimiting exactly the UTF-8 text of a remote URL of the document.
pub fn remote_url_spans(html: &str) -> (r: Vec<(usize, usize)>)
    ensures
        sv(r@) == byte_spans(html@),
        sorted_strict(sv(r@)),
        forall|k: int|
            0 <= k < r@.len() ==> {
                let (a, e) = #[trigger] remote_spans(html@)[k];
                &&& 0 <= a < e <= html@.len()
                &&& is_remote(html@.subrange(a, e))
                &&& r@[k].0 < r@[k].1 <= encode_utf8(html@).len()
                &&& encode_utf8(html@).subrange(r@[k].0 as int, r@[k].1 as int) == encode_utf8(
                    html@.subrange(a, e),
                )
            },
{
    let c = chars_of(html);
    let cs = remote_char_spans(html);
    let bytes = html.as_bytes();
    let nb = bytes.len();
    proof {
        assert(bytes@ == encode_utf8(html@));
        lemma_utf8_len_encode(html@);
    }
    let mut off: Vec<usize> = Vec::new();
    off.push(0);
    assert(c@.take(0) =~= Seq::<char>::empty());
    let mut i: usize = 0;
    let mut acc: usize = 0;
    while i < c.len()
        invariant
            i <= c@.len(),
            c@ == html@,
            nb == utf8_len(c@),
            off@.len() == i + 1,
            acc == utf8_len(c@.take(i as int)),
            forall|j: int| 0 <= j <= i ==> #[trigger] off@[j] == byte_at(c@, j),
        decreases c@.len() - i,
    {
        proof {
            lemma_utf8_len_take_next(c@, i as int);
            lemma_utf8_len_prefix(c@, i + 1);
        }
        acc = acc + char_width_exec(c[i]);
        off.push(acc);
        i += 1;
    }
    let mut r: Vec<(usize, usize)> = Vec::new();
    let mut k: usize = 0;
    while k < cs.len()
        invariant
            k <= cs@.len(),
            c@ == html@,
            off@.len() == c@.len() + 1,
            forall|j: int| 0 <= j <= c@.len() ==> #[trigger] off@[j] == byte_at(c@, j),
            sv(cs@) == remote_spans(html@),
            spans_ok(html@, sv(cs@)),
            r@.len() == k,
            forall|j: int| 0 <= j < k ==> #[trigger] sv(r@)[j] == byte_spans(html@)[j],
        decreases cs@.len() - k,
    {
        let (a, e) = cs[k];
        assert(sv(cs@)[k as int] == (a as int, e as int));
        let ghost before = r@;
        let oa = off[a];
        let oe = off[e];
        assert(oa == byte_at(c@, a as int) && oe == byte_at(c@, e as int));
        r.push((oa, oe));
        proof {
            assert(byte_spans(html@)[k as int] == (byte_at(c@, a as int), byte_at(c@, e as int)));
            assert forall|j: int| 0 <= j < k + 1 implies #[trigger] sv(r@)[j] == byte_spans(html@)[j] by {
                if j < k {
                    assert(r@[j] == before[j]);
                    assert(sv(before)[j] == byte_spans(html@)[j]);
                } else {
                    assert(r@[j] == (oa, oe));
                }
            }
        }
        k += 1;
    }
    proof {
        let w = remote_spans(html@);
        assert(sv(r@) =~= byte_spans(html@));
        assert forall|x: int, y: int| 0 <= x < y < sv(r@).len() implies span_lt(
            #[trigger] sv(r@)[x],
            #[trigger] sv(r@)[y],
        ) by {
            assert(span_lt(w[x], w[y]));
            assert(sv(cs@)[x] == w[x] && sv(cs@)[y] == w[y]);
            if w[x].0 < w[y].0 {
                lemma_byte_at_strict(html@, w[x].0, w[y].0);
            } else {
                lemma_byte_at_strict(html@, w[x].1, w[y].1);
            }
        }
        assert forall|k: int| 0 <= k < r@.len() implies {
            let (a, e) = #[trigger] remote_spans(html@)[k];
            &&& 0 <= a < e <= html@.len()
            &&& is_remote(html@.subrange(a, e))
            &&& r@[k].0 < r@[k].1 <= encode_utf8(html@).len()
            &&& encode_utf8(html@).subrange(r@[k].0 as int, r@[k].1 as int) == encode_utf8(
                html@.subrange(a, e),
            )
        } by {
            let (a, e) = w[k];
            assert(sv(cs@)[k] == w[k]);
            assert(sv(r@)[k] == byte_spans(html@)[k]);
            lemma_byte_at_strict(html@, a, e);
            lemma_byte_range(html@, a, e);
        }
    }
    r
}

/// `c[at..]` with each span from the `k`-th on replaced by `blocked://`; a span
/// that starts inside one already replaced is skipped.
pub open spec fn strip_from(c: Seq<char>, sp: Seq<(int, int)>, k: int, at: int) -> Seq<char>
    decreases sp.len() - k,
{
    if k < 0 || k >= sp.len() {
        c.subrange(at, c.len() as int)
    } else if sp[k].0 < at {
        strip_from(c, sp, k + 1, at)
    } else {
        c.subrange(at, sp[k].0) + "blocked://"@ + strip_from(c, sp, k + 1, sp[k].1)
    }
}

/// A document with its remote references neutralized.
pub open spec fn stripped(c: Seq<char>) -> Seq<char> {
    strip_from(c, remote_spans(c), 0, 0)
}

/// Neutralize remote resource references so nothing is fetched while remote
/// content is blocked. Only resource-loading references are rewritten; `<a
/// href>` links are left as they are.
pub fn strip_remote(html: &str) -> (r: String)
    ensures
        r@ == stripped(html@),
{
    let c = chars_of(html);
    let spans = remote_char_spans(html);
    let ghost sp = sv(spans@);
    let mut out: Vec<char> = Vec::new();
    let mut at: usize = 0;
    let mut k: usize = 0;
    assert(out@ + strip_from(c@, sp, 0, 0) =~= strip_from(c@, sp, 0, 0));
    while k < spans.len()
        invariant
            k <= spans@.len(),
            at <= c@.len(),
            sp == sv(spans@),
            sp == remote_spans(c@),
            c@ == html@,
            spans_ok(c@, sp),
            out@ + strip_from(c@, sp, k as int, at as int) == strip_from(c@, sp, 0, 0),
        decreases spans@.len() - k,
    {
        let (s, e) = spans[k];
        assert(sp[k as int] == (s as int, e as int));
        if s < at {
            k += 1;
            continue;
        }
        let ghost before = out@;
        push_range(&mut out, &c, at, s);
        push_str(&mut out, "blocked://");
        proof {
            assert(before + strip_from(c@, sp, k as int, at as int) =~= out@ + strip_from(c@, sp, k + 1, e as int));
        }
        at = e;
        k += 1;
    }
    push_range(&mut out, &c, at, c.len());
    string_of(&out)
}

/// Whether the document references remote (network-reachable) resources.
///
/// This decides whether the "remote content was blocked" banner appears and
/// nothing more: the blocking itself follows the user's setting.
///
/// The banner shows exactly when the stripper would rewrite something.
pub fn has_remote_resources(html: &str) -> (r: bool)
    ensures
        r == (remote_spans(html@).len() > 0),
        r == (stripped(html@) != html@),
{
    let spans = remote_char_spans(html);
    proof {
        if spans.len() > 0 {
            lemma_strip_changes(html@, remote_spans(html@));
        } else {
            law_strip_keeps_self_contained(html@);
        }
    }
    spans.len() > 0
}

/// Text that reads as a prefix of `blocked://`, or begins with it, is no
/// remote URL: its scheme, if it has one, is `blocked`.
proof fn lemma_blocked_not_remote(u: Seq<char>)
    requires
        u.len() >= 1,
        forall|i: int| 0 <= i < u.len() && i < 10 ==> u[i] == #[trigger] "blocked://"@[i],
    ensures
        !is_remote(u),
{
    reveal_strlit("blocked://");
    reveal_strlit("blocked");
    let pfx = "blocked://"@;
    assert(u[0] == pfx[0]);
    lemma_trim_start_at(u, 0);
    assert(u.subrange(0, u.len() as int) =~= u);
    let b = lemma_trim_end_cut(u);
    let t = trim(u);
    assert(t == u.take(b));
    assert(t[0] == 'b');
    assert(!starts_with(t, "//"@)) by {
        reveal_strlit("//");
        if starts_with(t, "//"@) {
            assert(t.subrange(0, 2)[0] == '/');
        }
    }
    lemma_find_char(t, ':', 0);
    if b >= 8 {
        assert forall|j: int| 0 <= j < 7 implies t[j] != ':' by {
            assert(t[j] == pfx[j]);
        }
        assert(t[7] == pfx[7]);
        let scheme = t.subrange(0, 7);
        assert forall|j: int| 0 <= j < 7 implies scheme[j] == "blocked"@[j] by {
            assert(t[j] == pfx[j]);
        }
        assert(scheme =~= "blocked"@);
        assert(lower(scheme) =~= "blocked"@);
    } else {
        assert forall|j: int| 0 <= j < t.len() implies t[j] != ':' by {
            assert(t[j] == pfx[j]);
        }
    }
}

/// Stripping a document with a remote URL changes it: the first URL's place
/// now reads `blocked://`, which no remote URL does.
proof fn lemma_strip_changes(c: Seq<char>, sp: Seq<(int, int)>)
    requires
        sp.len() > 0,
        spans_ok(c, sp),
    ensures
        strip_from(c, sp, 0, 0) != c,
{
    reveal_strlit("blocked://");
    let pfx = "blocked://"@;
    let s0 = sp[0].0;
    let e0 = sp[0].1;
    let d = strip_from(c, sp, 0, 0);
    assert(d == c.subrange(0, s0) + pfx + strip_from(c, sp, 1, e0));
    if d == c {
        let u = c.subrange(s0, e0);
        assert forall|i: int| 0 <= i < u.len() && i < 10 implies u[i] == #[trigger] pfx[i] by {
            assert(d[s0 + i] == pfx[i]);
        }
        lemma_blocked_not_remote(u);
    }
}

/// A document in which the walk finds nothing remote is left exactly as it
/// was by the stripper: blocking never rewrites self-contained mail.
pub proof fn law_strip_keeps_self_contained(c: Seq<char>)
    requires
        remote_spans(c).len() == 0,
    ensures
        stripped(c) == c,
{
    assert(c.subrange(0, c.len() as int) =~= c);
}

} // verus!

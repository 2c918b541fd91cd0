//! The documents the reader shows: each message body in its own sandboxed
//! frame carrying a Content-Security-Policy, and the conversation wrapper
//! around those frames.

use vstd::prelude::*;
use crate::escape::{attr_escape, body_doc, body_html, esc_attr, esc_text, escape_text_chars};
use crate::remote::{stripped, strip_remote};
use crate::text::{
    chars_of, contains, contains_str, decimal, decimal_chars, find_char, find_char_exec,
    is_ascii_ws, is_ascii_ws_char, lemma_contains_mid, lemma_find_char, lower, lower_chars,
    matches_at, matches_at_exec, push_all, push_range, push_str, string_of,
};

verus! {

/// What a message frame may load when remote content is allowed.
pub const POLICY_OPEN: &'static str = "default-src 'none'; img-src http: https: data: cid:; style-src 'unsafe-inline' http: https: data:; font-src http: https: data:; media-src http: https: data:";

/// What a message frame may load when remote content is blocked: inline
/// styles and `data:`/`cid:` only.
pub const POLICY_CLOSED: &'static str = "default-src 'none'; img-src data: cid:; style-src 'unsafe-inline' data:; font-src data:; media-src data:";

pub open spec fn policy(allow_remote: bool) -> Seq<char> {
    if allow_remote {
        POLICY_OPEN@
    } else {
        POLICY_CLOSED@
    }
}

/// A message that brings no CSS of its own gets comfortable padding.
pub open spec fn unstyled(l: Seq<char>) -> bool {
    !contains(l, "<style"@) && !contains(l, "style="@)
}

/// The theme, referrer and content-policy `<meta>` block put into a message.
pub open spec fn csp_meta(html: Seq<char>, allow_remote: bool, dark: bool) -> Seq<char> {
    let supported = if dark {
        "dark light"@
    } else {
        "light dark"@
    };
    let scheme = if dark {
        "dark"@
    } else {
        "light"@
    };
    let pad = if unstyled(lower(html)) {
        "body{margin:0;padding:16px;box-sizing:border-box;}"@
    } else {
        seq![]
    };
    "<meta name=\"color-scheme\" content=\""@ + supported + "\"><style>:root{color-scheme:"@ + scheme
        + ";}"@ + pad
        + "@media print{:root{color-scheme:light;}html,body{background:#fff !important;}}</style>"@
        + "<meta name=\"referrer\" content=\"no-referrer\"><meta http-equiv=\"Content-Security-Policy\" content=\""@
        + policy(allow_remote) + "\">"@
}

/// Whether the start tag `name` (lower-cased, `<` included) opens at `i` of
/// `l`: the name is followed by `>` or whitespace, so `<header` is no `<head`.
pub open spec fn tag_at(l: Seq<char>, name: Seq<char>, i: int) -> bool {
    &&& matches_at(l, name, i)
    &&& i + name.len() < l.len()
    &&& (l[i + name.len()] == '>' || is_ascii_ws(l[i + name.len()]))
}

/// The first index at or after `from` where the start tag `name` opens.
pub open spec fn find_tag(l: Seq<char>, name: Seq<char>, from: int) -> Option<int>
    decreases l.len() + 1 - from,
{
    if from < 0 || from + name.len() >= l.len() {
        None
    } else if tag_at(l, name, from) {
        Some(from)
    } else {
        find_tag(l, name, from + 1)
    }
}

fn find_tag_exec(l: &Vec<char>, name: &Vec<char>) -> (r: Option<usize>)
    ensures
        match r {
            Some(i) => find_tag(l@, name@, 0) == Some(i as int),
            None => find_tag(l@, name@, 0) is None,
        },
{
    let mut i: usize = 0;
    while i < l.len() && name.len() < l.len() - i
        invariant
            i <= l.len(),
            find_tag(l@, name@, 0) == find_tag(l@, name@, i as int),
        decreases l.len() - i,
    {
        let k = i + name.len();
        if matches_at_exec(l, name, i) && (l[k] == '>' || is_ascii_ws_char(l[k])) {
            return Some(i);
        }
        i += 1;
    }
    None
}

/// Where the `<meta>` block goes: just inside `<head ...>`, else a new head
/// just inside `<html ...>`, else a whole new document around the fragment.
pub open spec fn csp_doc(html: Seq<char>, allow_remote: bool, dark: bool) -> Seq<char> {
    let l = lower(html);
    let meta = csp_meta(html, allow_remote, dark);
    let in_head = match find_tag(l, "<head"@, 0) {
        Some(h) => find_char(html, '>', h),
        None => None,
    };
    let in_html = match find_tag(l, "<html"@, 0) {
        Some(h) => find_char(html, '>', h),
        None => None,
    };
    match in_head {
        Some(c) => html.subrange(0, c + 1) + meta + html.subrange(c + 1, html.len() as int),
        None => match in_html {
            Some(c) => html.subrange(0, c + 1) + "<head>"@ + meta + "</head>"@ + html.subrange(
                c + 1,
                html.len() as int,
            ),
            None => "<!doctype html><html><head>"@ + meta + "</head><body>"@ + html
                + "</body></html>"@,
        },
    }
}

fn csp_meta_exec(html: &Vec<char>, l: &Vec<char>, allow_remote: bool, dark: bool) -> (r: Vec<char>)
    requires
        l@ == lower(html@),
    ensures
        r@ == csp_meta(html@, allow_remote, dark),
{
    let mut m: Vec<char> = Vec::new();
    push_str(&mut m, "<meta name=\"color-scheme\" content=\"");
    push_str(&mut m, if dark { "dark light" } else { "light dark" });
    push_str(&mut m, "\"><style>:root{color-scheme:");
    push_str(&mut m, if dark { "dark" } else { "light" });
    push_str(&mut m, ";}");
    if !contains_str(l, "<style") && !contains_str(l, "style=") {
        push_str(&mut m, "body{margin:0;padding:16px;box-sizing:border-box;}");
    }
    push_str(&mut m, "@media print{:root{color-scheme:light;}html,body{background:#fff !important;}}</style>");
    push_str(&mut m, "<meta name=\"referrer\" content=\"no-referrer\"><meta http-equiv=\"Content-Security-Policy\" content=\"");
    push_str(&mut m, if allow_remote { POLICY_OPEN } else { POLICY_CLOSED });
    push_str(&mut m, "\">");
    assert(m@ =~= csp_meta(html@, allow_remote, dark));
    m
}

/// Inject the theme and Content-Security-Policy `<meta>` into a message. When
/// remote content is not allowed, only inline styles and `data:`/`cid:` URIs
/// may load.
///
/// `allow_remote` is the user's own choice, never the detector's verdict, so
/// the engine refuses remote fetches even where the detector missed one.
pub fn inject_csp(html: &str, allow_remote: bool, dark: bool) -> (r: String)
    ensures
        r@ == csp_doc(html@, allow_remote, dark),
{
    let c = chars_of(html);
    let l = lower_chars(&c);
    let meta = csp_meta_exec(&c, &l, allow_remote, dark);
    let head_pat = chars_of("<head");
    let html_pat = chars_of("<html");
    let n = c.len();
    let in_head = match find_tag_exec(&l, &head_pat) {
        Some(h) => find_char_exec(&c, '>', h),
        None => None,
    };
    match in_head {
        Some(cl) => {
            proof {
                let h = find_tag(l@, "<head"@, 0)->Some_0;
                lemma_find_char(c@, '>', h);
            }
            let mut out: Vec<char> = Vec::new();
            push_range(&mut out, &c, 0, cl + 1);
            push_all(&mut out, &meta);
            push_range(&mut out, &c, cl + 1, n);
            return string_of(&out);
        },
        None => {},
    }
    let in_html = match find_tag_exec(&l, &html_pat) {
        Some(h) => find_char_exec(&c, '>', h),
        None => None,
    };
    let mut out: Vec<char> = Vec::new();
    match in_html {
        Some(cl) => {
            proof {
                let h = find_tag(l@, "<html"@, 0)->Some_0;
                lemma_find_char(c@, '>', h);
            }
            push_range(&mut out, &c, 0, cl + 1);
            push_str(&mut out, "<head>");
            push_all(&mut out, &meta);
            push_str(&mut out, "</head>");
            push_range(&mut out, &c, cl + 1, n);
        },
        None => {
            push_str(&mut out, "<!doctype html><html><head>");
            push_all(&mut out, &meta);
            push_str(&mut out, "</head><body>");
            push_all(&mut out, &c);
            push_str(&mut out, "</body></html>");
        },
    }
    string_of(&out)
}

/// Whatever the document, the content policy the user's choice calls for is
/// in it.
pub proof fn law_policy_always_injected(html: Seq<char>, allow_remote: bool, dark: bool)
    ensures
        contains(csp_doc(html, allow_remote, dark), policy(allow_remote)),
{
    let meta = csp_meta(html, allow_remote, dark);
    let supported = if dark {
        "dark light"@
    } else {
        "light dark"@
    };
    let scheme = if dark {
        "dark"@
    } else {
        "light"@
    };
    let pad = if unstyled(lower(html)) {
        "body{margin:0;padding:16px;box-sizing:border-box;}"@
    } else {
        seq![]
    };
    let before = "<meta name=\"color-scheme\" content=\""@ + supported + "\"><style>:root{color-scheme:"@
        + scheme + ";}"@ + pad
        + "@media print{:root{color-scheme:light;}html,body{background:#fff !important;}}</style>"@
        + "<meta name=\"referrer\" content=\"no-referrer\"><meta http-equiv=\"Content-Security-Policy\" content=\""@;
    let p = policy(allow_remote);
    assert(meta =~= before + p + "\">"@);
    let d = csp_doc(html, allow_remote, dark);
    let l = lower(html);
    let in_head = match find_tag(l, "<head"@, 0) {
        Some(h) => find_char(html, '>', h),
        None => None,
    };
    let in_html = match find_tag(l, "<html"@, 0) {
        Some(h) => find_char(html, '>', h),
        None => None,
    };
    match in_head {
        Some(c) => {
            let a = html.subrange(0, c + 1) + before;
            let b = "\">"@ + html.subrange(c + 1, html.len() as int);
            assert(d =~= a + p + b);
            lemma_contains_mid(a, p, b);
        },
        None => match in_html {
            Some(c) => {
                let a = html.subrange(0, c + 1) + "<head>"@ + before;
                let b = "\">"@ + "</head>"@ + html.subrange(c + 1, html.len() as int);
                assert(d =~= a + p + b);
                lemma_contains_mid(a, p, b);
            },
            None => {
                let a = "<!doctype html><html><head>"@ + before;
                let b = "\">"@ + "</head><body>"@ + html + "</body></html>"@;
                assert(d =~= a + p + b);
                lemma_contains_mid(a, p, b);
            },
        },
    }
}

/// The content-policy `<meta>` a message gets: its policy is chosen by the
/// user's choice alone (images from the network only when remote content is
/// allowed, whatever the document holds), it closes the inserted block, and
/// the block lands right after the `>` of the document's head start tag
/// when there is one.
pub proof fn law_csp_meta_and_place(html: Seq<char>, allow_remote: bool, dark: bool)
    ensures
        exists|pre: Seq<char>|
            csp_meta(html, allow_remote, dark) == pre + "<meta http-equiv=\"Content-Security-Policy\" content=\""@
                + policy(allow_remote) + "\">"@,
        crate::text::starts_with(
            policy(allow_remote),
            if allow_remote {
                "default-src 'none'; img-src http: https: data: cid:;"@
            } else {
                "default-src 'none'; img-src data: cid:;"@
            },
        ),
        match find_tag(lower(html), "<head"@, 0) {
            Some(h) => match find_char(html, '>', h) {
                Some(c) => csp_doc(html, allow_remote, dark) == html.subrange(0, c + 1) + csp_meta(
                    html,
                    allow_remote,
                    dark,
                ) + html.subrange(c + 1, html.len() as int),
                None => true,
            },
            None => true,
        },
{
    let supported = if dark { "dark light"@ } else { "light dark"@ };
    let scheme = if dark { "dark"@ } else { "light"@ };
    let pad = if unstyled(lower(html)) {
        "body{margin:0;padding:16px;box-sizing:border-box;}"@
    } else {
        seq![]
    };
    let pre = "<meta name=\"color-scheme\" content=\""@ + supported + "\"><style>:root{color-scheme:"@ + scheme
        + ";}"@ + pad
        + "@media print{:root{color-scheme:light;}html,body{background:#fff !important;}}</style>"@
        + "<meta name=\"referrer\" content=\"no-referrer\">"@;
    reveal_strlit("<meta name=\"referrer\" content=\"no-referrer\"><meta http-equiv=\"Content-Security-Policy\" content=\"");
    reveal_strlit("<meta name=\"referrer\" content=\"no-referrer\">");
    reveal_strlit("<meta http-equiv=\"Content-Security-Policy\" content=\"");
    assert("<meta name=\"referrer\" content=\"no-referrer\"><meta http-equiv=\"Content-Security-Policy\" content=\""@
        =~= "<meta name=\"referrer\" content=\"no-referrer\">"@ + "<meta http-equiv=\"Content-Security-Policy\" content=\""@);
    assert(csp_meta(html, allow_remote, dark) =~= pre + "<meta http-equiv=\"Content-Security-Policy\" content=\""@
        + policy(allow_remote) + "\">"@);
    reveal_strlit("default-src 'none'; img-src http: https: data: cid:; style-src 'unsafe-inline' http: https: data:; font-src http: https: data:; media-src http: https: data:");
    reveal_strlit("default-src 'none'; img-src data: cid:; style-src 'unsafe-inline' data:; font-src data:; media-src data:");
    reveal_strlit("default-src 'none'; img-src http: https: data: cid:;");
    reveal_strlit("default-src 'none'; img-src data: cid:;");
    let p = policy(allow_remote);
    let want = if allow_remote {
        "default-src 'none'; img-src http: https: data: cid:;"@
    } else {
        "default-src 'none'; img-src data: cid:;"@
    };
    assert(p.subrange(0, want.len() as int) =~= want);
}

// ---------------------------------------------------------------------------
// Message frames
// ---------------------------------------------------------------------------

/// The document a frame carries: the body as HTML, stripped of remote
/// references when they are blocked, with its content policy.
pub open spec fn frame_doc(body: Seq<char>, restrict: bool, dark: bool) -> Seq<char> {
    let d = body_doc(body);
    let d2 = if restrict {
        stripped(d)
    } else {
        d
    };
    csp_doc(d2, !restrict, dark)
}

/// `"aid:id"`, the key a message is known by in the wrapper document.
pub open spec fn key_text(key: (u32, u32)) -> Seq<char> {
    decimal(key.0 as nat) + ":"@ + decimal(key.1 as nat)
}

pub fn key_text_exec(key: (u32, u32)) -> (r: Vec<char>)
    ensures
        r@ == key_text(key),
{
    let mut v = decimal_chars(key.0);
    push_str(&mut v, ":");
    let d = decimal_chars(key.1);
    push_all(&mut v, &d);
    v
}

/// One message body as a sandboxed iframe: its own document (so its CSS
/// cannot leak into other messages), no `allow-scripts` (so its JavaScript
/// never runs), opening at the height it had last time when that is known.
pub open spec fn frame(body: Seq<char>, restrict: bool, dark: bool, key: (u32, u32), height: Option<u32>) -> Seq<char> {
    "<iframe class=\"vireo-frame\" data-key=\""@ + key_text(key) + "\""@ + match height {
        Some(h) => " style=\"height:"@ + decimal(h as nat) + "px\""@,
        None => seq![],
    } + " sandbox=\"allow-same-origin allow-popups\" srcdoc=\""@ + esc_attr(
        frame_doc(body, restrict, dark),
    ) + "\"></iframe>"@
}

pub fn message_frame(body: &str, restrict: bool, dark: bool, key: (u32, u32), height: Option<u32>) -> (r: String)
    ensures
        r@ == frame(body@, restrict, dark, key, height),
{
    let doc = body_html(body);
    let doc = if restrict {
        strip_remote(doc.as_str())
    } else {
        doc
    };
    let doc = inject_csp(doc.as_str(), !restrict, dark);
    let esc = attr_escape(doc.as_str());
    let mut out: Vec<char> = Vec::new();
    push_str(&mut out, "<iframe class=\"vireo-frame\" data-key=\"");
    let k = key_text_exec(key);
    push_all(&mut out, &k);
    push_str(&mut out, "\"");
    match height {
        Some(h) => {
            push_str(&mut out, " style=\"height:");
            let d = decimal_chars(h);
            push_all(&mut out, &d);
            push_str(&mut out, "px\"");
        },
        None => {},
    }
    push_str(&mut out, " sandbox=\"allow-same-origin allow-popups\" srcdoc=\"");
    push_str(&mut out, esc.as_str());
    push_str(&mut out, "\"></iframe>");
    assert(out@ =~= frame(body@, restrict, dark, key, height));
    string_of(&out)
}

} // verus!

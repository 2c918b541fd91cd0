//! Links in a message: which may be handed to the desktop, what the link
//! preview shows (and warns about), and what a saved inline image is called.

use vstd::prelude::*;
use crate::text::{
    chars_of, contains, ends_with, ends_with_chars, find_char, find_char_exec, is_ascii_alnum,
    is_ascii_alnum_char, lemma_find_char, lower, lower_chars, push_all, push_str, seq_eq, slice_of,
    starts_with, string_of, trim, trim_chars,
};

verus! {

fn eq_lit(v: &Vec<char>, lit: &str) -> (r: bool)
    ensures
        r == (v@ == lit@),
{
    let l = chars_of(lit);
    seq_eq(v, &l)
}

// ---------------------------------------------------------------------------
// Launching
// ---------------------------------------------------------------------------

/// Whether a clicked link may be handed to the desktop's default handler: an
/// allowlist of web and mail schemes, with something after the colon. Every
/// other scheme would start some program with a sender-chosen argument.
pub open spec fn launchable(uri: Seq<char>) -> bool {
    match find_char(uri, ':', 0) {
        Some(ci) => {
            let scheme = lower(uri.subrange(0, ci));
            (scheme == "http"@ || scheme == "https"@ || scheme == "mailto"@) && ci + 1 < uri.len()
        },
        None => false,
    }
}

pub fn is_launchable_uri(uri: &str) -> (r: bool)
    ensures
        r == launchable(uri@),
{
    let u = chars_of(uri);
    match find_char_exec(&u, ':', 0) {
        Some(ci) => {
            proof {
                lemma_find_char(u@, ':', 0);
            }
            let s = slice_of(&u, 0, ci);
            let l = lower_chars(&s);
            (eq_lit(&l, "http") || eq_lit(&l, "https") || eq_lit(&l, "mailto")) && ci + 1 < u.len()
        },
        None => false,
    }
}

// ---------------------------------------------------------------------------
// Hosts
// ---------------------------------------------------------------------------

/// A scheme: non-empty, ASCII letters and digits, `+` and `-` only.
pub open spec fn scheme_like(s: Seq<char>) -> bool {
    s.len() > 0 && forall|i: int| 0 <= i < s.len() ==> is_ascii_alnum(#[trigger] s[i]) || s[i]
        == '+' || s[i] == '-'
}

/// `str::trim_start_matches("//")`.
pub open spec fn strip_slashes(s: Seq<char>) -> Seq<char>
    decreases s.len(),
{
    if s.len() >= 2 && s[0] == '/' && s[1] == '/' {
        strip_slashes(s.skip(2))
    } else {
        s
    }
}

/// `str::trim_end_matches('.')`.
pub open spec fn strip_trailing_dots(s: Seq<char>) -> Seq<char>
    decreases s.len(),
{
    if s.len() > 0 && s.last() == '.' {
        strip_trailing_dots(s.drop_last())
    } else {
        s
    }
}

/// The first index of `/`, `?` or `#` at or after `i`, or the length.
pub open spec fn path_start(s: Seq<char>, i: int) -> int
    decreases s.len() - i,
{
    if i < 0 || i >= s.len() {
        s.len() as int
    } else if s[i] == '/' || s[i] == '?' || s[i] == '#' {
        i
    } else {
        path_start(s, i + 1)
    }
}

/// Whatever follows the last `@` (userinfo stripped), or all of `s`.
pub open spec fn after_last_at(s: Seq<char>) -> Seq<char> {
    match crate::text::rfind_char(s, '@', s.len() as int) {
        Some(i) => s.subrange(i + 1, s.len() as int),
        None => s,
    }
}

/// Whatever precedes the first `:` (port stripped), or all of `s`.
pub open spec fn before_colon(s: Seq<char>) -> Seq<char> {
    match find_char(s, ':', 0) {
        Some(i) => s.subrange(0, i),
        None => s,
    }
}

/// A host name: has a dot, and only ASCII letters, digits, dots and dashes.
pub open spec fn host_like(h: Seq<char>) -> bool {
    contains(h, "."@) && forall|i: int| 0 <= i < h.len() ==> is_ascii_alnum(#[trigger] h[i]) || h[i]
        == '.' || h[i] == '-'
}

/// Where the host part of a link or of bare link text begins: after an
/// `http:`/`https:` scheme and its slashes; `None` for other schemes, which
/// have no host worth comparing. A scheme has no dots, which is what tells
/// `mailto:` from a bare `example.com:8080`.
pub open spec fn host_part(t: Seq<char>) -> Option<Seq<char>> {
    match find_char(t, ':', 0) {
        Some(ci) if scheme_like(t.subrange(0, ci)) => {
            let scheme = lower(t.subrange(0, ci));
            if scheme == "http"@ || scheme == "https"@ {
                Some(strip_slashes(t.subrange(ci + 1, t.len() as int)))
            } else {
                None
            }
        },
        _ => Some(t),
    }
}

/// The lower-cased host name of a URL, or of bare text such as
/// `paypal.com/login`, when there is one.
pub open spec fn host(text: Seq<char>) -> Option<Seq<char>> {
    match host_part(trim(text)) {
        None => None,
        Some(rest) => {
            let h = lower(
                strip_trailing_dots(
                    before_colon(after_last_at(rest.subrange(0, path_start(rest, 0)))),
                ),
            );
            if host_like(h) {
                Some(h)
            } else {
                None
            }
        },
    }
}

fn strip_slashes_exec(s: &Vec<char>) -> (r: Vec<char>)
    ensures
        r@ == strip_slashes(s@),
{
    let mut i: usize = 0;
    assert(s@.skip(0) =~= s@);
    while s.len() >= 2 && i <= s.len() - 2 && s[i] == '/' && s[i + 1] == '/'
        invariant
            i <= s@.len(),
            strip_slashes(s@.skip(i as int)) == strip_slashes(s@),
        decreases s@.len() - i,
    {
        assert(s@.skip(i as int).skip(2) =~= s@.skip(i + 2));
        i += 2;
    }
    assert(strip_slashes(s@.skip(i as int)) == s@.skip(i as int));
    let r = slice_of(s, i, s.len());
    assert(r@ =~= s@.skip(i as int));
    r
}

fn strip_trailing_dots_exec(s: &Vec<char>) -> (r: Vec<char>)
    ensures
        r@ == strip_trailing_dots(s@),
{
    let mut n = s.len();
    assert(s@.take(n as int) =~= s@);
    while n > 0 && s[n - 1] == '.'
        invariant
            n <= s@.len(),
            strip_trailing_dots(s@.take(n as int)) == strip_trailing_dots(s@),
        decreases n,
    {
        assert(s@.take(n as int).drop_last() =~= s@.take(n - 1));
        n -= 1;
    }
    let r = slice_of(s, 0, n);
    assert(r@ =~= s@.take(n as int));
    r
}

/// The host of a link or link text (see [`host`]).
pub fn host_of(text: &str) -> (r: Option<String>)
    ensures
        match host(text@) {
            Some(h) => r matches Some(s) && s@ == h,
            None => r is None,
        },
{
    let raw = chars_of(text);
    let t = trim_chars(&raw);
    // Where the host part starts.
    let mut rest: Vec<char> = Vec::new();
    let mut have_scheme = false;
    match find_char_exec(&t, ':', 0) {
        Some(ci) => {
            proof {
                lemma_find_char(t@, ':', 0);
            }
            let mut ok = ci > 0;
            let mut k: usize = 0;
            while k < ci
                invariant
                    ci <= t@.len(),
                    k <= ci,
                    ok ==> ci > 0 && forall|j: int| 0 <= j < k ==> is_ascii_alnum(#[trigger] t@[j])
                        || t@[j] == '+' || t@[j] == '-',
                    !ok ==> !scheme_like(t@.subrange(0, ci as int)),
                decreases ci - k,
            {
                let ch = t[k];
                if !(is_ascii_alnum_char(ch) || ch == '+' || ch == '-') {
                    if ok {
                        assert(t@.subrange(0, ci as int)[k as int] == ch);
                    }
                    ok = false;
                }
                k += 1;
            }
            if ok {
                assert(scheme_like(t@.subrange(0, ci as int))) by {
                    assert forall|i: int| 0 <= i < ci implies is_ascii_alnum(#[trigger] t@.subrange(0, ci as int)[i])
                        || t@.subrange(0, ci as int)[i] == '+' || t@.subrange(0, ci as int)[i] == '-' by {
                        assert(t@.subrange(0, ci as int)[i] == t@[i]);
                    }
                }
                let sch = slice_of(&t, 0, ci);
                let l = lower_chars(&sch);
                if !(eq_lit(&l, "http") || eq_lit(&l, "https")) {
                    return None;
                }
                let after = slice_of(&t, ci + 1, t.len());
                rest = strip_slashes_exec(&after);
                have_scheme = true;
            }
        },
        None => {},
    }
    if !have_scheme {
        rest = t;
    }
    assert(host_part(trim(text@)) == Some(rest@));
    // Up to the path.
    let mut p: usize = 0;
    while p < rest.len() && !(rest[p] == '/' || rest[p] == '?' || rest[p] == '#')
        invariant
            p <= rest@.len(),
            path_start(rest@, p as int) == path_start(rest@, 0),
        decreases rest@.len() - p,
    {
        p += 1;
    }
    let hostport = slice_of(&rest, 0, p);
    // After any userinfo.
    let userless = match crate::text::rfind_char_exec(&hostport, '@') {
        Some(a) => {
            proof {
                lemma_rfind(hostport@, '@', hostport@.len() as int);
            }
            slice_of(&hostport, a + 1, hostport.len())
        },
        None => hostport,
    };
    // Before any port.
    let portless = match find_char_exec(&userless, ':', 0) {
        Some(c) => {
            proof {
                lemma_find_char(userless@, ':', 0);
            }
            slice_of(&userless, 0, c)
        },
        None => userless,
    };
    let dotless = strip_trailing_dots_exec(&portless);
    let h = lower_chars(&dotless);
    // Does it look like a host?
    let dot = crate::text::contains_str(&h, ".");
    if !dot {
        return None;
    }
    assert(host(text@) == (if host_like(h@) { Some(h@) } else { None::<Seq<char>> }));
    let mut k: usize = 0;
    while k < h.len()
        invariant
            host(text@) == (if host_like(h@) { Some(h@) } else { None::<Seq<char>> }),
            k <= h@.len(),
            forall|j: int| 0 <= j < k ==> is_ascii_alnum(#[trigger] h@[j]) || h@[j] == '.' || h@[j] == '-',
        decreases h@.len() - k,
    {
        let ch = h[k];
        if !(is_ascii_alnum_char(ch) || ch == '.' || ch == '-') {
            return None;
        }
        k += 1;
    }
    Some(string_of(&h))
}

proof fn lemma_rfind(s: Seq<char>, c: char, to: int)
    requires
        0 <= to <= s.len(),
    ensures
        crate::text::rfind_char(s, c, to) matches Some(i) ==> 0 <= i < to,
    decreases to,
{
    if to > 0 && s[to - 1] != c {
        lemma_rfind(s, c, to - 1);
    }
}

/// `a` and `b` are the same site: equal, or one a subdomain of the other.
pub open spec fn same_site(a: Seq<char>, b: Seq<char>) -> bool {
    a == b || ends_with(a, seq!['.'] + b) || ends_with(b, seq!['.'] + a)
}

/// The host a link's visible text claims, when that text is itself a URL or
/// bare host name that is not the same site as the link's real target.
pub open spec fn mismatch(uri: Seq<char>, label: Seq<char>) -> Option<Seq<char>> {
    match (host(trim(label)), host(uri)) {
        (Some(claimed), Some(actual)) => if same_site(actual, claimed) {
            None
        } else {
            Some(claimed)
        },
        _ => None,
    }
}

/// The look-alike warning never fires between a host and itself or a
/// subdomain of it, in either direction (the preview then shows the bare
/// destination), and otherwise names the claimed host.
pub proof fn law_same_site_no_warning(uri: Seq<char>, label: Seq<char>)
    ensures
        match (host(trim(label)), host(uri)) {
            (Some(claimed), Some(actual)) => {
                &&& (actual == claimed || ends_with(actual, seq!['.'] + claimed) || ends_with(
                    claimed,
                    seq!['.'] + actual,
                )) ==> mismatch(uri, label) is None && destination(uri, Some(label)) == uri
                &&& !(actual == claimed || ends_with(actual, seq!['.'] + claimed) || ends_with(
                    claimed,
                    seq!['.'] + actual,
                )) ==> mismatch(uri, label) == Some(claimed)
            },
            _ => mismatch(uri, label) is None,
        },
{
}

/// The site test is symmetric: swapping which host the text claims and which
/// the link reaches never turns a warning on or off.
pub proof fn law_mismatch_symmetric(uri: Seq<char>, label: Seq<char>, uri2: Seq<char>, label2: Seq<char>)
    requires
        host(trim(label)) is Some,
        host(uri) is Some,
        host(trim(label2)) == host(uri),
        host(uri2) == host(trim(label)),
    ensures
        (mismatch(uri, label) is None) == (mismatch(uri2, label2) is None),
{
}

pub fn mismatched_host(uri: &str, label: &str) -> (r: Option<String>)
    ensures
        match mismatch(uri@, label@) {
            Some(h) => r matches Some(s) && s@ == h,
            None => r is None,
        },
{
    let lv = chars_of(label);
    let lt = trim_chars(&lv);
    let lts = string_of(&lt);
    let claimed = match host_of(lts.as_str()) {
        Some(h) => h,
        None => return None,
    };
    let actual = match host_of(uri) {
        Some(h) => h,
        None => return None,
    };
    let c = chars_of(claimed.as_str());
    let a = chars_of(actual.as_str());
    let mut dot_c: Vec<char> = Vec::new();
    dot_c.push('.');
    push_all(&mut dot_c, &c);
    let mut dot_a: Vec<char> = Vec::new();
    dot_a.push('.');
    push_all(&mut dot_a, &a);
    assert(dot_c@ =~= seq!['.'] + c@);
    assert(dot_a@ =~= seq!['.'] + a@);
    let same = seq_eq(&a, &c) || ends_with_chars(&a, &dot_c) || ends_with_chars(&c, &dot_a);
    if same {
        None
    } else {
        Some(claimed)
    }
}

/// What the link preview shows: the destination, plus an explicit warning when
/// the link's visible text claims a different site than it goes to.
pub open spec fn destination(uri: Seq<char>, label: Option<Seq<char>>) -> Seq<char> {
    match label {
        Some(l) => match mismatch(uri, l) {
            Some(claimed) => uri + "  ⚠ looks like \""@ + claimed + "\" but goes to "@ + match host(
                uri,
            ) {
                Some(h) => h,
                None => seq![],
            },
            None => uri,
        },
        None => uri,
    }
}

pub fn link_destination(uri: &str, label: Option<&str>) -> (r: String)
    ensures
        r@ == destination(uri@, match label {
            Some(l) => Some(l@),
            None => None,
        }),
{
    let u = chars_of(uri);
    let claimed = match label {
        Some(l) => mismatched_host(uri, l),
        None => None,
    };
    match claimed {
        Some(c) => {
            let mut out = u;
            push_str(&mut out, "  ⚠ looks like \"");
            push_str(&mut out, c.as_str());
            push_str(&mut out, "\" but goes to ");
            match host_of(uri) {
                Some(h) => push_str(&mut out, h.as_str()),
                None => {
                    assert(out@ + seq![] =~= out@);
                },
            }
            string_of(&out)
        },
        None => string_of(&u),
    }
}

// ---------------------------------------------------------------------------
// Inline images
// ---------------------------------------------------------------------------

/// The file extension offered for an image of a MIME type.
pub open spec fn image_ext(mime: Seq<char>) -> Seq<char> {
    if mime == "image/jpeg"@ {
        "jpg"@
    } else if mime == "image/svg+xml"@ {
        "svg"@
    } else {
        match crate::text::rfind_char(mime, '/', mime.len() as int) {
            Some(i) => mime.subrange(i + 1, mime.len() as int),
            None => mime,
        }
    }
}

/// The name to pre-fill the save dialog with for an inline image: the original
/// name is not recoverable from a `data:` URI, so `image.<ext>` from the MIME
/// type.
pub fn default_image_name(mime: &str) -> (r: String)
    ensures
        r@ == "image."@ + image_ext(mime@),
{
    let m = chars_of(mime);
    let mut out: Vec<char> = Vec::new();
    push_str(&mut out, "image.");
    if eq_lit(&m, "image/jpeg") {
        push_str(&mut out, "jpg");
    } else if eq_lit(&m, "image/svg+xml") {
        push_str(&mut out, "svg");
    } else {
        match crate::text::rfind_char_exec(&m, '/') {
            Some(i) => {
                proof {
                    lemma_rfind(m@, '/', m@.len() as int);
                }
                let e = slice_of(&m, i + 1, m.len());
                push_all(&mut out, &e);
            },
            None => push_all(&mut out, &m),
        }
    }
    string_of(&out)
}

/// The parts of a `data:<mime>;base64,<payload>` URI (the prefix in either
/// case as the reader writes it): the MIME type, lower-cased, and the payload.
pub open spec fn data_uri(uri: Seq<char>) -> Option<(Seq<char>, Seq<char>)> {
    if starts_with(uri, "data:"@) || starts_with(uri, "DATA:"@) {
        let rest = uri.skip(5);
        match find_char(rest, ',', 0) {
            Some(ci) => {
                let meta = rest.subrange(0, ci);
                if ends_with(meta, ";base64"@) {
                    Some((lower(meta.subrange(0, meta.len() - 7)), rest.subrange(ci + 1, rest.len() as int)))
                } else {
                    None
                }
            },
            None => None,
        }
    } else {
        None
    }
}

/// Split a base64 `data:` URI into its lower-cased MIME type and its (still
/// encoded) payload; `None` for any other scheme, or for a `data:` URI that is
/// not base64 (the reader only emits base64 ones).
pub fn split_data_uri(uri: &str) -> (r: Option<(String, String)>)
    ensures
        match data_uri(uri@) {
            Some((m, p)) => r matches Some(v) && v.0@ == m && v.1@ == p,
            None => r is None,
        },
{
    let u = chars_of(uri);
    proof {
        reveal_strlit("data:");
        reveal_strlit("DATA:");
        reveal_strlit(";base64");
    }
    if !(crate::text::starts_with_str(&u, "data:") || crate::text::starts_with_str(&u, "DATA:")) {
        return None;
    }
    let rest = slice_of(&u, 5, u.len());
    assert(rest@ =~= u@.skip(5));
    let ci = match find_char_exec(&rest, ',', 0) {
        Some(ci) => ci,
        None => return None,
    };
    proof {
        lemma_find_char(rest@, ',', 0);
    }
    let meta = slice_of(&rest, 0, ci);
    let suffix = chars_of(";base64");
    if !ends_with_chars(&meta, &suffix) {
        return None;
    }
    let mime = slice_of(&meta, 0, meta.len() - 7);
    let lm = lower_chars(&mime);
    let payload = slice_of(&rest, ci + 1, rest.len());
    Some((string_of(&lm), string_of(&payload)))
}

/// A decoded inline image is kept only when decoding produced bytes.
pub fn accept_decoded(mime: String, data: Vec<u8>) -> (r: Option<(String, Vec<u8>)>)
    ensures
        data@.len() == 0 ==> r is None,
        data@.len() > 0 ==> (r matches Some(v) && v.0@ == mime@ && v.1@ == data@),
{
    if data.len() == 0 {
        None
    } else {
        Some((mime, data))
    }
}

} // verus!

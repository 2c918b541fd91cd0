//! The printed page: every message of a conversation inlined into one
//! document (print engines clip iframes), each message's own `html`/`body`
//! rules pointed at that message's block, and the header that only appears
//! on paper.

use vstd::prelude::*;
use crate::escape::{esc_text, escape_text, escape_text_chars};
use crate::frame::{csp_doc, inject_csp};
use crate::model::{Message, full_date_of};
use crate::text::{
    chars_of, decimal, find_char, find_char_exec, find_from, find_from_exec, is_ascii_alnum,
    is_ascii_alnum_char, is_ascii_ws, is_ascii_ws_char, lemma_find_char, lemma_find_from, lower,
    lower_chars, matches_at, matches_at_exec, push_all, push_range, push_str, slice_of,
    starts_with, string_of, trim, trim_start, char_width_exec, utf8_len, lemma_utf8_len_encode,
    lemma_utf8_len_prefix, lemma_utf8_len_take_next, lemma_trim_end_at, lemma_trim_end_cut,
};

verus! {

// ---------------------------------------------------------------------------
// Inlining
// ---------------------------------------------------------------------------

/// Whether one of the structural tags `<html`, `</html`, `<head`, `</head`,
/// `<body`, `</body` starts at `i` (in the lower-cased text), and its length.
pub open spec fn structural_len(l: Seq<char>, i: int) -> int {
    if matches_at(l, "<html"@, i) || matches_at(l, "<head"@, i) || matches_at(l, "<body"@, i) {
        5
    } else if matches_at(l, "</html"@, i) || matches_at(l, "</head"@, i) || matches_at(l, "</body"@, i) {
        6
    } else {
        0
    }
}

/// The character after a tag name ends it: `>`, whitespace, `/`, or the end.
pub open spec fn tag_boundary(c: Seq<char>, a: int) -> bool {
    a >= c.len() || c[a] == '>' || is_ascii_ws(c[a]) || c[a] == '/'
}

/// `c[i..]` without its doctype and structural tags; an unterminated one ends
/// the text.
pub open spec fn inline_from(c: Seq<char>, l: Seq<char>, i: int) -> Seq<char>
    decreases c.len() - i,
{
    if i < 0 || i >= c.len() {
        seq![]
    } else if matches_at(l, "<!doctype"@, i) || (structural_len(l, i) > 0 && tag_boundary(
        c,
        i + structural_len(l, i),
    )) {
        match find_char(c, '>', i) {
            Some(e) => {
                proof {
                    lemma_find_char(c, '>', i);
                }
                inline_from(c, l, e + 1)
            },
            None => seq![],
        }
    } else {
        seq![c[i]] + inline_from(c, l, i + 1)
    }
}

/// A document with its structural tags (`<!doctype>`, `html`, `head`,
/// `body`) removed and everything inside them kept, `<style>` and `<meta>`
/// included.
pub open spec fn inlined(doc: Seq<char>) -> Seq<char> {
    inline_from(doc, lower(doc), 0)
}

fn structural_len_exec(l: &Vec<char>, i: usize) -> (r: usize)
    ensures
        r as int == structural_len(l@, i as int),
        r > 0 ==> i + r <= l@.len(),
{
    proof {
        reveal_strlit("<html");
        reveal_strlit("<head");
        reveal_strlit("<body");
        reveal_strlit("</html");
        reveal_strlit("</head");
        reveal_strlit("</body");
    }
    let p5a = chars_of("<html");
    let p5b = chars_of("<head");
    let p5c = chars_of("<body");
    let p6a = chars_of("</html");
    let p6b = chars_of("</head");
    let p6c = chars_of("</body");
    if matches_at_exec(l, &p5a, i) || matches_at_exec(l, &p5b, i) || matches_at_exec(l, &p5c, i) {
        5
    } else if matches_at_exec(l, &p6a, i) || matches_at_exec(l, &p6b, i) || matches_at_exec(l, &p6c, i) {
        6
    } else {
        0
    }
}

pub fn inline_body(doc: &str) -> (r: String)
    ensures
        r@ == inlined(doc@),
{
    let c = chars_of(doc);
    let l = lower_chars(&c);
    let doctype = chars_of("<!doctype");
    let mut out: Vec<char> = Vec::new();
    let mut i: usize = 0;
    let n = c.len();
    assert(out@ + inline_from(c@, l@, 0) =~= inline_from(c@, l@, 0));
    while i < n
        invariant
            n == c@.len(),
            c@ == doc@,
            l@ == lower(c@),
            doctype@ == "<!doctype"@,
            i <= n,
            out@ + inline_from(c@, l@, i as int) == inline_from(c@, l@, 0),
        decreases n - i,
    {
        let sl = structural_len_exec(&l, i);
        let skip = if matches_at_exec(&l, &doctype, i) {
            true
        } else if sl > 0 {
            let after = i + sl;
            after >= n || c[after] == '>' || is_ascii_ws_char(c[after]) || c[after] == '/'
        } else {
            false
        };
        if skip {
            match find_char_exec(&c, '>', i) {
                Some(e) => {
                    proof {
                        lemma_find_char(c@, '>', i as int);
                    }
                    i = e + 1;
                },
                None => {
                    assert(out@ + seq![] =~= out@);
                    return string_of(&out);
                },
            }
        } else {
            let ghost before = out@;
            out.push(c[i]);
            assert(before + inline_from(c@, l@, i as int) =~= out@ + inline_from(c@, l@, i + 1));
            i += 1;
        }
    }
    assert(out@ + seq![] =~= out@);
    string_of(&out)
}

// ---------------------------------------------------------------------------
// Scoping a message's own styles
// ---------------------------------------------------------------------------

/// A character that can continue a CSS identifier.
pub open spec fn ident_char(c: char) -> bool {
    is_ascii_alnum(c) || c == '-' || c == '_'
}

/// `html` or `body` starts at `i` of the selector text, as a whole tag name:
/// not part of `.body`, `#body`, `bodyguard` or `x-body`.
pub open spec fn root_word_at(p: Seq<char>, i: int) -> bool {
    let l = lower(p);
    (matches_at(l, "html"@, i) || matches_at(l, "body"@, i)) && (i == 0 || !(ident_char(p[i - 1])
        || p[i - 1] == '.' || p[i - 1] == '#' || p[i - 1] == '%')) && (i + 4 >= p.len()
        || !ident_char(p[i + 4]))
}

/// `p[i..]` with each whole-word `html`/`body` replaced by `block`.
pub open spec fn sel_from(p: Seq<char>, block: Seq<char>, i: int) -> Seq<char>
    decreases p.len() + 4 - i,
{
    if i < 0 || i >= p.len() {
        seq![]
    } else if root_word_at(p, i) {
        block + sel_from(p, block, i + 4)
    } else {
        seq![p[i]] + sel_from(p, block, i + 1)
    }
}

/// A selector list with `html`/`body` pointed at the message's block.
pub open spec fn scoped_selectors(p: Seq<char>, block: Seq<char>) -> Seq<char> {
    sel_from(p, block, 0)
}

fn ident_char_exec(c: char) -> (r: bool)
    ensures
        r == ident_char(c),
{
    is_ascii_alnum_char(c) || c == '-' || c == '_'
}

pub fn scope_selectors(prelude: &Vec<char>, block: &Vec<char>) -> (r: Vec<char>)
    ensures
        r@ == scoped_selectors(prelude@, block@),
{
    let p = prelude;
    let l = lower_chars(p);
    let html = chars_of("html");
    let body = chars_of("body");
    proof {
        reveal_strlit("html");
        reveal_strlit("body");
    }
    let n = p.len();
    let mut out: Vec<char> = Vec::new();
    let mut i: usize = 0;
    assert(out@ + sel_from(p@, block@, 0) =~= sel_from(p@, block@, 0));
    while i < n
        invariant
            n == p@.len(),
            l@ == lower(p@),
            html@ == "html"@,
            body@ == "body"@,
            html@.len() == 4,
            body@.len() == 4,
            i <= n,
            out@ + sel_from(p@, block@, i as int) == sel_from(p@, block@, 0),
        decreases n - i,
    {
        let word = matches_at_exec(&l, &html, i) || matches_at_exec(&l, &body, i);
        let before_ok = i == 0 || !(ident_char_exec(p[i - 1]) || p[i - 1] == '.' || p[i - 1] == '#'
            || p[i - 1] == '%');
        let ghost prev = out@;
        if word && before_ok && (i + 4 >= n || !ident_char_exec(p[i + 4])) {
            push_all(&mut out, block);
            assert(prev + sel_from(p@, block@, i as int) =~= out@ + sel_from(p@, block@, i + 4));
            i += 4;
        } else {
            out.push(p[i]);
            assert(prev + sel_from(p@, block@, i as int) =~= out@ + sel_from(p@, block@, i + 1));
            i += 1;
        }
    }
    assert(out@ + seq![] =~= out@);
    out
}

/// The CSS rewriter's state after some characters: output so far, the text
/// since the last brace, and for each open brace whether it holds rules (an
/// at-rule such as `@media`) rather than declarations.
pub struct CssState {
    pub out: Seq<char>,
    pub prelude: Seq<char>,
    pub stack: Seq<bool>,
}

/// Whether the innermost open brace holds rules (the top level does).
pub open spec fn in_rules(stack: Seq<bool>) -> bool {
    stack.len() == 0 || stack.last()
}

/// One character of the stylesheet.
pub open spec fn css_step(st: CssState, ch: char, block: Seq<char>) -> CssState {
    if ch == '{' {
        let holds = starts_with(trim_start(st.prelude), "@"@);
        let head = if in_rules(st.stack) {
            scoped_selectors(st.prelude, block)
        } else {
            st.prelude
        };
        CssState { out: st.out + head + seq!['{'], prelude: seq![], stack: st.stack.push(holds) }
    } else if ch == '}' {
        CssState {
            out: st.out + st.prelude + seq!['}'],
            prelude: seq![],
            stack: if st.stack.len() > 0 {
                st.stack.drop_last()
            } else {
                st.stack
            },
        }
    } else {
        CssState { out: st.out, prelude: st.prelude.push(ch), stack: st.stack }
    }
}

/// The state after all of `css`.
pub open spec fn css_run(css: Seq<char>, block: Seq<char>) -> CssState
    decreases css.len(),
{
    if css.len() == 0 {
        CssState { out: seq![], prelude: seq![], stack: seq![] }
    } else {
        css_step(css_run(css.drop_last(), block), css.last(), block)
    }
}

/// A stylesheet with `html`/`body` rewritten in every selector (including
/// those inside `@media` and other rule-holding at-rules), and nowhere else.
pub open spec fn scoped_css(css: Seq<char>, block: Seq<char>) -> Seq<char> {
    css_run(css, block).out + css_run(css, block).prelude
}

pub fn scope_css(css: &Vec<char>, block: &Vec<char>) -> (r: Vec<char>)
    ensures
        r@ == scoped_css(css@, block@),
{
    let mut out: Vec<char> = Vec::new();
    let mut prelude: Vec<char> = Vec::new();
    let mut stack: Vec<bool> = Vec::new();
    let mut i: usize = 0;
    while i < css.len()
        invariant
            i <= css@.len(),
            css_run(css@.take(i as int), block@) == (CssState { out: out@, prelude: prelude@, stack: stack@ }),
        decreases css@.len() - i,
    {
        let ch = css[i];
        assert(css@.take(i + 1 as int).drop_last() =~= css@.take(i as int));
        assert(css@.take(i + 1 as int).last() == ch);
        if ch == '{' {
            let t = crate::text::trim_start_chars(&prelude);
            let holds = crate::text::starts_with_str(&t, "@");
            let rules = stack.len() == 0 || stack[stack.len() - 1];
            if rules {
                let sel = scope_selectors(&prelude, block);
                push_all(&mut out, &sel);
            } else {
                push_all(&mut out, &prelude);
            }
            out.push('{');
            prelude = Vec::new();
            stack.push(holds);
        } else if ch == '}' {
            push_all(&mut out, &prelude);
            out.push('}');
            prelude = Vec::new();
            if stack.len() > 0 {
                stack.pop();
            }
        } else {
            prelude.push(ch);
        }
        proof {
            assert(css_run(css@.take(i + 1 as int), block@).out =~= out@);
            assert(css_run(css@.take(i + 1 as int), block@).prelude =~= prelude@);
            assert(css_run(css@.take(i + 1 as int), block@).stack =~= stack@);
        }
        i += 1;
    }
    assert(css@.take(css@.len() as int) =~= css@);
    push_all(&mut out, &prelude);
    out
}

/// `doc[rest..]` with the body of every `<style>` element scoped to `block`.
pub open spec fn scope_from(c: Seq<char>, l: Seq<char>, block: Seq<char>, rest: int) -> Seq<char>
    decreases c.len() - rest,
{
    if rest < 0 || rest > c.len() || l.len() != c.len() {
        seq![]
    } else {
        match find_from(l, "<style"@, rest) {
            None => c.subrange(rest, c.len() as int),
            Some(open) => match find_char(l, '>', open) {
                None => c.subrange(rest, c.len() as int),
                Some(gt) => {
                    let body_start = gt + 1;
                    let end = match find_from(l, "</style"@, body_start) {
                        Some(e) => e,
                        None => c.len() as int,
                    };
                    proof {
                        lemma_find_from(l, "<style"@, rest);
                        lemma_find_char(l, '>', open);
                        lemma_find_from(l, "</style"@, body_start);
                        reveal_strlit("</style");
                    }
                    c.subrange(rest, body_start) + scoped_css(c.subrange(body_start, end), block)
                        + scope_from(c, l, block, end)
                },
            },
        }
    }
}

/// A message's document with its own `html`/`body` style rules redirected to
/// the block it prints in, so one sender cannot restyle the whole printout.
pub open spec fn scoped_styles(doc: Seq<char>, block: Seq<char>) -> Seq<char> {
    scope_from(doc, lower(doc), block, 0)
}

pub fn scope_styles(doc: &str, block: &str) -> (r: String)
    ensures
        r@ == scoped_styles(doc@, block@),
{
    let c = chars_of(doc);
    let l = lower_chars(&c);
    let b = chars_of(block);
    let open_pat = chars_of("<style");
    let close_pat = chars_of("</style");
    proof {
        reveal_strlit("</style");
    }
    let n = c.len();
    let mut out: Vec<char> = Vec::new();
    let mut rest: usize = 0;
    assert(out@ + scope_from(c@, l@, b@, 0) =~= scope_from(c@, l@, b@, 0));
    loop
        invariant
            n == c@.len(),
            c@ == doc@,
            b@ == block@,
            l@ == lower(c@),
            l@.len() == n,
            open_pat@ == "<style"@,
            close_pat@ == "</style"@,
            rest <= n,
            out@ + scope_from(c@, l@, b@, rest as int) == scope_from(c@, l@, b@, 0),
        ensures
            rest <= n,
            out@ + c@.subrange(rest as int, n as int) == scope_from(c@, l@, b@, 0),
        decreases n - rest,
    {
        let open = match find_from_exec(&l, &open_pat, rest) {
            Some(o) => o,
            None => {
                break;
            },
        };
        proof {
            lemma_find_from(l@, "<style"@, rest as int);
        }
        let gt = match find_char_exec(&l, '>', open) {
            Some(g) => g,
            None => {
                break;
            },
        };
        proof {
            lemma_find_char(l@, '>', open as int);
        }
        let body_start = gt + 1;
        let end = match find_from_exec(&l, &close_pat, body_start) {
            Some(e) => e,
            None => n,
        };
        proof {
            lemma_find_from(l@, "</style"@, body_start as int);
        }
        let ghost prev = out@;
        push_range(&mut out, &c, rest, body_start);
        let css = slice_of(&c, body_start, end);
        let scoped = scope_css(&css, &b);
        push_all(&mut out, &scoped);
        assert(prev + scope_from(c@, l@, b@, rest as int) =~= out@ + scope_from(c@, l@, b@, end as int));
        rest = end;
    }
    push_range(&mut out, &c, rest, n);
    assert(c@ == doc@ && b@ == block@ && l@ == lower(c@));
    string_of(&out)
}


// ---------------------------------------------------------------------------
// Headers on paper
// ---------------------------------------------------------------------------

/// Who sent one message of a printed conversation: name and address, or
/// whichever of them there is.
pub open spec fn sender_text(name: Seq<char>, addr: Seq<char>) -> Seq<char> {
    if addr.len() == 0 {
        esc_text(name)
    } else if trim(name).len() == 0 {
        esc_text(addr)
    } else {
        esc_text(name) + " &lt;"@ + esc_text(addr) + "&gt;"@
    }
}

/// The line above one message of a printed conversation: who, and when.
pub open spec fn msg_print_header(m: Message, date: Seq<char>) -> Seq<char> {
    "<div class=\"vireo-print-msghdr\">"@ + sender_text(m.from_name@, m.from_addr@) + " — "@
        + esc_text(date) + "</div>"@
}

fn is_blank(s: &Vec<char>) -> (r: bool)
    ensures
        r == (trim(s@).len() == 0),
{
    let t = crate::text::trim_chars(s);
    t.len() == 0
}

/// [`msg_print_header`] for a given date text.
pub fn print_message_header_with(m: &Message, date: &str) -> (r: String)
    ensures
        r@ == msg_print_header(*m, date@),
{
    let name = chars_of(m.from_name.as_str());
    let addr = chars_of(m.from_addr.as_str());
    let mut out: Vec<char> = Vec::new();
    push_str(&mut out, "<div class=\"vireo-print-msghdr\">");
    if addr.len() == 0 {
        let e = escape_text_chars(&name);
        push_all(&mut out, &e);
    } else if is_blank(&name) {
        let e = escape_text_chars(&addr);
        push_all(&mut out, &e);
    } else {
        let e = escape_text_chars(&name);
        push_all(&mut out, &e);
        push_str(&mut out, " &lt;");
        let e2 = escape_text_chars(&addr);
        push_all(&mut out, &e2);
        push_str(&mut out, "&gt;");
    }
    push_str(&mut out, " — ");
    let d = chars_of(date);
    let ed = escape_text_chars(&d);
    push_all(&mut out, &ed);
    push_str(&mut out, "</div>");
    assert(out@ =~= msg_print_header(*m, date@));
    string_of(&out)
}

/// Who sent one message of a printed conversation, and when (in the local
/// time zone).
pub fn print_message_header_html(m: &Message) -> (r: String)
    ensures
        exists|date: Seq<char>|
            r@ == #[trigger] msg_print_header(*m, date) && full_date_of(m.timestamp, date),
{
    let date = m.datetime_full();
    print_message_header_with(m, date.as_str())
}

/// One labelled row of the printed header; empty when the value is blank.
pub open spec fn print_row(label: Seq<char>, value: Seq<char>) -> Seq<char> {
    if trim(value).len() == 0 {
        seq![]
    } else {
        "<div class=\"vireo-print-row\"><span class=\"vireo-print-label\">"@ + esc_text(label)
            + "</span> "@ + esc_text(value) + "</div>"@
    }
}

/// The From line of the printed header.
pub open spec fn print_from(name: Seq<char>, addr: Seq<char>) -> Seq<char> {
    if trim(addr).len() == 0 {
        name
    } else if trim(name).len() == 0 || name == addr {
        addr
    } else {
        name + " <"@ + addr + ">"@
    }
}

/// The message a reference points to, if any.
pub open spec fn opt_message(m: Option<&Message>) -> Option<Message> {
    match m {
        Some(m) => Some(*m),
        None => None,
    }
}

/// The header block that only appears on paper: subject, from, to, cc, date.
pub open spec fn print_header(m: Option<Message>, date: Seq<char>) -> Seq<char> {
    match m {
        None => seq![],
        Some(m) => {
            let subject = if trim(m.subject@).len() == 0 {
                "(no subject)"@
            } else {
                m.subject@
            };
            "<div class=\"vireo-print-hdr\"><div class=\"vireo-print-subject\">"@ + esc_text(subject)
                + "</div>"@ + print_row("From:"@, print_from(m.from_name@, m.from_addr@))
                + print_row("To:"@, m.to@) + print_row("Cc:"@, m.cc@) + print_row("Date:"@, date)
                + "</div>"@
        },
    }
}

fn push_row(out: &mut Vec<char>, label: &str, value: &Vec<char>)
    ensures
        final(out)@ == old(out)@ + print_row(label@, value@),
{
    if is_blank(value) {
        assert(old(out)@ + seq![] =~= old(out)@);
        return;
    }
    push_str(out, "<div class=\"vireo-print-row\"><span class=\"vireo-print-label\">");
    let l = chars_of(label);
    let el = escape_text_chars(&l);
    push_all(out, &el);
    push_str(out, "</span> ");
    let ev = escape_text_chars(value);
    push_all(out, &ev);
    push_str(out, "</div>");
    assert(final(out)@ =~= old(out)@ + print_row(label@, value@));
}

/// [`print_header`] for a given date text.
pub fn print_header_with(message: Option<&Message>, date: &str) -> (r: String)
    ensures
        r@ == print_header(opt_message(message), date@),
{
    let m = match message {
        None => return String::new(),
        Some(m) => m,
    };
    let name = chars_of(m.from_name.as_str());
    let addr = chars_of(m.from_addr.as_str());
    let from = if is_blank(&addr) {
        name
    } else if is_blank(&name) || crate::text::seq_eq(&name, &addr) {
        addr
    } else {
        let mut f = name;
        push_str(&mut f, " <");
        push_all(&mut f, &addr);
        push_str(&mut f, ">");
        f
    };
    let subj = chars_of(m.subject.as_str());
    let subject = if is_blank(&subj) {
        chars_of("(no subject)")
    } else {
        subj
    };
    let mut out: Vec<char> = Vec::new();
    push_str(&mut out, "<div class=\"vireo-print-hdr\"><div class=\"vireo-print-subject\">");
    let es = escape_text_chars(&subject);
    push_all(&mut out, &es);
    push_str(&mut out, "</div>");
    push_row(&mut out, "From:", &from);
    let to = chars_of(m.to.as_str());
    push_row(&mut out, "To:", &to);
    let cc = chars_of(m.cc.as_str());
    push_row(&mut out, "Cc:", &cc);
    let d = chars_of(date);
    push_row(&mut out, "Date:", &d);
    push_str(&mut out, "</div>");
    assert(out@ =~= print_header(Some(*m), date@));
    string_of(&out)
}

/// The header block that only appears on paper, for the message on top (the
/// date in the local time zone); nothing when there is no message.
pub fn print_header_html(message: Option<&Message>) -> (r: String)
    ensures
        exists|date: Seq<char>|
            r@ == #[trigger] print_header(opt_message(message), date) && match message {
                Some(m) => full_date_of(m.timestamp, date),
                None => date.len() == 0,
            },
{
    let date = match message {
        Some(m) => m.datetime_full(),
        None => String::new(),
    };
    print_header_with(message, date.as_str())
}

// ---------------------------------------------------------------------------
// The printed document
// ---------------------------------------------------------------------------

/// Rules for the printed page: long URLs wrap, images shrink to the page, and
/// each message after the first is set off from the one before.
pub const PRINT_DOCUMENT_STYLES: &'static str = "html,body{background:#fff;color:#000;margin:0;padding:0;}body{font:11pt/1.5 system-ui,sans-serif;overflow-wrap:anywhere;}img,table,pre{max-width:100% !important;}img{height:auto !important;}pre{white-space:pre-wrap;}.vireo-print-msg + .vireo-print-msg{border-top:1pt solid #999;margin-top:12pt;padding-top:12pt;}.vireo-print-msghdr{font:bold 10pt/1.45 system-ui,sans-serif;color:#000;margin:0 0 8pt;}.vireo-print-hdr{display:block;padding:0 0 10pt;margin:0 0 12pt;border-bottom:1pt solid #999;font:10pt/1.45 system-ui,sans-serif;color:#000;}.vireo-print-subject{font-size:14pt;font-weight:700;margin:0 0 8pt;}.vireo-print-row{margin:0 0 2pt;}.vireo-print-label{font-weight:700;}";

/// The class of the `n`-th printed message's block.
pub open spec fn print_block(n: nat) -> Seq<char> {
    "vireo-print-m"@ + decimal(n)
}

/// The printed messages from the `n`-th on, each as an `<article>` with its
/// own block class, its own head line, and its inlined, scoped document.
pub open spec fn print_articles(messages: Seq<(Seq<char>, Seq<char>)>, n: nat) -> Seq<char>
    decreases messages.len() - n,
{
    if n >= messages.len() {
        seq![]
    } else {
        let block = print_block(n);
        "<article class=\"vireo-print-msg "@ + block + "\">"@ + messages[n as int].0 + scoped_styles(
            inlined(messages[n as int].1),
            "."@ + block,
        ) + "</article>"@ + print_articles(messages, n + 1)
    }
}

/// The printed page: the header, then every message inlined into it, under
/// the same content policy the reader's frames get.
pub open spec fn print_doc(header: Seq<char>, messages: Seq<(Seq<char>, Seq<char>)>, allow_remote: bool) -> Seq<char> {
    csp_doc(
        "<!doctype html><html><head><meta charset=\"utf-8\"><style>"@ + PRINT_DOCUMENT_STYLES@
            + "</style></head><body>"@ + header + print_articles(messages, 0) + "</body></html>"@,
        allow_remote,
        false,
    )
}

pub open spec fn pair_views(v: Seq<(String, String)>) -> Seq<(Seq<char>, Seq<char>)> {
    v.map_values(|p: (String, String)| (p.0@, p.1@))
}

pub fn print_document(header: &str, messages: &[(String, String)], allow_remote: bool) -> (r: String)
    ensures
        r@ == print_doc(header@, pair_views(messages@), allow_remote),
{
    let ghost ms = pair_views(messages@);
    let mut body: Vec<char> = Vec::new();
    push_str(&mut body, header);
    let mut n: usize = 0;
    assert(print_articles(ms, 0) =~= seq![] + print_articles(ms, 0));
    while n < messages.len()
        invariant
            n <= messages@.len(),
            ms == pair_views(messages@),
            body@ + print_articles(ms, n as nat) == header@ + print_articles(ms, 0),
        decreases messages@.len() - n,
    {
        let (head, doc) = (&messages[n].0, &messages[n].1);
        let mut block = chars_of("vireo-print-m");
        let d = crate::text::decimal_usize(n);
        push_all(&mut block, &d);
        let mut dot_block: Vec<char> = Vec::new();
        dot_block.push('.');
        push_all(&mut dot_block, &block);
        let dbs = string_of(&dot_block);
        let inl = inline_body(doc.as_str());
        let scoped = scope_styles(inl.as_str(), dbs.as_str());
        let ghost prev = body@;
        push_str(&mut body, "<article class=\"vireo-print-msg ");
        push_all(&mut body, &block);
        push_str(&mut body, "\">");
        push_str(&mut body, head.as_str());
        push_str(&mut body, scoped.as_str());
        push_str(&mut body, "</article>");
        proof {
            assert(ms[n as int] == (head@, doc@));
            reveal_strlit(".");
            assert(dot_block@ =~= "."@ + print_block(n as nat));
            assert(prev + print_articles(ms, n as nat) =~= body@ + print_articles(ms, n as nat + 1));
        }
        n += 1;
    }
    assert(print_articles(ms, n as nat) =~= seq![]);
    let mut page: Vec<char> = Vec::new();
    push_str(&mut page, "<!doctype html><html><head><meta charset=\"utf-8\"><style>");
    push_str(&mut page, PRINT_DOCUMENT_STYLES);
    push_str(&mut page, "</style></head><body>");
    push_all(&mut page, &body);
    push_str(&mut page, "</body></html>");
    let ps = string_of(&page);
    assert(ps@ =~= "<!doctype html><html><head><meta charset=\"utf-8\"><style>"@ + PRINT_DOCUMENT_STYLES@
            + "</style></head><body>"@ + header@ + print_articles(ms, 0) + "</body></html>"@);
    inject_csp(ps.as_str(), allow_remote, false)
}

// ---------------------------------------------------------------------------
// File names
// ---------------------------------------------------------------------------

/// Characters a file name cannot carry: controls and `/\:*?"<>|`.
pub open spec fn bad_name_char(c: char) -> bool {
    crate::text::is_control(c) || c == '/' || c == '\\' || c == ':' || c == '*' || c == '?' || c
        == '"' || c == '<' || c == '>' || c == '|'
}

/// A character a file name may not start with: whitespace, a dot (a hidden
/// file) or a dash (what a stripped separator leaves, and what looks like a
/// command-line flag).
pub open spec fn lead_char(c: char) -> bool {
    crate::text::is_ws(c) || c == '.' || c == '-'
}

/// The text without its leading whitespace, dots and dashes.
pub open spec fn strip_lead(s: Seq<char>) -> Seq<char>
    decreases s.len(),
{
    if s.len() > 0 && lead_char(s[0]) {
        strip_lead(s.drop_first())
    } else {
        s
    }
}

/// What fits in a file name on any filesystem: 120 characters and 255 bytes.
pub open spec fn name_fits(s: Seq<char>) -> bool {
    s.len() <= 120 && utf8_len(s) <= 255
}

/// The longest prefix of `s` that fits in a file name.
pub open spec fn fitting_prefix(s: Seq<char>) -> Seq<char>
    decreases s.len(),
{
    if s.len() == 0 || name_fits(s) {
        s
    } else {
        fitting_prefix(s.drop_last())
    }
}

/// A subject reduced to a usable file name: forbidden characters become `-`,
/// leading whitespace, dots and dashes go, trailing whitespace goes, at most
/// 120 characters and 255 bytes are kept, and `Message` stands in when
/// nothing usable is left.
pub open spec fn filename(subject: Seq<char>) -> Seq<char> {
    let cleaned = subject.map_values(|c: char| if bad_name_char(c) { '-' } else { c });
    let t = crate::text::trim_end(strip_lead(cleaned));
    if t.len() == 0 {
        "Message"@
    } else {
        crate::text::trim_end(fitting_prefix(t))
    }
}

/// `strip_lead` drops exactly the leading run of whitespace, dots and dashes.
proof fn lemma_strip_lead(s: Seq<char>) -> (a: int)
    ensures
        0 <= a <= s.len(),
        strip_lead(s) == s.skip(a),
        forall|j: int| 0 <= j < a ==> lead_char(#[trigger] s[j]),
        a == s.len() || !lead_char(s[a]),
    decreases s.len(),
{
    if s.len() > 0 && lead_char(s[0]) {
        let b = lemma_strip_lead(s.drop_first());
        assert(s.drop_first().skip(b) =~= s.skip(b + 1));
        assert forall|j: int| 0 <= j < b + 1 implies lead_char(#[trigger] s[j]) by {
            if j > 0 {
                assert(s[j] == s.drop_first()[j - 1]);
            }
        }
        b + 1
    } else {
        assert(s.skip(0) =~= s);
        0
    }
}

/// Past the longest fitting prefix of length `k`, nothing longer fits.
proof fn lemma_fitting_prefix(s: Seq<char>, k: int)
    requires
        0 <= k <= s.len(),
        name_fits(s.take(k)),
        k == s.len() || !name_fits(s.take(k + 1)),
    ensures
        fitting_prefix(s) == s.take(k),
    decreases s.len(),
{
    if s.len() == 0 {
        assert(s.take(k) =~= s);
    } else if name_fits(s) {
        if k < s.len() {
            crate::text::lemma_utf8_len_prefix(s, k + 1);
            assert(s.take(k + 1).len() <= s.len());
        }
        assert(s.take(k) =~= s);
    } else {
        assert(k < s.len()) by {
            if k == s.len() {
                assert(s.take(k) =~= s);
            }
        }
        let d = s.drop_last();
        assert(d.take(k) =~= s.take(k));
        if k < d.len() {
            assert(d.take(k + 1) =~= s.take(k + 1));
        }
        lemma_fitting_prefix(d, k);
    }
}

pub fn sanitize_filename(subject: &str) -> (r: String)
    ensures
        r@ == filename(subject@),
{
    let s = chars_of(subject);
    let mut cleaned: Vec<char> = Vec::new();
    let mut i: usize = 0;
    while i < s.len()
        invariant
            i <= s@.len(),
            cleaned@ =~= s@.take(i as int).map_values(|c: char| if bad_name_char(c) { '-' } else { c }),
        decreases s@.len() - i,
    {
        let c = s[i];
        let bad = crate::text::is_control_char(c) || c == '/' || c == '\\' || c == ':' || c == '*'
            || c == '?' || c == '"' || c == '<' || c == '>' || c == '|';
        cleaned.push(if bad { '-' } else { c });
        i += 1;
    }
    assert(s@.take(s@.len() as int) =~= s@);
    let mut k: usize = 0;
    assert(cleaned@.skip(0) =~= cleaned@);
    while k < cleaned.len() && (crate::text::is_ws_char(cleaned[k]) || cleaned[k] == '.' || cleaned[k] == '-')
        invariant
            k <= cleaned@.len(),
            strip_lead(cleaned@.skip(k as int)) == strip_lead(cleaned@),
        decreases cleaned@.len() - k,
    {
        assert(cleaned@.skip(k as int).drop_first() =~= cleaned@.skip(k + 1));
        k += 1;
    }
    let rest = slice_of(&cleaned, k, cleaned.len());
    assert(rest@ =~= cleaned@.skip(k as int));
    let t = crate::text::trim_end_chars(&rest);
    if t.len() == 0 {
        return string_of(&chars_of("Message"));
    }
    let mut keep: usize = 0;
    let mut used: usize = 0;
    while keep < t.len() && keep < 120 && used + char_width_exec(t[keep]) <= 255
        invariant
            keep <= t@.len(),
            keep <= 120,
            used <= 255,
            used == utf8_len(t@.take(keep as int)),
        decreases t@.len() - keep,
    {
        proof {
            lemma_utf8_len_take_next(t@, keep as int);
        }
        used = used + char_width_exec(t[keep]);
        keep += 1;
    }
    proof {
        if keep < t.len() && keep < 120 {
            lemma_utf8_len_take_next(t@, keep as int);
        }
        lemma_fitting_prefix(t@, keep as int);
    }
    let head = slice_of(&t, 0, keep);
    assert(head@ =~= t@.take(keep as int));
    let out = crate::text::trim_end_chars(&head);
    string_of(&out)
}

/// A file name made from a subject is never empty, has no surrounding
/// whitespace, does not start with a dot or a dash, holds no separator,
/// control or reserved character, and fits in 120 characters and 255 bytes
/// of UTF-8.
pub proof fn law_filename_safe(subject: Seq<char>)
    ensures
        ({
            let r = filename(subject);
            &&& r.len() > 0
            &&& trim(r) == r
            &&& r[0] != '.' && r[0] != '-'
            &&& forall|j: int| 0 <= j < r.len() ==> !bad_name_char(#[trigger] r[j])
            &&& r.len() <= 120
            &&& vstd::utf8::encode_utf8(r).len() <= 255
        }),
{
    let cleaned = subject.map_values(|c: char| if bad_name_char(c) { '-' } else { c });
    let a = lemma_strip_lead(cleaned);
    let sl = strip_lead(cleaned);
    lemma_trim_end_cut(sl);
    let t = crate::text::trim_end(sl);
    let r = filename(subject);
    lemma_utf8_len_encode(r);
    if t.len() == 0 {
        reveal_strlit("Message");
        assert(r =~= "Message"@);
        crate::text::lemma_trim_start_at(r, 0);
        lemma_trim_end_at(r, 7);
        assert(r.subrange(0, 7) =~= r);
        assert(utf8_len(r) == 7) by {
            reveal_with_fuel(utf8_len, 8);
        }
    } else {
        assert(sl.len() > 0);
        assert(!lead_char(sl[0]));
        lemma_longest_fit(t);
        let p = fitting_prefix(t);
        assert(p[0] == sl[0]);
        let c = lemma_trim_end_cut(p);
        assert(r == p.take(c));
        assert(r[0] == sl[0]);
        crate::text::lemma_trim_start_at(r, 0);
        assert(r.subrange(0, r.len() as int) =~= r);
        assert(r[c - 1] == p[c - 1]);
        lemma_trim_end_at(r, r.len() as int);
        assert forall|j: int| 0 <= j < r.len() implies !bad_name_char(#[trigger] r[j]) by {
            assert(r[j] == cleaned[a + j]);
        }
        lemma_utf8_len_prefix(p, c);
    }
}

/// The longest fitting prefix has at least one character when the text has
/// one, and it fits.
proof fn lemma_longest_fit(t: Seq<char>) -> (k: int)
    requires
        t.len() > 0,
    ensures
        1 <= k <= t.len(),
        fitting_prefix(t) == t.take(k),
        name_fits(t.take(k)),
    decreases t.len(),
{
    if name_fits(t) {
        assert(t.take(t.len() as int) =~= t);
        t.len() as int
    } else {
        let d = t.drop_last();
        if d.len() == 0 {
            lemma_utf8_len_take_next(t, 0);
            assert(t.take(0) =~= Seq::<char>::empty());
            assert(t.take(1) =~= t);
            assert(false);
            0
        } else {
            let k = lemma_longest_fit(d);
            assert(d.take(k) =~= t.take(k));
            k
        }
    }
}

// ---------------------------------------------------------------------------
// A whole conversation on paper
// ---------------------------------------------------------------------------

/// One message's printed body: its document, without remote content unless
/// that is allowed.
pub open spec fn printed_body(m: Message, allow_remote: bool) -> Seq<char> {
    if allow_remote {
        crate::escape::body_doc(m.body@)
    } else {
        crate::remote::stripped(crate::escape::body_doc(m.body@))
    }
}

/// The articles of a printed thread: in a conversation each message says who
/// sent it and when (`dates`), as the cards on screen do.
pub open spec fn printed_pairs(thread: Seq<Message>, allow_remote: bool, dates: Seq<Seq<char>>) -> Seq<(Seq<char>, Seq<char>)> {
    Seq::new(
        thread.len(),
        |i: int|
            (
                if thread.len() > 1 {
                    msg_print_header(thread[i], dates[i])
                } else {
                    seq![]
                },
                printed_body(thread[i], allow_remote),
            ),
    )
}

/// The message the top header describes: the first of the thread, else the
/// one being read.
pub open spec fn header_message(thread: Seq<Message>, current: Option<Message>) -> Option<Message> {
    if thread.len() > 0 {
        Some(thread[0])
    } else {
        current
    }
}

pub open spec fn printed_thread(
    thread: Seq<Message>,
    current: Option<Message>,
    allow_remote: bool,
    header_date: Seq<char>,
    dates: Seq<Seq<char>>,
) -> Seq<char> {
    print_doc(
        print_header(header_message(thread, current), header_date),
        printed_pairs(thread, allow_remote, dates),
        allow_remote,
    )
}

/// The printable document for a thread, given the dates its headers show
/// (`header_date` for the top one, `dates[i]` for message `i`).
pub fn print_thread_with(
    thread: &[Message],
    current: Option<&Message>,
    allow_remote: bool,
    header_date: &str,
    dates: &[String],
) -> (r: String)
    requires
        dates@.len() == thread@.len(),
    ensures
        r@ == printed_thread(
            thread@,
            opt_message(current),
            allow_remote,
            header_date@,
            dates@.map_values(|d: String| d@),
        ),
{
    let ghost ds = dates@.map_values(|d: String| d@);
    let conversation = thread.len() > 1;
    let mut messages: Vec<(String, String)> = Vec::new();
    let mut i: usize = 0;
    while i < thread.len()
        invariant
            i <= thread@.len(),
            dates@.len() == thread@.len(),
            conversation == (thread@.len() > 1),
            ds == dates@.map_values(|d: String| d@),
            pair_views(messages@) =~= printed_pairs(thread@, allow_remote, ds).take(i as int),
        decreases thread.len() - i,
    {
        let m = &thread[i];
        let doc = crate::escape::body_html(m.body.as_str());
        let doc = if allow_remote {
            doc
        } else {
            crate::remote::strip_remote(doc.as_str())
        };
        let head = if conversation {
            print_message_header_with(m, dates[i].as_str())
        } else {
            String::new()
        };
        proof {
            assert(ds[i as int] == dates@[i as int]@);
            assert(*m == thread@[i as int]);
            assert(doc@ == printed_body(thread@[i as int], allow_remote));
            assert(head@ == printed_pairs(thread@, allow_remote, ds)[i as int].0);
        }
        let ghost before = messages@;
        let ghost hv = head@;
        let ghost dv = doc@;
        assert(pair_views(before).len() == i);
        assert(before.len() == i);
        messages.push((head, doc));
        proof {
            assert(messages@.len() == i + 1);
            assert(pair_views(messages@)[i as int] == (hv, dv));
            assert forall|j: int| 0 <= j < i + 1 implies #[trigger] pair_views(messages@)[j] == printed_pairs(
                thread@,
                allow_remote,
                ds,
            ).take(i + 1)[j] by {
                if j < i {
                    assert(messages@[j] == before[j]);
                    assert(pair_views(before)[j] == printed_pairs(thread@, allow_remote, ds).take(i as int)[j]);
                }
            }
        }
        assert(pair_views(messages@) =~= printed_pairs(thread@, allow_remote, ds).take(i + 1));
        i += 1;
    }
    assert(printed_pairs(thread@, allow_remote, ds).take(thread@.len() as int) =~= printed_pairs(
        thread@,
        allow_remote,
        ds,
    ));
    let first = if thread.len() > 0 {
        Some(&thread[0])
    } else {
        current
    };
    assert(opt_message(first) == header_message(thread@, opt_message(current)));
    let header = print_header_with(first, header_date);
    print_document(header.as_str(), messages.as_slice(), allow_remote)
}

/// The printable document for a thread, its headers dated by the local clock.
pub fn print_thread_document(thread: &[Message], current: Option<&Message>, allow_remote: bool) -> (r: String)
    ensures
        exists|header_date: Seq<char>, dates: Seq<Seq<char>>|
            #![trigger printed_thread(thread@, opt_message(current), allow_remote, header_date, dates)]
            dates.len() == thread@.len() && (forall|i: int|
                0 <= i < thread@.len() ==> full_date_of(thread@[i].timestamp, #[trigger] dates[i])) && match header_message(thread@, opt_message(current)) {
                Some(m) => full_date_of(m.timestamp, header_date),
                None => header_date.len() == 0,
            } && r@ == printed_thread(
                thread@,
                opt_message(current),
                allow_remote,
                header_date,
                dates,
            ),
{
    let mut dates: Vec<String> = Vec::new();
    let mut i: usize = 0;
    while i < thread.len()
        invariant
            i <= thread.len(),
            dates@.len() == i,
            forall|j: int|
                0 <= j < i ==> full_date_of(thread@[j].timestamp, (#[trigger] dates@[j])@),
        decreases thread.len() - i,
    {
        dates.push(thread[i].datetime_full());
        i += 1;
    }
    let header_date = if thread.len() > 0 {
        thread[0].datetime_full()
    } else {
        match current {
            Some(m) => m.datetime_full(),
            None => String::new(),
        }
    };
    let r = print_thread_with(thread, current, allow_remote, header_date.as_str(), dates.as_slice());
    let ghost ds = dates@.map_values(|d: String| d@);
    assert(ds.len() == thread@.len());
    assert forall|i: int| 0 <= i < thread@.len() implies full_date_of(thread@[i].timestamp, #[trigger] ds[i]) by {
        assert(ds[i] == dates@[i]@);
    }
    r
}

/// `s` with the first occurrence of `pat` replaced by `with`
/// (`str::replacen(pat, with, 1)`).
pub open spec fn replace_first(s: Seq<char>, pat: Seq<char>, with: Seq<char>) -> Seq<char> {
    match find_from(s, pat, 0) {
        Some(i) => s.subrange(0, i) + with + s.subrange(i + pat.len(), s.len() as int),
        None => s,
    }
}

fn replace_first_exec(s: &Vec<char>, pat: &str, with: &str) -> (r: Vec<char>)
    ensures
        r@ == replace_first(s@, pat@, with@),
{
    let p = chars_of(pat);
    match find_from_exec(s, &p, 0) {
        Some(i) => {
            proof {
                lemma_find_from(s@, p@, 0);
            }
            let mut out: Vec<char> = Vec::new();
            push_range(&mut out, s, 0, i);
            push_str(&mut out, with);
            push_range(&mut out, s, i + p.len(), s.len());
            out
        },
        None => slice_of(s, 0, s.len()),
    }
}

/// The printed document dressed as a page for the preview window: the
/// preview's own styles closing the head, the content wrapped in the sheet
/// they draw.
pub open spec fn preview_page(doc: Seq<char>, styles: Seq<char>) -> Seq<char> {
    let d = replace_first(doc, "</head>"@, "<style>"@ + styles + "</style></head>"@);
    let d = replace_first(d, "<body>"@, "<body><div class=\"vireo-print-sheet\">"@);
    replace_first(d, "</body>"@, "</div></body>"@)
}

pub fn preview_html(doc: &str, styles: &str) -> (r: String)
    ensures
        r@ == preview_page(doc@, styles@),
{
    let mut extra: Vec<char> = Vec::new();
    push_str(&mut extra, "<style>");
    push_str(&mut extra, styles);
    push_str(&mut extra, "</style></head>");
    let extra_s = string_of(&extra);
    let d = chars_of(doc);
    let d1 = replace_first_exec(&d, "</head>", extra_s.as_str());
    let d2 = replace_first_exec(&d1, "<body>", "<body><div class=\"vireo-print-sheet\">");
    let d3 = replace_first_exec(&d2, "</body>", "</div></body>");
    string_of(&d3)
}

} // verus!

//! The reader's wrapper document: every message of a conversation as a card
//! with its own header and actions, each body in its own frame, sized by the
//! one script the wrapper's content policy lets run.

use vstd::prelude::*;
use crate::escape::{esc_text, escape_text_chars};
use crate::frame::{frame, key_text, key_text_exec, message_frame};
use crate::model::{Message, full_date_of};
use crate::text::{chars_of, push_all, push_str, string_of, trim, trim_chars};

verus! {

pub const SIZE_SCRIPT: &'static str = "function s(f){try{var d=f.contentDocument;if(!d)return;var b=d.body,e=d.documentElement;var h=Math.max(b?b.scrollHeight:0,e?e.scrollHeight:0,b?b.offsetHeight:0);if(h>0){f.style.height=h+'px';if(f.dataset.key&&f._h!==h){f._h=h;try{window.webkit.messageHandlers.vireo.postMessage('size:'+f.dataset.key+':'+h);}catch(_){}}}}catch(_){}}function pick(k,e){try{var t=(e.view&&e.view.getSelection)?e.view.getSelection():null;if(t&&String(t).length)return;}catch(_){}var mo=e.shiftKey?'r':(e.ctrlKey||e.metaKey?'t':'p');if(e.shiftKey){try{e.preventDefault();}catch(_){}}try{window.webkit.messageHandlers.vireo.postMessage('sel:'+k+':'+mo);}catch(_){}}function init(f){s(f);try{var d=f.contentDocument;if(d){if(window.ResizeObserver&&d.body){new ResizeObserver(function(){s(f);}).observe(d.body);}if(f.dataset.key&&!f._c){f._c=1;d.addEventListener('click',function(e){if(e.target&&e.target.closest&&e.target.closest('a'))return;pick(f.dataset.key,e);});}var im=d.images||[];for(var i=0;i<im.length;i++){if(!im[i].complete){im[i].addEventListener('load',function(){s(f);});im[i].addEventListener('error',function(){s(f);});}}}}catch(_){}setTimeout(function(){s(f);},250);setTimeout(function(){s(f);},1000);}function all(){return document.querySelectorAll('iframe.vireo-frame');}document.addEventListener('DOMContentLoaded',function(){var fs=all();var pend=fs.length,rdy=false;function ready(){if(rdy)return;rdy=true;try{window.webkit.messageHandlers.vireo.postMessage('ready:0:0');}catch(_){}}if(!pend)ready();for(var i=0;i<fs.length;i++){(function(f){var counted=false;function tick(){if(counted)return;counted=true;if(--pend<=0)ready();}if(f.contentDocument&&f.contentDocument.readyState==='complete'){init(f);tick();}f.addEventListener('load',function(){init(f);tick();});})(fs[i]);}setTimeout(ready,450);var hs=document.querySelectorAll('.vireo-msg-hdr');for(var j=0;j<hs.length;j++){hs[j].addEventListener('dblclick',function(){try{window.webkit.messageHandlers.vireo.postMessage('open:'+this.dataset.key);}catch(_){}});}var ms=document.querySelectorAll('.vireo-msg');for(var q=0;q<ms.length;q++){ms[q].addEventListener('click',function(e){var k=this.dataset.key;if(k)pick(k,e);});}var as=document.querySelectorAll('.vireo-act');for(var k=0;k<as.length;k++){as[k].addEventListener('click',function(e){e.stopPropagation();e.preventDefault();try{window.webkit.messageHandlers.vireo.postMessage(this.dataset.act+':'+this.dataset.key);}catch(_){}});as[k].addEventListener('dblclick',function(e){e.stopPropagation();});}var es=document.querySelectorAll('.vireo-end');if(es.length&&window.IntersectionObserver){var io=new IntersectionObserver(function(en,ob){for(var n=0;n<en.length;n++){if(!en[n].isIntersecting)continue;var t=en[n].target,k=t.dataset.key;ob.unobserve(t);var d=document.querySelector('.vireo-dot[data-key=\"'+k+'\"]');if(d)d.remove();try{window.webkit.messageHandlers.vireo.postMessage('seen:'+k);}catch(_){}}});for(var m=0;m<es.length;m++)io.observe(es[m]);}});window.addEventListener('resize',function(){var fs=all();for(var i=0;i<fs.length;i++)s(fs[i]);});";

/// The plain ground a lone message sits on, light and dark.
pub const GROUND_LIGHT: &'static str = "#ffffff";
pub const GROUND_DARK: &'static str = "#1e1e1e";

/// The slightly deeper page a conversation's cards sit on, light and dark.
pub const PAGE_LIGHT: &'static str = "#f1f1f1";
pub const PAGE_DARK: &'static str = "#141414";

/// What stands in for a body that has not arrived yet.
pub const LOADING: &'static str = "<div class=\"vireo-loading\">Loading…</div>";

pub const CSP_NONCE_0: &'static str = "<meta http-equiv=\"Content-Security-Policy\" content=\"script-src 'nonce-";
pub const CSP_NONCE_1: &'static str = "'; object-src 'none'; base-uri 'none'\">";
pub const CSP_NO_SCRIPT: &'static str = "<meta http-equiv=\"Content-Security-Policy\" content=\"script-src 'none'; object-src 'none'; base-uri 'none'\">";
pub const SCRIPT_0: &'static str = "<script nonce=\"";
pub const SCRIPT_1: &'static str = "\">";
pub const SCRIPT_2: &'static str = "</script>";
pub const CONV_CLASS: &'static str = " class=\"vireo-conv\"";
pub const SELECTED: &'static str = " selected";
pub const DOT_0: &'static str = "<span class=\"vireo-dot\" data-key=\"";
pub const DOT_1: &'static str = "\"></span>";
pub const END_0: &'static str = "<div class=\"vireo-end\" data-key=\"";
pub const END_1: &'static str = "\"></div>";
pub const ADDR_0: &'static str = "<span class=\"vireo-addr\">&lt;";
pub const ADDR_1: &'static str = "&gt;</span>";
pub const FOLDER_0: &'static str = "<span class=\"vireo-folder\">";
pub const FOLDER_1: &'static str = "</span>";
pub const WRAP_0: &'static str = "<!doctype html><html><head><meta charset=\"utf-8\">";
pub const WRAP_1: &'static str = "<meta name=\"color-scheme\" content=\"";
pub const WRAP_2: &'static str = "\"><style>:root{color-scheme:";
pub const WRAP_3: &'static str = ";}body{margin:0;padding:0;background:";
pub const WRAP_4: &'static str = ";font:14px/1.55 system-ui,sans-serif;}body.vireo-conv{padding:14px;}iframe.vireo-frame{width:100%;border:0;display:block;background:";
pub const WRAP_5: &'static str = ";}.vireo-msg{background:";
pub const WRAP_6: &'static str = ";border:1px solid rgba(128,128,128,0.28);border-radius:12px;overflow:hidden;margin-bottom:14px;}.vireo-msg:last-child{margin-bottom:0;}.vireo-msg{user-select:none;}.vireo-msg.selected{border-color:";
pub const WRAP_7: &'static str = ";box-shadow:0 0 0 2px ";
pub const WRAP_8: &'static str = ";}.vireo-msg.selected .vireo-msg-hdr{background:";
pub const WRAP_9: &'static str = "26;border-bottom-color:";
pub const WRAP_10: &'static str = "59;}.vireo-msg-hdr{cursor:pointer;}.vireo-msg-hdr{display:flex;gap:8px;align-items:baseline;flex-wrap:wrap;padding:12px 16px;cursor:default;user-select:none;transition:background 120ms ease;border-bottom:1px solid rgba(128,128,128,0.2);}.vireo-msg-hdr:hover{background:rgba(128,128,128,0.16);}.vireo-from{font-weight:700;}.vireo-addr{opacity:0.55;font-size:0.9em;}.vireo-date{margin-left:auto;opacity:0.55;font-size:0.85em;}.vireo-dot{width:8px;height:8px;border-radius:50%;background:#3584e4;flex:none;align-self:center;}.vireo-end{height:1px;}.vireo-acts{display:flex;gap:6px;}.vireo-act{font:inherit;font-size:0.8em;color:inherit;background:none;border:1px solid rgba(128,128,128,0.45);border-radius:999px;padding:2px 10px;cursor:pointer;opacity:0.75;transition:opacity 120ms ease,background 120ms ease;}.vireo-act:hover{opacity:1;background:rgba(128,128,128,0.18);}.vireo-act:active{background:rgba(128,128,128,0.3);}.vireo-folder{margin-left:0.5em;padding:0.05em 0.45em;border-radius:0.7em;font-size:0.78em;opacity:0.75;border:1px solid currentColor;}.vireo-loading{opacity:0.5;padding:16px;}</style>";
pub const WRAP_11: &'static str = "</head><body";
pub const WRAP_12: &'static str = ">";
pub const WRAP_13: &'static str = "</body></html>";
pub const CARD_0: &'static str = "<section class=\"vireo-msg";
pub const CARD_1: &'static str = "\" data-key=\"";
pub const CARD_2: &'static str = "\"><header class=\"vireo-msg-hdr\" data-key=\"";
pub const CARD_3: &'static str = "\" title=\"Double-click to open in a new window\">";
pub const CARD_4: &'static str = "<span class=\"vireo-from\">";
pub const CARD_5: &'static str = "</span>";
pub const CARD_6: &'static str = "<span class=\"vireo-date\">";
pub const CARD_7: &'static str = "</span><span class=\"vireo-acts\"><button type=\"button\" class=\"vireo-act\" data-act=\"reply\" data-key=\"";
pub const CARD_8: &'static str = "\" title=\"Reply to this message\">Reply</button><button type=\"button\" class=\"vireo-act\" data-act=\"replyall\" data-key=\"";
pub const CARD_9: &'static str = "\" title=\"Reply to everyone on this message\">Reply all</button><button type=\"button\" class=\"vireo-act\" data-act=\"forward\" data-key=\"";
pub const CARD_10: &'static str = "\" title=\"Forward this message\">Forward</button></span></header>";
pub const CARD_11: &'static str = "</section>";

// ---------------------------------------------------------------------------
// Grounds
// ---------------------------------------------------------------------------

/// The colour behind what is shown: a conversation's cards sit on the deeper
/// page, a lone message on the plain ground.
pub open spec fn ground_of(conversation: bool, dark: bool) -> Seq<char> {
    if conversation {
        if dark {
            PAGE_DARK@
        } else {
            PAGE_LIGHT@
        }
    } else {
        if dark {
            GROUND_DARK@
        } else {
            GROUND_LIGHT@
        }
    }
}

pub fn ground(conversation: bool, dark: bool) -> (r: &'static str)
    ensures
        r@ == ground_of(conversation, dark),
{
    if conversation {
        if dark {
            PAGE_DARK
        } else {
            PAGE_LIGHT
        }
    } else {
        if dark {
            GROUND_DARK
        } else {
            GROUND_LIGHT
        }
    }
}

/// A hexadecimal digit's value.
pub open spec fn hex_value(c: char) -> Option<u8> {
    let u = c as u32;
    if 48 <= u && u <= 57 {
        Some((u - 48) as u8)
    } else if 97 <= u && u <= 102 {
        Some((u - 87) as u8)
    } else if 65 <= u && u <= 70 {
        Some((u - 55) as u8)
    } else {
        None
    }
}

/// `u8::from_str_radix` on two characters in base 16: an optional `+` and
/// one digit, or two digits.
pub open spec fn hex_pair(a: char, b: char) -> Option<u8> {
    if a == '+' {
        hex_value(b)
    } else {
        match (hex_value(a), hex_value(b)) {
            (Some(x), Some(y)) => Some((x * 16 + y) as u8),
            _ => None,
        }
    }
}

/// One colour channel of `#rrggbb` at `i`, 0 where it does not parse.
pub open spec fn channel(s: Seq<char>, i: int) -> u8 {
    match hex_pair(s[i], s[i + 1]) {
        Some(v) => v,
        None => 0,
    }
}

fn hex_value_exec(c: char) -> (r: Option<u8>)
    ensures
        r == hex_value(c),
{
    let u = c as u32;
    if 48 <= u && u <= 57 {
        Some((u - 48) as u8)
    } else if 97 <= u && u <= 102 {
        Some((u - 87) as u8)
    } else if 65 <= u && u <= 70 {
        Some((u - 55) as u8)
    } else {
        None
    }
}

fn channel_exec(s: &Vec<char>, i: usize) -> (r: u8)
    requires
        i + 1 < s.len(),
    ensures
        r == channel(s@, i as int),
{
    let p = if s[i] == '+' {
        hex_value_exec(s[i + 1])
    } else {
        match (hex_value_exec(s[i]), hex_value_exec(s[i + 1])) {
            (Some(x), Some(y)) => Some(x * 16 + y),
            _ => None,
        }
    };
    match p {
        Some(v) => v,
        None => 0,
    }
}

/// The red, green and blue of a ground written `#rrggbb`, each channel 0
/// where it does not parse. Grounds are ASCII, so characters are bytes.
pub fn ground_rgb(hex: &str) -> (r: (u8, u8, u8))
    requires
        hex@.len() >= 7,
    ensures
        r == (channel(hex@, 1), channel(hex@, 3), channel(hex@, 5)),
{
    let c = chars_of(hex);
    (channel_exec(&c, 1), channel_exec(&c, 3), channel_exec(&c, 5))
}

// ---------------------------------------------------------------------------
// Keyed lookups
// ---------------------------------------------------------------------------

/// The first position at or after `from` whose entry has the given key.
pub open spec fn find_key<V>(entries: Seq<((u32, u32), V)>, key: (u32, u32), from: int) -> Option<int>
    decreases entries.len() - from,
{
    if from < 0 || from >= entries.len() {
        None
    } else if entries[from].0 == key {
        Some(from)
    } else {
        find_key(entries, key, from + 1)
    }
}

/// The value the first entry with the given key carries.
pub open spec fn lookup<V>(entries: Seq<((u32, u32), V)>, key: (u32, u32)) -> Option<V> {
    match find_key(entries, key, 0) {
        Some(i) => Some(entries[i].1),
        None => None,
    }
}

pub proof fn lemma_find_key_bounds<V>(entries: Seq<((u32, u32), V)>, key: (u32, u32), from: int)
    ensures
        match find_key(entries, key, from) {
            Some(i) => from <= i < entries.len() && entries[i].0 == key,
            None => true,
        },
    decreases entries.len() - from,
{
    if 0 <= from < entries.len() && entries[from].0 != key {
        lemma_find_key_bounds(entries, key, from + 1);
    }
}

fn find_key_exec<V>(entries: &[((u32, u32), V)], key: (u32, u32)) -> (r: Option<usize>)
    ensures
        match r {
            Some(i) => find_key(entries@, key, 0) == Some(i as int),
            None => find_key(entries@, key, 0) is None,
        },
{
    let mut i: usize = 0;
    while i < entries.len()
        invariant
            i <= entries.len(),
            find_key(entries@, key, 0) == find_key(entries@, key, i as int),
        decreases entries.len() - i,
    {
        if entries[i].0.0 == key.0 && entries[i].0.1 == key.1 {
            assert(entries@[i as int].0 == key);
            return Some(i);
        }
        i += 1;
    }
    None
}

fn has_key(keys: &[(u32, u32)], key: (u32, u32)) -> (r: bool)
    ensures
        r == keys@.contains(key),
{
    let mut i: usize = 0;
    while i < keys.len()
        invariant
            i <= keys.len(),
            forall|j: int| 0 <= j < i ==> keys@[j] != key,
        decreases keys.len() - i,
    {
        if keys[i].0 == key.0 && keys[i].1 == key.1 {
            assert(keys@[i as int] == key);
            return true;
        }
        i += 1;
    }
    false
}

// ---------------------------------------------------------------------------
// The document
// ---------------------------------------------------------------------------

/// The wrapper's page around its content policy, theme, colours, sizing
/// script and sections.
pub open spec fn wrapper(
    csp: Seq<char>,
    scheme: Seq<char>,
    page: Seq<char>,
    bg: Seq<char>,
    accent: Seq<char>,
    sizer: Seq<char>,
    body_class: Seq<char>,
    sections: Seq<char>,
) -> Seq<char> {
    WRAP_0@
        + csp
        + WRAP_1@
        + scheme
        + WRAP_2@
        + scheme
        + WRAP_3@
        + page
        + WRAP_4@
        + bg
        + WRAP_5@
        + bg
        + WRAP_6@
        + accent
        + WRAP_7@
        + accent
        + WRAP_8@
        + accent
        + WRAP_9@
        + accent
        + WRAP_10@
        + sizer
        + WRAP_11@
        + body_class
        + WRAP_12@
        + sections
        + WRAP_13@
}

fn wrapper_exec(
    csp: &Vec<char>,
    scheme: &str,
    page: &str,
    bg: &str,
    accent: &str,
    sizer: &Vec<char>,
    body_class: &str,
    sections: &Vec<char>,
) -> (r: Vec<char>)
    ensures
        r@ == wrapper(csp@, scheme@, page@, bg@, accent@, sizer@, body_class@, sections@),
{
    let mut out: Vec<char> = Vec::new();
    push_str(&mut out, WRAP_0);
    push_all(&mut out, csp);
    push_str(&mut out, WRAP_1);
    push_str(&mut out, scheme);
    push_str(&mut out, WRAP_2);
    push_str(&mut out, scheme);
    push_str(&mut out, WRAP_3);
    push_str(&mut out, page);
    push_str(&mut out, WRAP_4);
    push_str(&mut out, bg);
    push_str(&mut out, WRAP_5);
    push_str(&mut out, bg);
    push_str(&mut out, WRAP_6);
    push_str(&mut out, accent);
    push_str(&mut out, WRAP_7);
    push_str(&mut out, accent);
    push_str(&mut out, WRAP_8);
    push_str(&mut out, accent);
    push_str(&mut out, WRAP_9);
    push_str(&mut out, accent);
    push_str(&mut out, WRAP_10);
    push_all(&mut out, sizer);
    push_str(&mut out, WRAP_11);
    push_str(&mut out, body_class);
    push_str(&mut out, WRAP_12);
    push_all(&mut out, sections);
    push_str(&mut out, WRAP_13);
    assert(out@ =~= wrapper(csp@, scheme@, page@, bg@, accent@, sizer@, body_class@, sections@));
    out
}

/// One message as a card: its header (unread dot, sender, address, the
/// folder it was read from, date, actions), its body, and the sentinel that
/// reports it read once scrolled through.
pub open spec fn card(
    sel: Seq<char>,
    key: Seq<char>,
    dot: Seq<char>,
    from: Seq<char>,
    addr: Seq<char>,
    folder: Seq<char>,
    date: Seq<char>,
    body: Seq<char>,
    seen_mark: Seq<char>,
) -> Seq<char> {
    CARD_0@
        + sel
        + CARD_1@
        + key
        + CARD_2@
        + key
        + CARD_3@
        + dot
        + CARD_4@
        + from
        + CARD_5@
        + addr
        + folder
        + CARD_6@
        + date
        + CARD_7@
        + key
        + CARD_8@
        + key
        + CARD_9@
        + key
        + CARD_10@
        + body
        + seen_mark
        + CARD_11@
}

fn card_exec(
    sel: &str,
    key: &Vec<char>,
    dot: &Vec<char>,
    from: &Vec<char>,
    addr: &Vec<char>,
    folder: &Vec<char>,
    date: &Vec<char>,
    body: &Vec<char>,
    seen_mark: &Vec<char>,
) -> (r: Vec<char>)
    ensures
        r@ == card(sel@, key@, dot@, from@, addr@, folder@, date@, body@, seen_mark@),
{
    let mut out: Vec<char> = Vec::new();
    push_str(&mut out, CARD_0);
    push_str(&mut out, sel);
    push_str(&mut out, CARD_1);
    push_all(&mut out, key);
    push_str(&mut out, CARD_2);
    push_all(&mut out, key);
    push_str(&mut out, CARD_3);
    push_all(&mut out, dot);
    push_str(&mut out, CARD_4);
    push_all(&mut out, from);
    push_str(&mut out, CARD_5);
    push_all(&mut out, addr);
    push_all(&mut out, folder);
    push_str(&mut out, CARD_6);
    push_all(&mut out, date);
    push_str(&mut out, CARD_7);
    push_all(&mut out, key);
    push_str(&mut out, CARD_8);
    push_all(&mut out, key);
    push_str(&mut out, CARD_9);
    push_all(&mut out, key);
    push_str(&mut out, CARD_10);
    push_all(&mut out, body);
    push_all(&mut out, seen_mark);
    push_str(&mut out, CARD_11);
    assert(out@ =~= card(sel@, key@, dot@, from@, addr@, folder@, date@, body@, seen_mark@));
    out
}

/// A message's body as the reader shows it: its frame, opening at the height
/// it last had, or a placeholder while the body is still loading.
pub open spec fn message_body(m: Message, heights: Seq<((u32, u32), u32)>, restrict: bool, dark: bool) -> Seq<char> {
    if trim(m.body@).len() == 0 {
        LOADING@
    } else {
        frame(m.body@, restrict, dark, (m.account_id, m.id), lookup(heights, (m.account_id, m.id)))
    }
}

/// A message's card in a conversation. Everything a sender controls lands
/// escaped, as text.
pub open spec fn message_card(
    m: Message,
    labels: Seq<((u32, u32), String)>,
    no_autoread: Seq<(u32, u32)>,
    selected: Seq<(u32, u32)>,
    date: Seq<char>,
    body: Seq<char>,
) -> Seq<char> {
    let k = (m.account_id, m.id);
    let key = key_text(k);
    let sel = if selected.contains(k) {
        SELECTED@
    } else {
        seq![]
    };
    let dot = if m.unread {
        DOT_0@ + key + DOT_1@
    } else {
        seq![]
    };
    let addr = if m.from_addr@.len() == 0 {
        seq![]
    } else {
        ADDR_0@ + esc_text(m.from_addr@) + ADDR_1@
    };
    let folder = match lookup(labels, k) {
        Some(l) => FOLDER_0@ + esc_text(l@) + FOLDER_1@,
        None => seq![],
    };
    let seen_mark = if m.unread && !no_autoread.contains(k) {
        END_0@ + key + END_1@
    } else {
        seq![]
    };
    card(sel, key, dot, esc_text(m.from_name@), addr, folder, esc_text(date), body, seen_mark)
}

/// The `i`-th message of the thread as it stands in the document: a card in a
/// conversation, the bare body when it is the only one.
pub open spec fn section(
    thread: Seq<Message>,
    labels: Seq<((u32, u32), String)>,
    no_autoread: Seq<(u32, u32)>,
    heights: Seq<((u32, u32), u32)>,
    selected: Seq<(u32, u32)>,
    restrict: bool,
    dark: bool,
    dates: Seq<String>,
    i: int,
) -> Seq<char> {
    let body = message_body(thread[i], heights, restrict, dark);
    if thread.len() > 1 {
        message_card(thread[i], labels, no_autoread, selected, dates[i]@, body)
    } else {
        body
    }
}

/// The first `n` messages' sections, in thread order.
pub open spec fn sections(
    thread: Seq<Message>,
    labels: Seq<((u32, u32), String)>,
    no_autoread: Seq<(u32, u32)>,
    heights: Seq<((u32, u32), u32)>,
    selected: Seq<(u32, u32)>,
    restrict: bool,
    dark: bool,
    dates: Seq<String>,
    n: int,
) -> Seq<char>
    decreases n,
{
    if n <= 0 {
        seq![]
    } else {
        sections(thread, labels, no_autoread, heights, selected, restrict, dark, dates, n - 1)
            + section(thread, labels, no_autoread, heights, selected, restrict, dark, dates, n - 1)
    }
}

/// The wrapper's own policy: only the script carrying this render's nonce
/// runs; with no nonce, no script at all.
pub open spec fn wrapper_csp(nonce: Option<Seq<char>>) -> Seq<char> {
    match nonce {
        Some(n) => CSP_NONCE_0@ + n + CSP_NONCE_1@,
        None => CSP_NO_SCRIPT@,
    }
}

/// The sizing script, present only when it can carry a nonce.
pub open spec fn sizer(nonce: Option<Seq<char>>) -> Seq<char> {
    match nonce {
        Some(n) => SCRIPT_0@ + n + SCRIPT_1@ + SIZE_SCRIPT@ + SCRIPT_2@,
        None => seq![],
    }
}

/// The whole wrapper document for a thread.
pub open spec fn conversation_doc(
    thread: Seq<Message>,
    labels: Seq<((u32, u32), String)>,
    no_autoread: Seq<(u32, u32)>,
    heights: Seq<((u32, u32), u32)>,
    selected: Seq<(u32, u32)>,
    accent: Seq<char>,
    restrict: bool,
    dark: bool,
    nonce: Option<Seq<char>>,
    dates: Seq<String>,
) -> Seq<char> {
    let conversation = thread.len() > 1;
    let scheme = if dark {
        "dark"@
    } else {
        "light"@
    };
    let body_class = if conversation {
        CONV_CLASS@
    } else {
        seq![]
    };
    wrapper(
        wrapper_csp(nonce),
        scheme,
        ground_of(conversation, dark),
        ground_of(false, dark),
        accent,
        sizer(nonce),
        body_class,
        sections(thread, labels, no_autoread, heights, selected, restrict, dark, dates, thread.len() as int),
    )
}

/// The wrapper opens with `WRAP_0` and its policy, and holds its script.
proof fn lemma_wrapper_parts(
    csp: Seq<char>,
    scheme: Seq<char>,
    page: Seq<char>,
    bg: Seq<char>,
    accent: Seq<char>,
    sz: Seq<char>,
    body_class: Seq<char>,
    secs: Seq<char>,
)
    ensures
        wrapper(csp, scheme, page, bg, accent, sz, body_class, secs).take((WRAP_0@ + csp).len() as int)
            == WRAP_0@ + csp,
        exists|a: Seq<char>, b: Seq<char>| wrapper(csp, scheme, page, bg, accent, sz, body_class, secs) == a + sz + b,
{
    let lead = WRAP_0@ + csp;
    let mid = WRAP_1@ + scheme + WRAP_2@ + scheme + WRAP_3@ + page + WRAP_4@ + bg + WRAP_5@ + bg + WRAP_6@
        + accent + WRAP_7@ + accent + WRAP_8@ + accent + WRAP_9@ + accent + WRAP_10@;
    let tail = WRAP_11@ + body_class + WRAP_12@ + secs + WRAP_13@;
    let doc = wrapper(csp, scheme, page, bg, accent, sz, body_class, secs);
    assert(doc =~= lead + mid + sz + tail);
    assert((lead + mid + sz + tail).take(lead.len() as int) =~= lead);
    assert(doc == (lead + mid) + sz + tail);
}

/// The wrapper document opens with its own content policy, ahead of
/// anything a message brings: with a nonce only scripts carrying it may run
/// (`script-src 'nonce-…'`), and the wrapper's own script, which carries it,
/// is in the document; with none, the policy is `script-src 'none';
/// object-src 'none'; base-uri 'none'` and the wrapper adds no script.
pub proof fn law_wrapper_policy_leads(
    thread: Seq<Message>,
    labels: Seq<((u32, u32), String)>,
    no_autoread: Seq<(u32, u32)>,
    heights: Seq<((u32, u32), u32)>,
    selected: Seq<(u32, u32)>,
    accent: Seq<char>,
    restrict: bool,
    dark: bool,
    nonce: Option<Seq<char>>,
    dates: Seq<String>,
)
    ensures
        ({
            let doc = conversation_doc(thread, labels, no_autoread, heights, selected, accent, restrict, dark, nonce, dates);
            let lead = WRAP_0@ + wrapper_csp(nonce);
            &&& doc.take(lead.len() as int) == lead
            &&& exists|a: Seq<char>, b: Seq<char>| doc == a + sizer(nonce) + b
            &&& match nonce {
                Some(n) => {
                    &&& wrapper_csp(nonce) == CSP_NONCE_0@ + n + CSP_NONCE_1@
                    &&& sizer(nonce) == SCRIPT_0@ + n + SCRIPT_1@ + SIZE_SCRIPT@ + SCRIPT_2@
                },
                None => {
                    &&& wrapper_csp(nonce) == CSP_NO_SCRIPT@
                    &&& sizer(nonce).len() == 0
                },
            }
        }),
{
    let conversation = thread.len() > 1;
    lemma_wrapper_parts(
        wrapper_csp(nonce),
        if dark { "dark"@ } else { "light"@ },
        ground_of(conversation, dark),
        ground_of(false, dark),
        accent,
        sizer(nonce),
        if conversation { CONV_CLASS@ } else { seq![] },
        sections(thread, labels, no_autoread, heights, selected, restrict, dark, dates, thread.len() as int),
    );
}

pub open spec fn opt_view(s: Option<&str>) -> Option<Seq<char>> {
    match s {
        Some(n) => Some(n@),
        None => None,
    }
}

fn message_body_exec(m: &Message, heights: &[((u32, u32), u32)], restrict: bool, dark: bool) -> (r: Vec<char>)
    ensures
        r@ == message_body(*m, heights@, restrict, dark),
{
    let b = chars_of(m.body.as_str());
    let t = trim_chars(&b);
    if t.len() == 0 {
        return chars_of(LOADING);
    }
    let key = (m.account_id, m.id);
    proof {
        lemma_find_key_bounds(heights@, key, 0);
    }
    let height = match find_key_exec(heights, key) {
        Some(i) => Some(heights[i].1),
        None => None,
    };
    let f = message_frame(m.body.as_str(), restrict, dark, key, height);
    chars_of(f.as_str())
}

fn message_card_exec(
    m: &Message,
    labels: &[((u32, u32), String)],
    no_autoread: &[(u32, u32)],
    selected: &[(u32, u32)],
    date: &String,
    body: &Vec<char>,
) -> (r: Vec<char>)
    ensures
        r@ == message_card(*m, labels@, no_autoread@, selected@, date@, body@),
{
    let k = (m.account_id, m.id);
    let key = key_text_exec(k);
    let sel = if has_key(selected, k) {
        SELECTED
    } else {
        ""
    };
    let mut dot: Vec<char> = Vec::new();
    if m.unread {
        push_str(&mut dot, DOT_0);
        push_all(&mut dot, &key);
        push_str(&mut dot, DOT_1);
    }
    let a = chars_of(m.from_addr.as_str());
    let mut addr: Vec<char> = Vec::new();
    if a.len() != 0 {
        push_str(&mut addr, ADDR_0);
        let e = escape_text_chars(&a);
        push_all(&mut addr, &e);
        push_str(&mut addr, ADDR_1);
    }
    let mut folder: Vec<char> = Vec::new();
    proof {
        lemma_find_key_bounds(labels@, k, 0);
    }
    match find_key_exec(labels, k) {
        Some(i) => {
            push_str(&mut folder, FOLDER_0);
            let l = chars_of(labels[i].1.as_str());
            let e = escape_text_chars(&l);
            push_all(&mut folder, &e);
            push_str(&mut folder, FOLDER_1);
        },
        None => {},
    }
    let mut seen_mark: Vec<char> = Vec::new();
    if m.unread && !has_key(no_autoread, k) {
        push_str(&mut seen_mark, END_0);
        push_all(&mut seen_mark, &key);
        push_str(&mut seen_mark, END_1);
    }
    let fr = chars_of(m.from_name.as_str());
    let from = escape_text_chars(&fr);
    let d = chars_of(date.as_str());
    let date_text = escape_text_chars(&d);
    proof {
        reveal_strlit("");
    }
    card_exec(sel, &key, &dot, &from, &addr, &folder, &date_text, body, &seen_mark)
}

/// The reader's document for a thread, with each message's date and time
/// given as shown in its header.
///
/// In a conversation each message is a card on a deeper page, marked when
/// selected, with an unread dot and a read sentinel (unless automatic
/// read-marking is off for it), and its folder when it was read from another
/// one. A single message is its bare frame on the plain ground. The wrapper's
/// policy lets only the script carrying `nonce` run, and none without one.
pub fn conversation_document_with(
    thread: &[Message],
    folder_labels: &[((u32, u32), String)],
    no_autoread: &[(u32, u32)],
    heights: &[((u32, u32), u32)],
    selected: &[(u32, u32)],
    accent: &str,
    restrict: bool,
    dark: bool,
    nonce: Option<&str>,
    dates: &[String],
) -> (r: String)
    requires
        dates.len() == thread.len(),
    ensures
        r@ == conversation_doc(
            thread@,
            folder_labels@,
            no_autoread@,
            heights@,
            selected@,
            accent@,
            restrict,
            dark,
            opt_view(nonce),
            dates@,
        ),
{
    let conversation = thread.len() > 1;
    let mut secs: Vec<char> = Vec::new();
    let mut i: usize = 0;
    while i < thread.len()
        invariant
            i <= thread.len(),
            dates.len() == thread.len(),
            conversation == (thread.len() > 1),
            secs@ == sections(
                thread@,
                folder_labels@,
                no_autoread@,
                heights@,
                selected@,
                restrict,
                dark,
                dates@,
                i as int,
            ),
        decreases thread.len() - i,
    {
        let m = &thread[i];
        let body = message_body_exec(m, heights, restrict, dark);
        if conversation {
            let c = message_card_exec(m, folder_labels, no_autoread, selected, &dates[i], &body);
            push_all(&mut secs, &c);
        } else {
            push_all(&mut secs, &body);
        }
        i += 1;
    }
    let mut csp: Vec<char> = Vec::new();
    let mut script: Vec<char> = Vec::new();
    match nonce {
        Some(n) => {
            push_str(&mut csp, CSP_NONCE_0);
            push_str(&mut csp, n);
            push_str(&mut csp, CSP_NONCE_1);
            push_str(&mut script, SCRIPT_0);
            push_str(&mut script, n);
            push_str(&mut script, SCRIPT_1);
            push_str(&mut script, SIZE_SCRIPT);
            push_str(&mut script, SCRIPT_2);
        },
        None => {
            push_str(&mut csp, CSP_NO_SCRIPT);
        },
    }
    proof {
        reveal_strlit("");
    }
    let scheme = if dark {
        "dark"
    } else {
        "light"
    };
    let body_class = if conversation {
        CONV_CLASS
    } else {
        ""
    };
    let w = wrapper_exec(
        &csp,
        scheme,
        ground(conversation, dark),
        ground(false, dark),
        accent,
        &script,
        body_class,
        &secs,
    );
    string_of(&w)
}

/// The reader's document for a thread, each header dated in the local time
/// zone: [`conversation_document_with`] exactly, given for each message the
/// full header date of its timestamp (`full_date_of`), whose offset from UTC
/// is the machine's.
pub fn conversation_document(
    thread: &[Message],
    folder_labels: &[((u32, u32), String)],
    no_autoread: &[(u32, u32)],
    heights: &[((u32, u32), u32)],
    selected: &[(u32, u32)],
    accent: &str,
    restrict: bool,
    dark: bool,
    nonce: Option<&str>,
) -> (r: String)
    ensures
        exists|dates: Seq<String>|
            #![trigger conversation_doc(thread@, folder_labels@, no_autoread@, heights@, selected@, accent@, restrict, dark, opt_view(nonce), dates)]
            dates.len() == thread.len() && (forall|i: int|
                0 <= i < thread.len() ==> full_date_of(thread@[i].timestamp, (#[trigger] dates[i])@)) && r@ == conversation_doc(
                thread@,
                folder_labels@,
                no_autoread@,
                heights@,
                selected@,
                accent@,
                restrict,
                dark,
                opt_view(nonce),
                dates,
            ),
{
    let mut dates: Vec<String> = Vec::new();
    let mut i: usize = 0;
    while i < thread.len()
        invariant
            i <= thread.len(),
            dates.len() == i,
            forall|j: int|
                0 <= j < i ==> full_date_of(thread@[j].timestamp, (#[trigger] dates@[j])@),
        decreases thread.len() - i,
    {
        dates.push(thread[i].datetime_full());
        i += 1;
    }
    conversation_document_with(
        thread,
        folder_labels,
        no_autoread,
        heights,
        selected,
        accent,
        restrict,
        dark,
        nonce,
        dates.as_slice(),
    )
}

} // verus!

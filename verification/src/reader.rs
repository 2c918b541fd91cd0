//! The reader's decisions: which cards a click selects, what the page's
//! script messages mean, the remembered frame heights, and the marks a
//! conversation keeps as it is read.

use vstd::prelude::*;
use crate::conversation::{find_key, lemma_find_key_bounds, lookup};
use crate::model::{Message, RowAction};
use crate::remote::{has_remote_resources, remote_spans};
use crate::text::{
    chars_of, decimal, decimal_chars, find_char, find_char_exec, is_ascii_digit, lemma_find_char,
    push_all, push_str, slice_of, string_of, trim, trim_chars,
};

verus! {

/// How a click on a conversation card changes the selection, mirroring what
/// the message list does with the same modifiers.
#[derive(Debug, Clone, Copy, PartialEq, Eq, Structural)]
pub enum SelectMode {
    /// Plain click: this message alone.
    Plain,
    /// Ctrl: add or remove this one, leaving the rest.
    Toggle,
    /// Shift: everything between the last selection and this one.
    Range,
}

// ---------------------------------------------------------------------------
// Card selection
// ---------------------------------------------------------------------------

/// The first position at or after `from` where `x` stands.
pub open spec fn position_from(s: Seq<(u32, u32)>, x: (u32, u32), from: int) -> Option<int>
    decreases s.len() - from,
{
    if from < 0 || from >= s.len() {
        None
    } else if s[from] == x {
        Some(from)
    } else {
        position_from(s, x, from + 1)
    }
}

pub open spec fn position(s: Seq<(u32, u32)>, x: (u32, u32)) -> Option<int> {
    position_from(s, x, 0)
}

pub proof fn lemma_position_from(s: Seq<(u32, u32)>, x: (u32, u32), from: int)
    requires
        0 <= from,
    ensures
        match position_from(s, x, from) {
            Some(i) => from <= i < s.len() && s[i] == x && forall|j: int| from <= j < i ==> s[j] != x,
            None => forall|j: int| from <= j < s.len() ==> s[j] != x,
        },
    decreases s.len() - from,
{
    if from < s.len() && s[from] != x {
        lemma_position_from(s, x, from + 1);
    }
}

/// Those of `keys` that are in `order`, in their own order.
pub open spec fn keep_in(keys: Seq<(u32, u32)>, order: Seq<(u32, u32)>) -> Seq<(u32, u32)>
    decreases keys.len(),
{
    if keys.len() == 0 {
        seq![]
    } else {
        let rest = keep_in(keys.drop_last(), order);
        if order.contains(keys.last()) {
            rest.push(keys.last())
        } else {
            rest
        }
    }
}

/// Where a Shift-click's range starts: the first card already selected, where
/// it is shown; else the clicked card; else the top.
pub open spec fn range_anchor(order: Seq<(u32, u32)>, current: Seq<(u32, u32)>, key: (u32, u32)) -> int {
    let from_selection = if current.len() > 0 {
        position(order, current[0])
    } else {
        None
    };
    match from_selection {
        Some(a) => a,
        None => match position(order, key) {
            Some(p) => p,
            None => 0,
        },
    }
}

/// What a click asks for, before anything not in the conversation is dropped.
pub open spec fn clicked_keys(
    order: Seq<(u32, u32)>,
    current: Seq<(u32, u32)>,
    key: (u32, u32),
    mode: SelectMode,
) -> Seq<(u32, u32)> {
    match mode {
        SelectMode::Plain => seq![key],
        SelectMode::Toggle => match position(current, key) {
            Some(p) => current.remove(p),
            None => current.push(key),
        },
        SelectMode::Range => {
            let anchor = range_anchor(order, current, key);
            let here = match position(order, key) {
                Some(p) => p,
                None => anchor,
            };
            let lo = if anchor <= here {
                anchor
            } else {
                here
            };
            let hi = if anchor <= here {
                here
            } else {
                anchor
            };
            order.subrange(lo, hi + 1)
        },
    }
}

/// The selection after a click: only in a conversation (a lone message is
/// already the selection), and only of cards the conversation shows.
pub open spec fn selection_after(
    order: Seq<(u32, u32)>,
    current: Seq<(u32, u32)>,
    key: (u32, u32),
    mode: SelectMode,
) -> Option<Seq<(u32, u32)>> {
    if order.len() <= 1 {
        None
    } else {
        Some(keep_in(clicked_keys(order, current, key, mode), order))
    }
}

fn position_exec(s: &[(u32, u32)], x: (u32, u32)) -> (r: Option<usize>)
    ensures
        match r {
            Some(i) => position(s@, x) == Some(i as int),
            None => position(s@, x) is None,
        },
{
    let mut i: usize = 0;
    while i < s.len()
        invariant
            i <= s.len(),
            position(s@, x) == position_from(s@, x, i as int),
        decreases s.len() - i,
    {
        if s[i].0 == x.0 && s[i].1 == x.1 {
            assert(s@[i as int] == x);
            return Some(i);
        }
        i += 1;
    }
    None
}

fn contains_key(s: &[(u32, u32)], x: (u32, u32)) -> (r: bool)
    ensures
        r == s@.contains(x),
{
    proof {
        lemma_position_from(s@, x, 0);
    }
    match position_exec(s, x) {
        Some(_) => true,
        None => false,
    }
}

fn copy_keys(s: &[(u32, u32)]) -> (r: Vec<(u32, u32)>)
    ensures
        r@ == s@,
{
    let mut out: Vec<(u32, u32)> = Vec::new();
    let mut i: usize = 0;
    while i < s.len()
        invariant
            i <= s.len(),
            out@ == s@.take(i as int),
        decreases s.len() - i,
    {
        out.push(s[i]);
        assert(s@.take(i as int).push(s@[i as int]) =~= s@.take(i + 1 as int));
        i += 1;
    }
    assert(s@.take(s.len() as int) =~= s@);
    out
}

fn keep_in_exec(keys: &Vec<(u32, u32)>, order: &[(u32, u32)]) -> (r: Vec<(u32, u32)>)
    ensures
        r@ == keep_in(keys@, order@),
{
    let mut out: Vec<(u32, u32)> = Vec::new();
    let mut i: usize = 0;
    while i < keys.len()
        invariant
            i <= keys.len(),
            out@ == keep_in(keys@.take(i as int), order@),
        decreases keys.len() - i,
    {
        assert(keys@.take(i + 1 as int).drop_last() =~= keys@.take(i as int));
        if contains_key(order, keys[i]) {
            out.push(keys[i]);
        }
        i += 1;
    }
    assert(keys@.take(keys.len() as int) =~= keys@);
    out
}

proof fn lemma_keep_in_shown(keys: Seq<(u32, u32)>, order: Seq<(u32, u32)>)
    ensures
        forall|i: int| 0 <= i < keep_in(keys, order).len() ==> order.contains(#[trigger] keep_in(keys, order)[i]),
        keep_in(keys, order).len() <= keys.len(),
    decreases keys.len(),
{
    if keys.len() > 0 {
        lemma_keep_in_shown(keys.drop_last(), order);
        let rest = keep_in(keys.drop_last(), order);
        if order.contains(keys.last()) {
            assert forall|i: int| 0 <= i < rest.push(keys.last()).len() implies order.contains(
                #[trigger] rest.push(keys.last())[i],
            ) by {
                if i < rest.len() {
                    assert(rest.push(keys.last())[i] == rest[i]);
                }
            }
        }
    }
}

/// A click selects only cards that the conversation shows, and a plain click
/// on a shown card selects that card alone.
pub proof fn law_selection_shown(order: Seq<(u32, u32)>, current: Seq<(u32, u32)>, key: (u32, u32), mode: SelectMode)
    ensures
        selection_after(order, current, key, mode) matches Some(sel) ==> forall|i: int|
            0 <= i < sel.len() ==> order.contains(#[trigger] sel[i]),
        order.len() > 1 && order.contains(key) ==> selection_after(order, current, key, SelectMode::Plain) == Some(
            seq![key],
        ),
{
    lemma_keep_in_shown(clicked_keys(order, current, key, mode), order);
    if order.len() > 1 && order.contains(key) {
        let one = seq![key];
        assert(one.drop_last() =~= Seq::<(u32, u32)>::empty());
        assert(keep_in(one.drop_last(), order) =~= Seq::<(u32, u32)>::empty());
        assert(keep_in(one, order) =~= seq![key]);
    }
}

/// The cards selected after a click on `key` with `mode`, given the
/// conversation's cards in the order shown and the current selection; `None`
/// when the thread is a single message and a click changes nothing.
pub fn select_cards(order: &[(u32, u32)], current: &[(u32, u32)], key: (u32, u32), mode: SelectMode) -> (r:
    Option<Vec<(u32, u32)>>)
    ensures
        match r {
            Some(v) => selection_after(order@, current@, key, mode) == Some(v@),
            None => selection_after(order@, current@, key, mode) is None,
        },
{
    if order.len() <= 1 {
        return None;
    }
    let keys: Vec<(u32, u32)> = match mode {
        SelectMode::Plain => {
            let mut k: Vec<(u32, u32)> = Vec::new();
            k.push(key);
            assert(k@ =~= seq![key]);
            k
        },
        SelectMode::Toggle => {
            let mut k: Vec<(u32, u32)> = copy_keys(current);
            match position_exec(current, key) {
                Some(p) => {
                    proof {
                        lemma_position_from(current@, key, 0);
                    }
                    k.remove(p);
                },
                None => {
                    k.push(key);
                },
            }
            k
        },
        SelectMode::Range => {
            proof {
                lemma_position_from(order@, key, 0);
                if current@.len() > 0 {
                    lemma_position_from(order@, current@[0], 0);
                }
            }
            let from_selection = if current.len() > 0 {
                position_exec(order, current[0])
            } else {
                None
            };
            let anchor: usize = match from_selection {
                Some(a) => a,
                None => match position_exec(order, key) {
                    Some(p) => p,
                    None => 0,
                },
            };
            let here: usize = match position_exec(order, key) {
                Some(p) => p,
                None => anchor,
            };
            let lo = if anchor <= here {
                anchor
            } else {
                here
            };
            let hi = if anchor <= here {
                here
            } else {
                anchor
            };
            let mut k: Vec<(u32, u32)> = Vec::new();
            let mut j: usize = lo;
            while j <= hi
                invariant
                    lo <= j <= hi + 1,
                    hi < order.len(),
                    k@ == order@.subrange(lo as int, j as int),
                decreases hi + 1 - j,
            {
                k.push(order[j]);
                assert(order@.subrange(lo as int, j as int).push(order@[j as int]) =~= order@.subrange(
                    lo as int,
                    j + 1 as int,
                ));
                j += 1;
            }
            k
        },
    };
    Some(keep_in_exec(&keys, order))
}

// ---------------------------------------------------------------------------
// Messages from the page
// ---------------------------------------------------------------------------

/// What the wrapper document's script reports, as `verb:account:id[:extra]`.
#[derive(Debug, Clone, Copy, PartialEq, Eq, Structural)]
pub enum PageEvent {
    /// Every frame has loaded and been sized.
    Ready,
    /// A card was clicked.
    Select { account_id: u32, id: u32, mode: SelectMode },
    /// A frame measured this tall.
    Sized { account_id: u32, id: u32, height: u32 },
    /// A header was double-clicked.
    Open { account_id: u32, id: u32 },
    /// A message was scrolled all the way through.
    Seen { account_id: u32, id: u32 },
    /// Reply, Reply all or Forward on one card.
    Action { action: RowAction, account_id: u32, id: u32 },
}

/// The value of a run of ASCII digits.
pub open spec fn digits_value(s: Seq<char>) -> nat
    decreases s.len(),
{
    if s.len() == 0 {
        0
    } else {
        digits_value(s.drop_last()) * 10 + ((s.last() as u32) - 48) as nat
    }
}

pub open spec fn all_digits(s: Seq<char>) -> bool {
    forall|i: int| 0 <= i < s.len() ==> is_ascii_digit(#[trigger] s[i])
}

/// `u32::from_str`: an optional `+`, then one or more ASCII digits whose value
/// fits.
pub open spec fn parse_u32(s: Seq<char>) -> Option<u32> {
    let d = if s.len() > 0 && s[0] == '+' {
        s.drop_first()
    } else {
        s
    };
    if d.len() > 0 && all_digits(d) && digits_value(d) <= u32::MAX {
        Some(digits_value(d) as u32)
    } else {
        None
    }
}

proof fn lemma_digits_prefix(s: Seq<char>, i: int)
    requires
        0 <= i <= s.len(),
        all_digits(s),
    ensures
        digits_value(s.take(i)) <= digits_value(s),
    decreases s.len() - i,
{
    if i < s.len() {
        lemma_digits_prefix(s, i + 1);
        assert(s.take(i + 1).drop_last() =~= s.take(i));
        assert(is_ascii_digit(s[i]));
    }
    assert(s.take(s.len() as int) =~= s);
}

/// `u32::from_str` on the characters of `s`.
pub fn parse_u32_chars(s: &Vec<char>) -> (r: Option<u32>)
    ensures
        r == parse_u32(s@),
{
    let start: usize = if s.len() > 0 && s[0] == '+' {
        1
    } else {
        0
    };
    let ghost d = if s@.len() > 0 && s@[0] == '+' {
        s@.drop_first()
    } else {
        s@
    };
    assert(d =~= s@.subrange(start as int, s@.len() as int));
    if start >= s.len() {
        return None;
    }
    let mut v: u64 = 0;
    let mut i: usize = start;
    while i < s.len()
        invariant
            start <= i <= s.len(),
            start < s.len(),
            d == (if s@.len() > 0 && s@[0] == '+' {
                s@.drop_first()
            } else {
                s@
            }),
            d =~= s@.subrange(start as int, s@.len() as int),
            all_digits(d.take(i - start)),
            v == digits_value(d.take(i - start)),
            v <= u32::MAX,
        decreases s.len() - i,
    {
        let c = s[i];
        let cu = c as u32;
        if !(48 <= cu && cu <= 57) {
            assert(d[i - start] == c);
            assert(!is_ascii_digit(d[i - start]));
            return None;
        }
        let ghost k = i - start;
        assert(d.take(k + 1).drop_last() =~= d.take(k));
        assert(d.take(k + 1).last() == c);
        let nv = v * 10 + (cu - 48) as u64;
        assert(digits_value(d.take(k + 1)) == nv);
        if nv > 4294967295 {
            proof {
                assert(all_digits(d.take(k + 1)));
                if all_digits(d) {
                    lemma_digits_prefix(d, k + 1);
                    assert(d.take(k + 1) =~= d.take(k + 1));
                }
            }
            return None;
        }
        v = nv;
        i += 1;
    }
    assert(d.take(s.len() - start) =~= d);
    Some(v as u32)
}

/// The pieces `splitn(4, ':')` yields: three fields and what is left.
pub open spec fn split4(s: Seq<char>) -> Option<(Seq<char>, Seq<char>, Seq<char>, Option<Seq<char>>)> {
    match find_char(s, ':', 0) {
        None => None,
        Some(c1) => match find_char(s, ':', c1 + 1) {
            None => None,
            Some(c2) => match find_char(s, ':', c2 + 1) {
                None => Some((s.subrange(0, c1), s.subrange(c1 + 1, c2), s.subrange(c2 + 1, s.len() as int), None)),
                Some(c3) => Some(
                    (
                        s.subrange(0, c1),
                        s.subrange(c1 + 1, c2),
                        s.subrange(c2 + 1, c3),
                        Some(s.subrange(c3 + 1, s.len() as int)),
                    ),
                ),
            },
        },
    }
}

/// What a posted message means; `None` for anything malformed or unknown.
pub open spec fn page_event(s: Seq<char>) -> Option<PageEvent> {
    match split4(s) {
        None => None,
        Some((verb, a, i, extra)) => match (parse_u32(a), parse_u32(i)) {
            (Some(account_id), Some(id)) => if verb == "ready"@ {
                Some(PageEvent::Ready)
            } else if verb == "sel"@ {
                let mode = if extra == Some("t"@) {
                    SelectMode::Toggle
                } else if extra == Some("r"@) {
                    SelectMode::Range
                } else {
                    SelectMode::Plain
                };
                Some(PageEvent::Select { account_id, id, mode })
            } else if verb == "size"@ {
                match extra {
                    Some(h) => match parse_u32(h) {
                        Some(height) => Some(PageEvent::Sized { account_id, id, height }),
                        None => None,
                    },
                    None => None,
                }
            } else if verb == "open"@ {
                Some(PageEvent::Open { account_id, id })
            } else if verb == "seen"@ {
                Some(PageEvent::Seen { account_id, id })
            } else if verb == "reply"@ {
                Some(PageEvent::Action { action: RowAction::Reply, account_id, id })
            } else if verb == "replyall"@ {
                Some(PageEvent::Action { action: RowAction::ReplyAll, account_id, id })
            } else if verb == "forward"@ {
                Some(PageEvent::Action { action: RowAction::Forward, account_id, id })
            } else {
                None
            },
            _ => None,
        },
    }
}

fn is_word(s: &Vec<char>, w: &str) -> (r: bool)
    ensures
        r == (s@ == w@),
{
    let t = chars_of(w);
    if s.len() != t.len() {
        return false;
    }
    let mut i: usize = 0;
    while i < s.len()
        invariant
            i <= s.len(),
            s.len() == t.len(),
            t@ == w@,
            forall|j: int| 0 <= j < i ==> s@[j] == t@[j],
        decreases s.len() - i,
    {
        if s[i] != t[i] {
            return false;
        }
        i += 1;
    }
    assert(s@ =~= t@);
    true
}

/// Parses what the page posted: `verb:account:id`, with a fourth field for
/// the selection modifier or the measured height. Anything else yields
/// `None`.
pub fn parse_page_event(msg: &str) -> (r: Option<PageEvent>)
    ensures
        r == page_event(msg@),
{
    let s = chars_of(msg);
    let n = s.len();
    let c1 = match find_char_exec(&s, ':', 0) {
        Some(c) => c,
        None => return None,
    };
    proof {
        lemma_find_char(s@, ':', 0);
    }
    let c2 = match find_char_exec(&s, ':', c1 + 1) {
        Some(c) => c,
        None => return None,
    };
    proof {
        lemma_find_char(s@, ':', c1 + 1);
        lemma_find_char(s@, ':', c2 + 1);
    }
    let c3 = find_char_exec(&s, ':', c2 + 1);
    let verb = slice_of(&s, 0, c1);
    let a = slice_of(&s, c1 + 1, c2);
    let (i, extra) = match c3 {
        Some(c) => (slice_of(&s, c2 + 1, c), Some(slice_of(&s, c + 1, n))),
        None => (slice_of(&s, c2 + 1, n), None),
    };
    let account_id = match parse_u32_chars(&a) {
        Some(v) => v,
        None => return None,
    };
    let id = match parse_u32_chars(&i) {
        Some(v) => v,
        None => return None,
    };
    if is_word(&verb, "ready") {
        Some(PageEvent::Ready)
    } else if is_word(&verb, "sel") {
        let mode = match &extra {
            Some(e) => if is_word(e, "t") {
                SelectMode::Toggle
            } else if is_word(e, "r") {
                SelectMode::Range
            } else {
                SelectMode::Plain
            },
            None => SelectMode::Plain,
        };
        Some(PageEvent::Select { account_id, id, mode })
    } else if is_word(&verb, "size") {
        match &extra {
            Some(h) => match parse_u32_chars(h) {
                Some(height) => Some(PageEvent::Sized { account_id, id, height }),
                None => None,
            },
            None => None,
        }
    } else if is_word(&verb, "open") {
        Some(PageEvent::Open { account_id, id })
    } else if is_word(&verb, "seen") {
        Some(PageEvent::Seen { account_id, id })
    } else if is_word(&verb, "reply") {
        Some(PageEvent::Action { action: RowAction::Reply, account_id, id })
    } else if is_word(&verb, "replyall") {
        Some(PageEvent::Action { action: RowAction::ReplyAll, account_id, id })
    } else if is_word(&verb, "forward") {
        Some(PageEvent::Action { action: RowAction::Forward, account_id, id })
    } else {
        None
    }
}

// ---------------------------------------------------------------------------
// What the reader keeps
// ---------------------------------------------------------------------------

/// A message's key: its account and its id there.
pub open spec fn key_of(m: Message) -> (u32, u32) {
    (m.account_id, m.id)
}

/// The message with its unread mark set to `u`.
pub open spec fn with_unread(m: Message, u: bool) -> Message {
    Message { unread: u, ..m }
}

/// Every message with the key set to `u`, the others as they were.
pub open spec fn marked(thread: Seq<Message>, key: (u32, u32), u: bool) -> Seq<Message> {
    Seq::new(
        thread.len(),
        |i: int|
            if key_of(thread[i]) == key {
                with_unread(thread[i], u)
            } else {
                thread[i]
            },
    )
}

fn set_unread(thread: &mut Vec<Message>, key: (u32, u32), u: bool) -> (changed: bool)
    ensures
        final(thread)@ == marked(old(thread)@, key, u),
        changed == exists|i: int|
            0 <= i < old(thread)@.len() && key_of(old(thread)@[i]) == key && #[trigger] old(thread)@[i].unread
                != u,
{
    let ghost start = thread@;
    let mut changed = false;
    let mut i: usize = 0;
    while i < thread.len()
        invariant
            i <= thread.len(),
            thread@.len() == start.len(),
            forall|j: int| 0 <= j < i ==> thread@[j] == marked(start, key, u)[j],
            forall|j: int| i <= j < thread@.len() ==> thread@[j] == start[j],
            changed == exists|j: int|
                0 <= j < i && key_of(start[j]) == key && #[trigger] start[j].unread != u,
        decreases thread.len() - i,
    {
        assert(thread@[i as int] == start[i as int]);
        let hit = thread[i].account_id == key.0 && thread[i].id == key.1;
        assert(hit == (key_of(start[i as int]) == key));
        if hit {
            if thread[i].unread != u {
                assert(start[i as int].unread != u);
                changed = true;
            }
            thread[i].unread = u;
        } else {
            assert(!(key_of(start[i as int]) == key && start[i as int].unread != u));
        }
        i += 1;
    }
    assert(thread@ =~= marked(start, key, u));
    changed
}

/// A conversation message was scrolled through: its unread mark goes, and
/// the answer says whether it had one (and so whether to report it read).
pub fn mark_seen(thread: &mut Vec<Message>, key: (u32, u32)) -> (found: bool)
    ensures
        final(thread)@ == marked(old(thread)@, key, false),
        found == exists|i: int|
            0 <= i < old(thread)@.len() && key_of(old(thread)@[i]) == key && #[trigger] old(thread)@[i].unread,
{
    let r = set_unread(thread, key, false);
    proof {
        if r {
            let i = choose|i: int|
                0 <= i < old(thread)@.len() && key_of(old(thread)@[i]) == key && #[trigger] old(
                    thread,
                )@[i].unread != false;
            assert(old(thread)@[i].unread);
        }
    }
    r
}

/// The user marked a conversation message unread: it shows unread and stays
/// so, not read again by scrolling, until the conversation is next opened.
pub fn suppress_autoread(thread: &mut Vec<Message>, no_autoread: &mut Vec<(u32, u32)>, key: (u32, u32))
    ensures
        final(thread)@ == marked(old(thread)@, key, true),
        final(no_autoread)@ == (if old(no_autoread)@.contains(key) {
            old(no_autoread)@
        } else {
            old(no_autoread)@.push(key)
        }),
{
    if !contains_key(no_autoread.as_slice(), key) {
        no_autoread.push(key);
    }
    set_unread(thread, key, true);
}

/// Where the first message with this key stands in the thread.
pub open spec fn find_message(thread: Seq<Message>, key: (u32, u32), from: int) -> Option<int>
    decreases thread.len() - from,
{
    if from < 0 || from >= thread.len() {
        None
    } else if key_of(thread[from]) == key {
        Some(from)
    } else {
        find_message(thread, key, from + 1)
    }
}

pub proof fn lemma_find_message(thread: Seq<Message>, key: (u32, u32), from: int)
    requires
        0 <= from,
    ensures
        match find_message(thread, key, from) {
            Some(i) => from <= i < thread.len() && key_of(thread[i]) == key && forall|j: int|
                from <= j < i ==> key_of(#[trigger] thread[j]) != key,
            None => forall|j: int| from <= j < thread.len() ==> key_of(#[trigger] thread[j]) != key,
        },
    decreases thread.len() - from,
{
    if from < thread.len() && key_of(thread[from]) != key {
        lemma_find_message(thread, key, from + 1);
    }
}

/// The message a card stands for, by its key: the first in the thread, or
/// `None` when the thread holds no such message.
pub fn message_index(thread: &[Message], key: (u32, u32)) -> (r: Option<usize>)
    ensures
        match r {
            Some(i) => find_message(thread@, key, 0) == Some(i as int) && i < thread.len(),
            None => find_message(thread@, key, 0) is None,
        },
{
    proof {
        lemma_find_message(thread@, key, 0);
    }
    let mut i: usize = 0;
    while i < thread.len()
        invariant
            i <= thread.len(),
            find_message(thread@, key, 0) == find_message(thread@, key, i as int),
        decreases thread.len() - i,
    {
        if thread[i].account_id == key.0 && thread[i].id == key.1 {
            return Some(i);
        }
        i += 1;
    }
    None
}

/// The store with `key` set to `value`: the entry replaced where there is
/// one, else added at the end.
pub open spec fn set_key<V>(entries: Seq<((u32, u32), V)>, key: (u32, u32), value: V) -> Seq<((u32, u32), V)> {
    match find_key(entries, key, 0) {
        Some(i) => entries.update(i, (key, value)),
        None => entries.push((key, value)),
    }
}

/// The store after a frame measured `height`: emptied first once it holds
/// more than 512 heights, so it is trimmed rather than allowed to creep.
pub open spec fn heights_after(store: Seq<((u32, u32), u32)>, key: (u32, u32), height: u32) -> Seq<((u32, u32), u32)> {
    if store.len() > 512 {
        seq![(key, height)]
    } else {
        set_key(store, key, height)
    }
}

pub fn record_height(store: &mut Vec<((u32, u32), u32)>, key: (u32, u32), height: u32)
    ensures
        final(store)@ == heights_after(old(store)@, key, height),
{
    if store.len() > 512 {
        store.clear();
        store.push((key, height));
        assert(store@ =~= seq![(key, height)]);
        return;
    }
    proof {
        lemma_find_key_bounds(store@, key, 0);
    }
    let mut i: usize = 0;
    while i < store.len()
        invariant
            i <= store.len(),
            store@ == old(store)@,
            store.len() <= 512,
            find_key(store@, key, 0) == find_key(store@, key, i as int),
        decreases store.len() - i,
    {
        if store[i].0.0 == key.0 && store[i].0.1 == key.1 {
            assert(store@[i as int].0 == key);
            store.set(i, (key, height));
            return;
        }
        i += 1;
    }
    store.push((key, height));
}

/// Once recorded, a height is what the next document opens that frame at.
pub proof fn law_height_read_back(store: Seq<((u32, u32), u32)>, key: (u32, u32), height: u32)
    ensures
        lookup(heights_after(store, key, height), key) == Some(height),
{
    let s2 = heights_after(store, key, height);
    if store.len() > 512 {
        assert(find_key(s2, key, 0) == Some(0int));
    } else {
        lemma_find_key_bounds(store, key, 0);
        match find_key(store, key, 0) {
            Some(i) => {
                lemma_find_key_same(store, s2, key, 0, i);
            },
            None => {
                lemma_find_key_push(store, key, height, 0);
            },
        }
    }
}

proof fn lemma_find_key_same(
    a: Seq<((u32, u32), u32)>,
    b: Seq<((u32, u32), u32)>,
    key: (u32, u32),
    from: int,
    i: int,
)
    requires
        0 <= from <= i < a.len(),
        a.len() == b.len(),
        find_key(a, key, from) == Some(i),
        b[i] == (key, b[i].1),
        forall|j: int| 0 <= j < a.len() && j != i ==> b[j] == a[j],
    ensures
        find_key(b, key, from) == Some(i),
    decreases i - from,
{
    if from < i {
        lemma_find_key_same(a, b, key, from + 1, i);
    }
}

proof fn lemma_find_key_push(a: Seq<((u32, u32), u32)>, key: (u32, u32), v: u32, from: int)
    requires
        0 <= from <= a.len(),
        find_key(a, key, from) is None,
    ensures
        find_key(a.push((key, v)), key, from) == Some(a.len() as int),
    decreases a.len() - from,
{
    if from < a.len() {
        lemma_find_key_push(a, key, v, from + 1);
    }
}

// ---------------------------------------------------------------------------
// Small decisions
// ---------------------------------------------------------------------------

/// Remote content is blocked when some message of the thread would fetch it
/// and the user has not allowed it.
pub open spec fn blocked(thread: Seq<Message>, allow_remote: bool) -> bool {
    !allow_remote && exists|i: int| 0 <= i < thread.len() && remote_spans(#[trigger] thread[i].body@).len() > 0
}

pub fn remote_blocked(thread: &[Message], allow_remote: bool) -> (r: bool)
    ensures
        r == blocked(thread@, allow_remote),
{
    if allow_remote {
        return false;
    }
    let mut i: usize = 0;
    while i < thread.len()
        invariant
            i <= thread.len(),
            !allow_remote,
            forall|j: int| 0 <= j < i ==> remote_spans(#[trigger] thread@[j].body@).len() == 0,
        decreases thread.len() - i,
    {
        if has_remote_resources(thread[i].body.as_str()) {
            assert(remote_spans(thread@[i as int].body@).len() > 0);
            return true;
        }
        i += 1;
    }
    false
}

/// Whether the reader still shows the same message: both there, with the
/// same account and id.
pub fn same_message(current: Option<&Message>, shown: Option<&Message>) -> (r: bool)
    ensures
        r == (match (current, shown) {
            (Some(a), Some(b)) => a.id == b.id && a.account_id == b.account_id,
            _ => false,
        }),
{
    match (current, shown) {
        (Some(a), Some(b)) => a.id == b.id && a.account_id == b.account_id,
        _ => false,
    }
}

/// Which page of the body stack to show: the spinner while fetching and
/// until the document has painted, then the body.
pub fn body_page(loading: bool, webview_ready: bool) -> (r: &'static str)
    ensures
        r@ == (if loading || !webview_ready {
            "loading"@
        } else {
            "body"@
        }),
{
    if loading || !webview_ready {
        "loading"
    } else {
        "body"
    }
}

/// What to call the print job: the subject, or something rather than
/// nothing.
pub open spec fn job_title(current: Option<Message>) -> Seq<char> {
    match current {
        Some(m) => if trim(m.subject@).len() > 0 {
            m.subject@
        } else {
            "Message"@
        },
        None => "Message"@,
    }
}

pub fn job_name(current: Option<&Message>) -> (r: String)
    ensures
        r@ == job_title(match current {
            Some(m) => Some(*m),
            None => None,
        }),
{
    match current {
        Some(m) => {
            let s = chars_of(m.subject.as_str());
            let t = trim_chars(&s);
            if t.len() > 0 {
                return string_of(&s);
            }
        },
        None => {},
    }
    let w = chars_of("Message");
    string_of(&w)
}

pub const SELECTION_SCRIPT_0: &'static str = "(function(){var s=[";
pub const SELECTION_SCRIPT_1: &'static str = "];             var els=document.querySelectorAll('.vireo-msg');             for(var i=0;i<els.length;i++){var k=els[i].dataset.key;             els[i].classList.toggle('selected', s.indexOf(k)>=0);}})()";

/// `'aid:id'`, one key as a script string literal.
pub open spec fn quoted_key(k: (u32, u32)) -> Seq<char> {
    "'"@ + decimal(k.0 as nat) + ":"@ + decimal(k.1 as nat) + "'"@
}

/// The quoted keys, separated by commas.
pub open spec fn key_list(keys: Seq<(u32, u32)>) -> Seq<char>
    decreases keys.len(),
{
    if keys.len() == 0 {
        seq![]
    } else if keys.len() == 1 {
        quoted_key(keys[0])
    } else {
        key_list(keys.drop_last()) + ","@ + quoted_key(keys.last())
    }
}

/// The script that outlines the selected cards in the document on screen,
/// without rendering it again.
pub fn card_selection_script(keys: &[(u32, u32)]) -> (r: String)
    ensures
        r@ == SELECTION_SCRIPT_0@ + key_list(keys@) + SELECTION_SCRIPT_1@,
{
    let mut out: Vec<char> = Vec::new();
    push_str(&mut out, SELECTION_SCRIPT_0);
    let ghost start = out@;
    let mut i: usize = 0;
    while i < keys.len()
        invariant
            i <= keys.len(),
            out@ == start + key_list(keys@.take(i as int)),
        decreases keys.len() - i,
    {
        assert(keys@.take(i + 1 as int).drop_last() =~= keys@.take(i as int));
        if i > 0 {
            push_str(&mut out, ",");
        }
        push_str(&mut out, "'");
        let a = decimal_chars(keys[i].0);
        push_all(&mut out, &a);
        push_str(&mut out, ":");
        let b = decimal_chars(keys[i].1);
        push_all(&mut out, &b);
        push_str(&mut out, "'");
        proof {
            if i == 0 {
                assert(keys@.take(1)[0] == keys@[0]);
            }
        }
        assert(out@ =~= start + key_list(keys@.take(i + 1 as int)));
        i += 1;
    }
    assert(keys@.take(keys.len() as int) =~= keys@);
    push_str(&mut out, SELECTION_SCRIPT_1);
    string_of(&out)
}

/// The header's Cc line: `Cc: ` and the trimmed recipients, or nothing when
/// there are none.
pub open spec fn cc_text(m: Option<Message>) -> Seq<char> {
    match m {
        Some(m) => if trim(m.cc@).len() > 0 {
            "Cc: "@ + trim(m.cc@)
        } else {
            seq![]
        },
        None => seq![],
    }
}

pub fn cc_line(m: Option<&Message>) -> (r: String)
    ensures
        r@ == cc_text(match m {
            Some(x) => Some(*x),
            None => None,
        }),
{
    match m {
        Some(m) => {
            let t = crate::text::trim_chars(&chars_of(m.cc.as_str()));
            if t.len() > 0 {
                let mut out: Vec<char> = Vec::new();
                crate::text::push_str(&mut out, "Cc: ");
                crate::text::push_all(&mut out, &t);
                string_of(&out)
            } else {
                String::new()
            }
        },
        None => String::new(),
    }
}

/// The sender's address as a `mailto:` link in the header, given the address
/// already escaped for markup; nothing without an address.
pub open spec fn email_link_text(m: Option<Message>, escaped: Seq<char>) -> Seq<char> {
    match m {
        Some(m) => if m.from_addr@.len() > 0 {
            "<a href=\"mailto:"@ + escaped + "\">"@ + escaped + "</a>"@
        } else {
            seq![]
        },
        None => seq![],
    }
}

pub fn email_link(m: Option<&Message>, escaped: &str) -> (r: String)
    ensures
        r@ == email_link_text(
            match m {
                Some(x) => Some(*x),
                None => None,
            },
            escaped@,
        ),
{
    match m {
        Some(m) => {
            if m.from_addr.as_str().unicode_len() > 0 {
                let mut out: Vec<char> = Vec::new();
                crate::text::push_str(&mut out, "<a href=\"mailto:");
                crate::text::push_str(&mut out, escaped);
                crate::text::push_str(&mut out, "\">");
                crate::text::push_str(&mut out, escaped);
                crate::text::push_str(&mut out, "</a>");
                string_of(&out)
            } else {
                String::new()
            }
        },
        None => String::new(),
    }
}

} // verus!

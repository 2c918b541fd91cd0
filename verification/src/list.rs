//! The message list's own rules: how rows are named and classed, how
//! subjects and senders sort, and what the header count says.

use vstd::prelude::*;
use crate::model::Message;
use crate::text::{
    chars_of, decimal, decimal_usize, find_char, find_char_exec, join, join_exec, lemma_find_char,
    lower, lower_chars, push_all, push_str, slice_of, split_on, split_on_exec, starts_with,
    strip_char, strip_char_exec, strip_end_char, strip_end_char_exec, string_of, trim, trim_chars,
    trim_start, trim_start_chars, views,
};

verus! {

/// How the message list is ordered.
#[derive(Debug, Clone, Copy, PartialEq, Eq, Structural)]
pub enum SortOrder {
    DateNewest,
    DateOldest,
    Sender,
    Subject,
    UnreadFirst,
    FlaggedFirst,
}

impl SortOrder {
    /// The order a stored preference names; anything unknown is newest first.
    pub fn from_key(key: &str) -> (r: Self)
        ensures
            r == (if key@ == "date_oldest"@ {
                SortOrder::DateOldest
            } else if key@ == "sender"@ {
                SortOrder::Sender
            } else if key@ == "subject"@ {
                SortOrder::Subject
            } else if key@ == "unread"@ {
                SortOrder::UnreadFirst
            } else if key@ == "flagged"@ {
                SortOrder::FlaggedFirst
            } else {
                SortOrder::DateNewest
            }),
    {
        let k = chars_of(key);
        if is_text(&k, "date_oldest") {
            SortOrder::DateOldest
        } else if is_text(&k, "sender") {
            SortOrder::Sender
        } else if is_text(&k, "subject") {
            SortOrder::Subject
        } else if is_text(&k, "unread") {
            SortOrder::UnreadFirst
        } else if is_text(&k, "flagged") {
            SortOrder::FlaggedFirst
        } else {
            SortOrder::DateNewest
        }
    }
}

/// Which messages the search field filters over.
#[derive(Debug, Clone, Copy, PartialEq, Eq, Structural)]
pub enum SearchScope {
    /// Every folder of every account (the merged search pool).
    AllFolders,
    /// Only the folder currently shown.
    ThisFolder,
}

/// A bulk action applied to every selected message at once.
#[derive(Debug, Clone, Copy, PartialEq, Eq, Structural)]
pub enum BulkAction {
    MarkRead,
    MarkUnread,
    Flag,
    Archive,
    Spam,
    Delete,
}

/// Whether the characters are exactly `w`.
pub fn is_text(s: &Vec<char>, w: &str) -> (r: bool)
    ensures
        r == (s@ == w@),
{
    let t = chars_of(w);
    if s.len() != t.len() {
        return false;
    }
    let mut i: usize = 0;
    while i < s.len()
        invariant
            i <= s.len(),
            s.len() == t.len(),
            t@ == w@,
            forall|j: int| 0 <= j < i ==> s@[j] == t@[j],
        decreases s.len() - i,
    {
        if s[i] != t[i] {
            return false;
        }
        i += 1;
    }
    assert(s@ =~= t@);
    true
}

// ---------------------------------------------------------------------------
// Recipients
// ---------------------------------------------------------------------------

/// The display name in one `To` entry: the quoted or bare name before `<`,
/// else the address inside the brackets, else the entry itself.
pub open spec fn recipient_name(part: Seq<char>) -> Seq<char> {
    let p = trim(part);
    match find_char(p, '<', 0) {
        Some(i) => {
            let n = strip_char(trim(p.subrange(0, i)), '"');
            if n.len() > 0 {
                n
            } else {
                trim(strip_end_char(p.subrange(i + 1, p.len() as int), '>'))
            }
        },
        None => p,
    }
}

/// The non-empty names of the entries, in order.
pub open spec fn names_of(parts: Seq<Seq<char>>) -> Seq<Seq<char>>
    decreases parts.len(),
{
    if parts.len() == 0 {
        seq![]
    } else {
        let rest = names_of(parts.drop_last());
        let name = recipient_name(parts.last());
        if name.len() > 0 {
            rest.push(name)
        } else {
            rest
        }
    }
}

/// Display names from a raw `To` header: `Ann <a@x>, b@y` gives `Ann, b@y`.
pub open spec fn recipient_list(to: Seq<char>) -> Seq<char> {
    join(names_of(split_on(to, ',')), ", "@)
}

fn recipient_name_exec(part: &Vec<char>) -> (r: Vec<char>)
    ensures
        r@ == recipient_name(part@),
{
    let p = trim_chars(part);
    proof {
        lemma_find_char(p@, '<', 0);
    }
    match find_char_exec(&p, '<', 0) {
        Some(i) => {
            let before = slice_of(&p, 0, i);
            let t = trim_chars(&before);
            let n = strip_char_exec(&t, '"');
            if n.len() > 0 {
                n
            } else {
                let rest = slice_of(&p, i + 1, p.len());
                let r = strip_end_char_exec(&rest, '>');
                trim_chars(&r)
            }
        },
        None => p,
    }
}

fn names_exec(parts: &Vec<Vec<char>>) -> (r: Vec<Vec<char>>)
    ensures
        views(r@) == names_of(views(parts@)),
{
    let mut out: Vec<Vec<char>> = Vec::new();
    let mut i: usize = 0;
    while i < parts.len()
        invariant
            i <= parts.len(),
            views(out@) == names_of(views(parts@.take(i as int))),
        decreases parts.len() - i,
    {
        assert(views(parts@.take(i + 1 as int)).drop_last() =~= views(parts@.take(i as int)));
        assert(views(parts@.take(i + 1 as int)).last() == parts@[i as int]@);
        let name = recipient_name_exec(&parts[i]);
        if name.len() > 0 {
            let ghost before = out@;
            out.push(name);
            assert(views(out@) =~= views(before).push(name@));
        }
        i += 1;
    }
    assert(parts@.take(parts.len() as int) =~= parts@);
    out
}

/// Display names from a raw `To` header: `Ann <a@x>, b@y` gives `Ann, b@y`.
pub fn recipient_names(to: &str) -> (r: String)
    ensures
        r@ == recipient_list(to@),
{
    let t = chars_of(to);
    let parts = split_on_exec(&t, ',');
    let names = names_exec(&parts);
    let j = join_exec(&names, ", ");
    string_of(&j)
}

/// The first entry that is not blank, trimmed.
pub open spec fn first_nonblank(parts: Seq<Seq<char>>) -> Option<Seq<char>>
    decreases parts.len(),
{
    if parts.len() == 0 {
        None
    } else if trim(parts[0]).len() > 0 {
        Some(trim(parts[0]))
    } else {
        first_nonblank(parts.drop_first())
    }
}

/// The first recipient's bare address from a raw `To` header, if any.
pub open spec fn first_address(to: Seq<char>) -> Option<Seq<char>> {
    match first_nonblank(split_on(to, ',')) {
        None => None,
        Some(f) => {
            let addr = match find_char(f, '<', 0) {
                Some(i) => trim(strip_end_char(f.subrange(i + 1, f.len() as int), '>')),
                None => f,
            };
            if addr.len() > 0 {
                Some(addr)
            } else {
                None
            }
        },
    }
}

pub fn first_recipient_addr(to: &str) -> (r: Option<String>)
    ensures
        match r {
            Some(a) => first_address(to@) == Some(a@),
            None => first_address(to@) is None,
        },
{
    let t = chars_of(to);
    let parts = split_on_exec(&t, ',');
    let ghost ps = views(parts@);
    assert(ps.subrange(0, ps.len() as int) =~= ps);
    let mut i: usize = 0;
    while i < parts.len()
        invariant
            i <= parts.len(),
            ps == views(parts@),
            ps == split_on(to@, ','),
            first_nonblank(ps) == first_nonblank(ps.subrange(i as int, ps.len() as int)),
        decreases parts.len() - i,
    {
        let p = trim_chars(&parts[i]);
        assert(ps.subrange(i as int, ps.len() as int)[0] == parts@[i as int]@);
        if p.len() > 0 {
            proof {
                lemma_find_char(p@, '<', 0);
            }
            let addr = match find_char_exec(&p, '<', 0) {
                Some(k) => {
                    let rest = slice_of(&p, k + 1, p.len());
                    let r = strip_end_char_exec(&rest, '>');
                    trim_chars(&r)
                },
                None => p,
            };
            if addr.len() > 0 {
                return Some(string_of(&addr));
            } else {
                return None;
            }
        }
        assert(ps.subrange(i as int, ps.len() as int).drop_first() =~= ps.subrange(i + 1, ps.len() as int));
        i += 1;
    }
    None
}

// ---------------------------------------------------------------------------
// Rows
// ---------------------------------------------------------------------------

/// The row's name line: the sender, or in a Sent folder who the message went
/// to, since every sender there is you.
pub open spec fn name_line_of(m: Message, show_recipient: bool) -> Seq<char> {
    let names = recipient_list(m.to@);
    if !show_recipient || names.len() == 0 {
        m.from_name@
    } else {
        "To: "@ + names
    }
}

pub fn name_line(m: &Message, show_recipient: bool) -> (r: String)
    ensures
        r@ == name_line_of(*m, show_recipient),
{
    if !show_recipient {
        let f = chars_of(m.from_name.as_str());
        return string_of(&f);
    }
    let names = recipient_names(m.to.as_str());
    let n = chars_of(names.as_str());
    if n.len() == 0 {
        let f = chars_of(m.from_name.as_str());
        string_of(&f)
    } else {
        let mut out: Vec<char> = Vec::new();
        push_str(&mut out, "To: ");
        push_all(&mut out, &n);
        string_of(&out)
    }
}

/// What the avatar's initials key on: the first recipient in a Sent folder,
/// the sender everywhere else.
pub open spec fn face_name_of(m: Message, show_recipient: bool) -> Seq<char> {
    let first = trim(split_on(recipient_list(m.to@), ',')[0]);
    if show_recipient && first.len() > 0 {
        first
    } else {
        m.from_name@
    }
}

pub fn face_name(m: &Message, show_recipient: bool) -> (r: String)
    ensures
        r@ == face_name_of(*m, show_recipient),
{
    if show_recipient {
        let names = recipient_names(m.to.as_str());
        let n = chars_of(names.as_str());
        let parts = split_on_exec(&n, ',');
        proof {
            lemma_split_nonempty(n@, ',', 0);
        }
        let first = trim_chars(&parts[0]);
        if first.len() > 0 {
            return string_of(&first);
        }
    }
    let f = chars_of(m.from_name.as_str());
    string_of(&f)
}

proof fn lemma_split_nonempty(s: Seq<char>, c: char, from: int)
    requires
        0 <= from <= s.len(),
    ensures
        crate::text::split_from(s, c, from).len() > 0,
{
    crate::text::lemma_find_char(s, c, from);
}

/// The address face lookups run against: the first recipient's in a Sent
/// folder, the sender's everywhere else.
pub open spec fn face_email_of(m: Message, show_recipient: bool) -> Seq<char> {
    match first_address(m.to@) {
        Some(a) if show_recipient => a,
        _ => m.from_addr@,
    }
}

pub fn face_email(m: &Message, show_recipient: bool) -> (r: String)
    ensures
        r@ == face_email_of(*m, show_recipient),
{
    if show_recipient {
        match first_recipient_addr(m.to.as_str()) {
            Some(a) => {
                return a;
            },
            None => {},
        }
    }
    let f = chars_of(m.from_addr.as_str());
    string_of(&f)
}

/// The views of a list of class names.
pub open spec fn names(v: Seq<&'static str>) -> Seq<Seq<char>> {
    v.map_values(|s: &'static str| s@)
}

/// A row's base classes: the unread highlight.
pub fn row_classes(m: &Message) -> (r: Vec<&'static str>)
    ensures
        names(r@) == (if m.unread {
            seq!["message-unread"@]
        } else {
            seq![]
        }),
{
    let mut v: Vec<&'static str> = Vec::new();
    if m.unread {
        v.push("message-unread");
    }
    assert(names(v@) =~= (if m.unread {
        seq!["message-unread"@]
    } else {
        seq![]
    }));
    v
}

/// Row classes: the unread highlight, the heavier `thread-unread` on a
/// thread head with unread mail anywhere in its conversation, and the
/// `thread-child` indent for replies.
pub fn row_css(m: &Message, thread_unread: bool, is_thread_child: bool) -> (r: Vec<&'static str>)
    ensures
        names(r@) == (if m.unread {
            seq!["message-unread"@]
        } else {
            seq![]
        }) + (if thread_unread {
            seq!["thread-unread"@]
        } else {
            seq![]
        }) + (if is_thread_child {
            seq!["thread-child"@]
        } else {
            seq![]
        }),
{
    let mut v = row_classes(m);
    let ghost a = names(v@);
    if thread_unread {
        v.push("thread-unread");
    }
    let ghost b = names(v@);
    assert(b =~= a + (if thread_unread {
        seq!["thread-unread"@]
    } else {
        seq![]
    }));
    if is_thread_child {
        v.push("thread-child");
    }
    assert(names(v@) =~= b + (if is_thread_child {
        seq!["thread-child"@]
    } else {
        seq![]
    }));
    v
}

/// The row's content box: the wide inset only while the sender circle is
/// drawn.
pub fn content_css(avatars: bool) -> (r: Vec<&'static str>)
    ensures
        names(r@) == (if avatars {
            seq!["message-row"@]
        } else {
            seq!["message-row"@, "no-avatar"@]
        }),
{
    let mut v: Vec<&'static str> = Vec::new();
    v.push("message-row");
    if !avatars {
        v.push("no-avatar");
    }
    assert(names(v@) =~= (if avatars {
        seq!["message-row"@]
    } else {
        seq!["message-row"@, "no-avatar"@]
    }));
    v
}

/// The palette chevron: revealed while the row is hovered or its palette is
/// open.
pub fn chevron_classes(hovered: bool, palette_open: bool) -> (r: Vec<&'static str>)
    ensures
        names(r@) == seq!["flat"@, "palette-toggle"@] + (if hovered || palette_open {
            seq!["revealed"@]
        } else {
            seq![]
        }),
{
    let mut v: Vec<&'static str> = Vec::new();
    v.push("flat");
    v.push("palette-toggle");
    if hovered || palette_open {
        v.push("revealed");
    }
    assert(names(v@) =~= seq!["flat"@, "palette-toggle"@] + (if hovered || palette_open {
        seq!["revealed"@]
    } else {
        seq![]
    }));
    v
}

/// Unread for display: the message itself, or on a thread head any message
/// hidden in its conversation.
pub fn display_unread(m: &Message, thread_unread: bool) -> (r: bool)
    ensures
        r == (m.unread || thread_unread),
{
    m.unread || thread_unread
}

/// The sender label's classes, bold while unread.
pub fn sender_classes(m: &Message, thread_unread: bool) -> (r: Vec<&'static str>)
    ensures
        names(r@) == seq!["message-sender"@] + (if m.unread || thread_unread {
            seq!["unread"@]
        } else {
            seq![]
        }),
{
    let mut v: Vec<&'static str> = Vec::new();
    v.push("message-sender");
    if display_unread(m, thread_unread) {
        v.push("unread");
    }
    assert(names(v@) =~= seq!["message-sender"@] + (if m.unread || thread_unread {
        seq!["unread"@]
    } else {
        seq![]
    }));
    v
}

/// The subject label's classes, bold while unread.
pub fn subject_classes(m: &Message, thread_unread: bool) -> (r: Vec<&'static str>)
    ensures
        names(r@) == seq!["message-subject"@] + (if m.unread || thread_unread {
            seq!["unread"@]
        } else {
            seq![]
        }),
{
    let mut v: Vec<&'static str> = Vec::new();
    v.push("message-subject");
    if display_unread(m, thread_unread) {
        v.push("unread");
    }
    assert(names(v@) =~= seq!["message-subject"@] + (if m.unread || thread_unread {
        seq!["unread"@]
    } else {
        seq![]
    }));
    v
}

/// The account ring around the avatar, when the row has one.
pub fn ring_classes(ring_class: &Option<String>) -> (r: Vec<String>)
    ensures
        match ring_class {
            Some(c) => r@.len() == 1 && r@[0]@ == c@,
            None => r@.len() == 0,
        },
{
    let mut v: Vec<String> = Vec::new();
    match ring_class {
        Some(c) => {
            let k = chars_of(c.as_str());
            v.push(string_of(&k));
        },
        None => {},
    }
    v
}

/// The account-ring class of the unified view, when rows are tinted and the
/// account has a colour.
pub fn ring_class(colorize: bool, has_color: bool, account_id: u32) -> (r: Option<String>)
    ensures
        match r {
            Some(c) => colorize && has_color && c@ == "vireo-acct-ring-"@ + decimal(account_id as nat),
            None => !(colorize && has_color),
        },
{
    if colorize && has_color {
        let mut out: Vec<char> = Vec::new();
        push_str(&mut out, "vireo-acct-ring-");
        let d = crate::text::decimal_chars(account_id);
        push_all(&mut out, &d);
        Some(string_of(&out))
    } else {
        None
    }
}

// ---------------------------------------------------------------------------
// Header count, paging, search
// ---------------------------------------------------------------------------

/// The most messages rendered at once before the user scrolls for more.
pub const RENDER_CAP: usize = 200;

/// The header-bar count: total matches, noting when more exist than are
/// shown.
pub open spec fn count_text(rendered: usize, total: usize) -> Seq<char> {
    if total > rendered {
        decimal(rendered as nat) + " of "@ + decimal(total as nat)
    } else {
        decimal(total as nat)
    }
}

pub fn count_label(rendered: usize, total: usize) -> (r: String)
    ensures
        r@ == count_text(rendered, total),
{
    let mut out: Vec<char> = Vec::new();
    if total > rendered {
        let a = decimal_usize(rendered);
        push_all(&mut out, &a);
        push_str(&mut out, " of ");
        let b = decimal_usize(total);
        push_all(&mut out, &b);
    } else {
        let b = decimal_usize(total);
        push_all(&mut out, &b);
    }
    string_of(&out)
}

/// The bottom spinner shows while the user has scrolled past what is indexed
/// and the folder's index is still streaming in.
pub fn is_loading_more(render_limit: usize, total: usize, index_complete: bool) -> (r: bool)
    ensures
        r == (render_limit > total && !index_complete),
{
    render_limit > total && !index_complete
}

/// The next render limit when the list is scrolled to the bottom: one more
/// page when the index has more, or may still get more; `None` otherwise.
pub fn load_more(render_limit: usize, rendered: usize, total: usize, index_complete: bool) -> (r: Option<usize>)
    ensures
        match r {
            Some(n) => (rendered < total || !index_complete) && n == (if render_limit + RENDER_CAP > usize::MAX {
                usize::MAX as int
            } else {
                render_limit + RENDER_CAP
            }),
            None => !(rendered < total || !index_complete),
        },
{
    if rendered < total || !index_complete {
        Some(render_limit.saturating_add(RENDER_CAP))
    } else {
        None
    }
}

/// How many preview lines a row shows: at most three, zero allowed.
pub fn preview_lines(lines: u32) -> (r: u32)
    ensures
        r == (if lines < 3 {
            lines
        } else {
            3
        }),
{
    if lines < 3 {
        lines
    } else {
        3
    }
}

/// A search is active while the query holds something besides whitespace.
pub fn searching(query: &str) -> (r: bool)
    ensures
        r == (trim(query@).len() > 0),
{
    let q = chars_of(query);
    let t = trim_chars(&q);
    t.len() > 0
}

/// Whether a search runs over the cross-folder pool: an all-folders search
/// that is active and whose pool has arrived.
pub fn uses_search_pool(query: &str, scope: SearchScope, pool_len: usize) -> (r: bool)
    ensures
        r == (trim(query@).len() > 0 && scope == SearchScope::AllFolders && pool_len > 0),
{
    searching(query) && scope == SearchScope::AllFolders && pool_len > 0
}

pub fn search_placeholder(scope: SearchScope) -> (r: &'static str)
    ensures
        r@ == (match scope {
            SearchScope::AllFolders => "Search all folders"@,
            SearchScope::ThisFolder => "Search this folder"@,
        }),
{
    match scope {
        SearchScope::AllFolders => "Search all folders",
        SearchScope::ThisFolder => "Search this folder",
    }
}

// ---------------------------------------------------------------------------
// Subjects
// ---------------------------------------------------------------------------

/// The reply and forward prefixes a subject sort looks past.
pub open spec fn subject_prefix(s: Seq<char>) -> Option<int> {
    let l = lower(s);
    if starts_with(l, "re:"@) {
        Some(3)
    } else if starts_with(l, "fwd:"@) {
        Some(4)
    } else if starts_with(l, "fw:"@) {
        Some(3)
    } else if starts_with(l, "aw:"@) {
        Some(3)
    } else if starts_with(l, "sv:"@) {
        Some(3)
    } else if starts_with(l, "antw:"@) {
        Some(5)
    } else if starts_with(l, "wg:"@) {
        Some(3)
    } else {
        None
    }
}

/// A subject with every leading reply/forward prefix stripped.
pub open spec fn strip_prefixes(s: Seq<char>) -> Seq<char>
    decreases s.len(),
{
    match subject_prefix(s) {
        Some(n) => if 0 < n <= s.len() {
            proof {
                lemma_trim_start_len(s.subrange(n, s.len() as int));
            }
            strip_prefixes(trim_start(s.subrange(n, s.len() as int)))
        } else {
            s
        },
        None => s,
    }
}

/// The subject as subject-sorting compares it: lower-cased, trimmed, with
/// any leading run of `Re:`, `Fwd:` and the like stripped, so a topic and its
/// replies stay adjacent.
pub open spec fn normalized_subject(subject: Seq<char>) -> Seq<char> {
    lower(trim(strip_prefixes(trim(subject))))
}

/// Lower-casing a lower-cased text changes nothing.
proof fn lemma_lower_idempotent(t: Seq<char>)
    ensures
        lower(lower(t)) == lower(t),
{
    assert(lower(lower(t)) =~= lower(t));
}

/// What a text's lower-cased prefix starts with, its lower-cased whole
/// starts with too.
proof fn lemma_starts_with_prefix(x: Seq<char>, b: int, p: Seq<char>)
    requires
        0 <= b <= x.len(),
        starts_with(lower(x.take(b)), p),
    ensures
        starts_with(lower(x), p),
{
    assert(lower(x.take(b)) =~= lower(x).take(b));
    assert(lower(x).subrange(0, p.len() as int) =~= lower(x.take(b)).subrange(0, p.len() as int));
}

/// A prefix is only ever found where the subject is long enough to hold it.
proof fn lemma_subject_prefix_len(s: Seq<char>)
    ensures
        subject_prefix(s) matches Some(n) ==> 0 < n <= s.len(),
{
    reveal_strlit("re:");
    reveal_strlit("fwd:");
    reveal_strlit("fw:");
    reveal_strlit("aw:");
    reveal_strlit("sv:");
    reveal_strlit("antw:");
    reveal_strlit("wg:");
}

/// Whether a text starts with whitespace.
pub open spec fn leads_ws(s: Seq<char>) -> bool {
    s.len() > 0 && crate::text::is_ws(s[0])
}

/// Stripping prefixes leaves no prefix, and keeps leading whitespace away.
proof fn lemma_strip_prefixes(s: Seq<char>)
    ensures
        subject_prefix(strip_prefixes(s)) is None,
        !leads_ws(s) ==> !leads_ws(strip_prefixes(s)),
    decreases s.len(),
{
    lemma_subject_prefix_len(s);
    match subject_prefix(s) {
        Some(n) => {
            let rest = s.subrange(n, s.len() as int);
            lemma_trim_start_len(rest);
            lemma_trim_start_cut(rest);
            lemma_strip_prefixes(trim_start(rest));
        },
        None => {},
    }
}

/// `trim_start` drops exactly the leading run of whitespace.
proof fn lemma_trim_start_cut(s: Seq<char>) -> (a: int)
    ensures
        0 <= a <= s.len(),
        trim_start(s) == s.skip(a),
        !leads_ws(trim_start(s)),
    decreases s.len(),
{
    if s.len() > 0 && crate::text::is_ws(s[0]) {
        let a = lemma_trim_start_cut(s.drop_first());
        assert(s.drop_first().skip(a) =~= s.skip(a + 1));
        a + 1
    } else {
        assert(s.skip(0) =~= s);
        0
    }
}

/// A subject as subject sorting compares it is lower-cased, has no
/// surrounding whitespace, starts with no reply or forward prefix, and
/// normalizes to itself.
pub proof fn law_normalized_subject_is_fixed(subject: Seq<char>)
    ensures
        ({
            let r = normalized_subject(subject);
            &&& lower(r) == r
            &&& trim(r) == r
            &&& subject_prefix(r) is None
            &&& normalized_subject(r) == r
        }),
{
    let ts = trim(subject);
    lemma_trim_start_cut(subject);
    crate::text::lemma_trim_end_cut(trim_start(subject));
    assert(!leads_ws(ts)) by {
        if ts.len() > 0 {
            assert(ts[0] == trim_start(subject)[0]);
        }
    }
    let x = strip_prefixes(ts);
    lemma_strip_prefixes(ts);
    let a = lemma_trim_start_cut(x);
    assert(a == 0) by {
        if a > 0 {
            assert(trim_start(x) =~= trim_start(x.drop_first()));
        }
    }
    assert(x.skip(0) =~= x);
    let b = crate::text::lemma_trim_end_cut(x);
    let t = trim(x);
    assert(t == x.take(b));
    let r = lower(t);
    assert(r == normalized_subject(subject));
    lemma_lower_idempotent(t);
    // no prefix: one on the prefix would be one on the whole
    reveal_strlit("re:");
    reveal_strlit("fwd:");
    reveal_strlit("fw:");
    reveal_strlit("aw:");
    reveal_strlit("sv:");
    reveal_strlit("antw:");
    reveal_strlit("wg:");
    if starts_with(lower(t), "re:"@) { lemma_starts_with_prefix(x, b, "re:"@); }
    if starts_with(lower(t), "fwd:"@) { lemma_starts_with_prefix(x, b, "fwd:"@); }
    if starts_with(lower(t), "fw:"@) { lemma_starts_with_prefix(x, b, "fw:"@); }
    if starts_with(lower(t), "aw:"@) { lemma_starts_with_prefix(x, b, "aw:"@); }
    if starts_with(lower(t), "sv:"@) { lemma_starts_with_prefix(x, b, "sv:"@); }
    if starts_with(lower(t), "antw:"@) { lemma_starts_with_prefix(x, b, "antw:"@); }
    if starts_with(lower(t), "wg:"@) { lemma_starts_with_prefix(x, b, "wg:"@); }
    assert(subject_prefix(r) is None);
    // trimmed: lower-casing keeps whitespace and non-whitespace apart
    if r.len() > 0 {
        assert(t[0] == x[0]);
        assert(!crate::text::is_ws(r[0]));
        assert(t[b - 1] == x[b - 1]);
        assert(!crate::text::is_ws(r[r.len() - 1]));
    }
    crate::text::lemma_trim_start_at(r, 0);
    assert(r.subrange(0, r.len() as int) =~= r);
    crate::text::lemma_trim_end_at(r, r.len() as int);
    assert(r.subrange(0, r.len() as int) =~= r);
    assert(trim(r) == r);
    assert(strip_prefixes(r) == r);
}

pub proof fn lemma_trim_start_len(s: Seq<char>)
    ensures
        trim_start(s).len() <= s.len(),
    decreases s.len(),
{
    if s.len() > 0 && crate::text::is_ws(s[0]) {
        lemma_trim_start_len(s.drop_first());
    }
}

fn subject_prefix_exec(s: &Vec<char>) -> (r: Option<usize>)
    ensures
        match r {
            Some(n) => subject_prefix(s@) == Some(n as int),
            None => subject_prefix(s@) is None,
        },
{
    let l = lower_chars(s);
    if crate::text::starts_with_str(&l, "re:") {
        Some(3)
    } else if crate::text::starts_with_str(&l, "fwd:") {
        Some(4)
    } else if crate::text::starts_with_str(&l, "fw:") {
        Some(3)
    } else if crate::text::starts_with_str(&l, "aw:") {
        Some(3)
    } else if crate::text::starts_with_str(&l, "sv:") {
        Some(3)
    } else if crate::text::starts_with_str(&l, "antw:") {
        Some(5)
    } else if crate::text::starts_with_str(&l, "wg:") {
        Some(3)
    } else {
        None
    }
}

pub fn normalize_subject(subject: &str) -> (r: String)
    ensures
        r@ == normalized_subject(subject@),
{
    let c = chars_of(subject);
    let mut s = trim_chars(&c);
    let ghost s0 = s@;
    loop
        invariant
            strip_prefixes(s0) == strip_prefixes(s@),
        ensures
            strip_prefixes(s0) == s@,
        decreases s@.len(),
    {
        match subject_prefix_exec(&s) {
            Some(n) => {
                if 0 < n && n <= s.len() {
                    let rest = slice_of(&s, n, s.len());
                    proof {
                        lemma_trim_start_len(rest@);
                    }
                    s = trim_start_chars(&rest);
                } else {
                    break;
                }
            },
            None => {
                break;
            },
        }
    }
    let t = trim_chars(&s);
    let l = lower_chars(&t);
    string_of(&l)
}

} // verus!

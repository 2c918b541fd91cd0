//! The message list's bookkeeping between rebuilds: merging streamed-in
//! messages, flags changed from elsewhere, removals and where the selection
//! goes after them, keyboard moves, and the selection handshake with the
//! reader.

use vstd::prelude::*;
use crate::list::SortOrder;
use crate::model::Message;
use crate::plan::{is_open, toggled_view};
use crate::reader::{find_message, key_of, lemma_find_message};
use crate::text::{chars_of, seq_eq};

verus! {

// ---------------------------------------------------------------------------
// Merging
// ---------------------------------------------------------------------------

/// Whether some message has this account and UID.
pub open spec fn has_uid(msgs: Seq<Message>, account_id: u32, uid: u32) -> bool {
    exists|i: int| 0 <= i < msgs.len() && #[trigger] msgs[i].account_id == account_id && msgs[i].uid == uid
}

/// The first `n` incoming messages not already indexed (by account and UID;
/// UIDs collide across accounts), in order.
pub open spec fn new_arrivals(existing: Seq<Message>, incoming: Seq<Message>, n: int) -> Seq<Message>
    decreases n,
{
    if n <= 0 {
        seq![]
    } else {
        let r = new_arrivals(existing, incoming, n - 1);
        let m = incoming[n - 1];
        if has_uid(existing, m.account_id, m.uid) {
            r
        } else {
            r.push(m)
        }
    }
}

fn has_uid_exec(msgs: &Vec<Message>, n: usize, account_id: u32, uid: u32) -> (r: bool)
    requires
        n <= msgs@.len(),
    ensures
        r == has_uid(msgs@.take(n as int), account_id, uid),
{
    let mut i: usize = 0;
    while i < n
        invariant
            i <= n,
            n <= msgs@.len(),
            forall|j: int| 0 <= j < i ==> !(#[trigger] msgs@[j].account_id == account_id && msgs@[j].uid == uid),
        decreases n - i,
    {
        if msgs[i].account_id == account_id && msgs[i].uid == uid {
            assert(msgs@.take(n as int)[i as int] == msgs@[i as int]);
            return true;
        }
        i += 1;
    }
    assert forall|j: int| 0 <= j < n implies !(#[trigger] msgs@.take(n as int)[j].account_id == account_id
        && msgs@.take(n as int)[j].uid == uid) by {
        assert(msgs@.take(n as int)[j] == msgs@[j]);
    }
    false
}

/// Grows the index with the messages it does not hold yet, and says how many
/// were added.
pub fn append_messages(all: &mut Vec<Message>, incoming: Vec<Message>) -> (added: usize)
    ensures
        final(all)@ == old(all)@ + new_arrivals(old(all)@, incoming@, incoming@.len() as int),
        added == new_arrivals(old(all)@, incoming@, incoming@.len() as int).len(),
{
    let ghost start = all@;
    let n0 = all.len();
    let mut i: usize = 0;
    while i < incoming.len()
        invariant
            i <= incoming.len(),
            n0 == start.len(),
            all@.take(n0 as int) == start,
            all@ == start + new_arrivals(start, incoming@, i as int),
        decreases incoming.len() - i,
    {
        let m = &incoming[i];
        if !has_uid_exec(all, n0, m.account_id, m.uid) {
            all.push(m.duplicate());
            assert(all@ =~= start + new_arrivals(start, incoming@, i + 1 as int));
        }
        assert(all@.take(n0 as int) =~= start);
        i += 1;
    }
    all.len() - n0
}

/// After a merge, the list is rebuilt only when that could change what is
/// visible: something was added and a search is active, or a sort other
/// than newest-first could surface older mail, or the user waits at the
/// bottom for more rows.
pub fn append_needs_rebuild(added: usize, query: &str, sort: SortOrder, render_limit: usize, rendered: usize) -> (r:
    bool)
    ensures
        r == (added > 0 && (query@.len() > 0 || sort != SortOrder::DateNewest || render_limit > rendered)),
{
    let q = chars_of(query);
    added > 0 && (q.len() > 0 || sort != SortOrder::DateNewest || render_limit > rendered)
}

// ---------------------------------------------------------------------------
// Flags changed from elsewhere
// ---------------------------------------------------------------------------

/// Where the first message with this id stands.
pub open spec fn first_with_id(msgs: Seq<Message>, id: u32, from: int) -> Option<int>
    decreases msgs.len() - from,
{
    if from < 0 || from >= msgs.len() {
        None
    } else if msgs[from].id == id {
        Some(from)
    } else {
        first_with_id(msgs, id, from + 1)
    }
}

proof fn lemma_first_with_id(msgs: Seq<Message>, id: u32, from: int)
    requires
        0 <= from,
    ensures
        match first_with_id(msgs, id, from) {
            Some(i) => from <= i < msgs.len() && msgs[i].id == id,
            None => forall|j: int| from <= j < msgs.len() ==> #[trigger] msgs[j].id != id,
        },
    decreases msgs.len() - from,
{
    if from < msgs.len() && msgs[from].id != id {
        lemma_first_with_id(msgs, id, from + 1);
    }
}

pub fn position_of_id(msgs: &Vec<Message>, id: u32) -> (r: Option<usize>)
    ensures
        match r {
            Some(i) => first_with_id(msgs@, id, 0) == Some(i as int) && i < msgs@.len(),
            None => first_with_id(msgs@, id, 0) is None,
        },
{
    proof {
        lemma_first_with_id(msgs@, id, 0);
    }
    let mut i: usize = 0;
    while i < msgs.len()
        invariant
            i <= msgs.len(),
            first_with_id(msgs@, id, 0) == first_with_id(msgs@, id, i as int),
        decreases msgs.len() - i,
    {
        if msgs[i].id == id {
            return Some(i);
        }
        i += 1;
    }
    None
}

/// A message's flags, as the list can change them.
#[derive(Debug, Clone, Copy, PartialEq, Eq, Structural)]
pub enum Flag {
    Read,
    Starred,
    HasAttachment,
}

pub open spec fn with_flag(m: Message, flag: Flag, on: bool) -> Message {
    match flag {
        Flag::Read => Message { unread: !on, ..m },
        Flag::Starred => Message { starred: on, ..m },
        Flag::HasAttachment => Message { has_attachment: on, ..m },
    }
}

/// The first message with this id gets the flag; the answer is where it
/// stands, for the row to be told.
pub fn set_flag(msgs: &mut Vec<Message>, id: u32, flag: Flag, on: bool) -> (r: Option<usize>)
    ensures
        match first_with_id(old(msgs)@, id, 0) {
            Some(i) => r == Some(i as usize) && final(msgs)@ == old(msgs)@.update(
                i,
                with_flag(old(msgs)@[i], flag, on),
            ),
            None => r is None && final(msgs)@ == old(msgs)@,
        },
{
    proof {
        lemma_first_with_id(msgs@, id, 0);
    }
    let p = position_of_id(msgs, id);
    match p {
        Some(i) => {
            match flag {
                Flag::Read => {
                    msgs[i].unread = !on;
                },
                Flag::Starred => {
                    msgs[i].starred = on;
                },
                Flag::HasAttachment => {
                    msgs[i].has_attachment = on;
                },
            }
            assert(msgs@ =~= old(msgs)@.update(i as int, with_flag(old(msgs)@[i as int], flag, on)));
        },
        None => {},
    }
    p
}

// ---------------------------------------------------------------------------
// Removal
// ---------------------------------------------------------------------------

/// The messages without those whose id is in `ids`.
pub open spec fn without_ids(msgs: Seq<Message>, ids: Seq<u32>) -> Seq<Message>
    decreases msgs.len(),
{
    if msgs.len() == 0 {
        seq![]
    } else {
        let r = without_ids(msgs.drop_last(), ids);
        if ids.contains(msgs.last().id) {
            r
        } else {
            r.push(msgs.last())
        }
    }
}

/// The keys without those whose id is in `ids`.
pub open spec fn keys_without(keys: Seq<(u32, u32)>, ids: Seq<u32>) -> Seq<(u32, u32)>
    decreases keys.len(),
{
    if keys.len() == 0 {
        seq![]
    } else {
        let r = keys_without(keys.drop_last(), ids);
        if ids.contains(keys.last().1) {
            r
        } else {
            r.push(keys.last())
        }
    }
}

/// The first position holding one of the ids.
pub open spec fn first_removed(msgs: Seq<Message>, ids: Seq<u32>, from: int) -> Option<int>
    decreases msgs.len() - from,
{
    if from < 0 || from >= msgs.len() {
        None
    } else if ids.contains(msgs[from].id) {
        Some(from)
    } else {
        first_removed(msgs, ids, from + 1)
    }
}

/// What happens to the reader after a removal.
#[derive(Debug, Clone, Copy, PartialEq, Eq, Structural)]
pub enum AfterRemoval {
    /// The viewed message stays (or none was viewed).
    Keep,
    /// Select the row now at this position, which loads it.
    Select(usize),
    /// Nothing is left to show: clear the reader.
    Clear,
}

/// Where the selection goes when the viewed message was removed: the row
/// that slid into its place (or the new last row), else nothing.
pub open spec fn after_removal(was_viewed: bool, first: Option<int>, remaining: int) -> AfterRemoval {
    if !was_viewed {
        AfterRemoval::Keep
    } else {
        match first {
            Some(idx) => if remaining > 0 {
                AfterRemoval::Select(
                    (if idx < remaining - 1 {
                        idx
                    } else {
                        remaining - 1
                    }) as usize,
                )
            } else {
                AfterRemoval::Clear
            },
            None => AfterRemoval::Clear,
        }
    }
}

fn contains_id(ids: &Vec<u32>, id: u32) -> (r: bool)
    ensures
        r == ids@.contains(id),
{
    let mut i: usize = 0;
    while i < ids.len()
        invariant
            i <= ids.len(),
            forall|j: int| 0 <= j < i ==> ids@[j] != id,
        decreases ids.len() - i,
    {
        if ids[i] == id {
            assert(ids@[i as int] == id);
            return true;
        }
        i += 1;
    }
    false
}

fn drop_ids(msgs: &mut Vec<Message>, ids: &Vec<u32>)
    ensures
        final(msgs)@ == without_ids(old(msgs)@, ids@),
{
    let ghost start = msgs@;
    let mut kept: Vec<Message> = Vec::new();
    let mut i: usize = 0;
    while i < msgs.len()
        invariant
            i <= msgs.len(),
            msgs@ == start,
            kept@ == without_ids(start.take(i as int), ids@),
        decreases msgs.len() - i,
    {
        assert(start.take(i + 1 as int).drop_last() =~= start.take(i as int));
        if !contains_id(ids, msgs[i].id) {
            kept.push(msgs[i].duplicate());
        }
        i += 1;
    }
    assert(start.take(start.len() as int) =~= start);
    *msgs = kept;
}

fn drop_key_ids(keys: &mut Vec<(u32, u32)>, ids: &Vec<u32>)
    ensures
        final(keys)@ == keys_without(old(keys)@, ids@),
{
    let ghost start = keys@;
    let mut kept: Vec<(u32, u32)> = Vec::new();
    let mut i: usize = 0;
    while i < keys.len()
        invariant
            i <= keys.len(),
            keys@ == start,
            kept@ == keys_without(start.take(i as int), ids@),
        decreases keys.len() - i,
    {
        assert(start.take(i + 1 as int).drop_last() =~= start.take(i as int));
        if !contains_id(ids, keys[i].1) {
            kept.push(keys[i]);
        }
        i += 1;
    }
    assert(start.take(start.len() as int) =~= start);
    *keys = kept;
}

/// Removes the messages with these ids from the index, the shown rows and
/// the selection, in one pass, and says where the selection goes: when the
/// viewed message went, the row now at the first removed row's place.
pub fn remove_messages(
    all: &mut Vec<Message>,
    shown: &mut Vec<Message>,
    selected_id: &mut Option<(u32, u32)>,
    selected_ids: &mut Vec<(u32, u32)>,
    ids: &Vec<u32>,
) -> (r: AfterRemoval)
    ensures
        final(all)@ == without_ids(old(all)@, ids@),
        final(shown)@ == without_ids(old(shown)@, ids@),
        final(selected_ids)@ == keys_without(old(selected_ids)@, ids@),
        ({
            let was_viewed = match *old(selected_id) {
                Some(k) => ids@.contains(k.1),
                None => false,
            };
            &&& *final(selected_id) == (if was_viewed {
                None
            } else {
                *old(selected_id)
            })
            &&& r == after_removal(
                was_viewed,
                first_removed(old(shown)@, ids@, 0),
                without_ids(old(shown)@, ids@).len() as int,
            )
        }),
{
    let was_viewed = match *selected_id {
        Some(k) => contains_id(ids, k.1),
        None => false,
    };
    if was_viewed {
        *selected_id = None;
    }
    drop_key_ids(selected_ids, ids);
    drop_ids(all, ids);
    let ghost old_shown = shown@;
    let mut first: Option<usize> = None;
    let mut i: usize = 0;
    while i < shown.len()
        invariant
            i <= shown.len(),
            shown@ == old_shown,
            first_removed(old_shown, ids@, 0) == (match first {
                Some(f) => Some(f as int),
                None => first_removed(old_shown, ids@, i as int),
            }),
            first is Some ==> i == shown.len(),
        decreases shown.len() - i,
    {
        if contains_id(ids, shown[i].id) {
            first = Some(i);
            i = shown.len();
        } else {
            i += 1;
        }
    }
    drop_ids(shown, ids);
    if !was_viewed {
        return AfterRemoval::Keep;
    }
    match first {
        Some(idx) => {
            if shown.len() > 0 {
                let next = if idx < shown.len() - 1 {
                    idx
                } else {
                    shown.len() - 1
                };
                AfterRemoval::Select(next)
            } else {
                AfterRemoval::Clear
            }
        },
        None => AfterRemoval::Clear,
    }
}

// ---------------------------------------------------------------------------
// Keyboard and selection
// ---------------------------------------------------------------------------

/// The row a move by `delta` lands on: from the selected row, or from just
/// outside the list (above for a move down, below for a move up), clamped
/// to the list. `None` when there are no rows.
pub open spec fn move_target_of(current: Option<usize>, delta: i32, len: usize) -> Option<usize> {
    if len == 0 {
        None
    } else {
        let from: int = match current {
            Some(c) => c as int,
            None => if delta > 0 {
                -1
            } else {
                len as int
            },
        };
        let next = from + delta;
        Some(
            (if next < 0 {
                0
            } else if next > len - 1 {
                len - 1
            } else {
                next
            }) as usize,
        )
    }
}

pub fn move_target(current: Option<usize>, delta: i32, len: usize) -> (r: Option<usize>)
    requires
        len <= i32::MAX,
        current matches Some(c) ==> c < len,
    ensures
        r == move_target_of(current, delta, len),
{
    if len == 0 {
        return None;
    }
    let from: i64 = match current {
        Some(c) => c as i64,
        None => if delta > 0 {
            -1
        } else {
            len as i64
        },
    };
    let next: i64 = from + delta as i64;
    let last: i64 = len as i64 - 1;
    let clamped: i64 = if next < 0 {
        0
    } else if next > last {
        last
    } else {
        next
    };
    Some(clamped as usize)
}

/// What a change of the list's selection means.
pub struct SelectionStep {
    /// Selection changes still expected from a reader-driven selection.
    pub from_reader: u8,
    /// Report the selection to the reader, which outlines it.
    pub report: bool,
    /// The message now viewed.
    pub selected_id: Option<(u32, u32)>,
    /// Open this message in the reader.
    pub open: Option<(u32, u32)>,
}

/// The handshake with the reader: a change the reader asked for is mirrored
/// and not reported back (at most `from_reader` of them, and only while the
/// selection is what it asked for); anything else is the user's, reported,
/// and a single selected row opens unless it is already the one viewed.
pub open spec fn selection_step(
    from_reader: u8,
    reader_keys: Seq<(u32, u32)>,
    keys: Seq<(u32, u32)>,
    selected_id: Option<(u32, u32)>,
) -> (u8, bool, Option<(u32, u32)>, Option<(u32, u32)>) {
    if from_reader > 0 && keys == reader_keys {
        ((from_reader - 1) as u8, false, selected_id, None)
    } else if keys.len() == 0 {
        (0, true, None, None)
    } else if keys.len() == 1 {
        if selected_id == Some(keys[0]) {
            (0, true, selected_id, None)
        } else {
            (0, true, Some(keys[0]), Some(keys[0]))
        }
    } else {
        (0, true, selected_id, None)
    }
}

fn same_keys(a: &Vec<(u32, u32)>, b: &Vec<(u32, u32)>) -> (r: bool)
    ensures
        r == (a@ == b@),
{
    if a.len() != b.len() {
        return false;
    }
    let mut i: usize = 0;
    while i < a.len()
        invariant
            i <= a.len(),
            a.len() == b.len(),
            forall|j: int| 0 <= j < i ==> a@[j] == b@[j],
        decreases a.len() - i,
    {
        if a[i].0 != b[i].0 || a[i].1 != b[i].1 {
            return false;
        }
        i += 1;
    }
    assert(a@ =~= b@);
    true
}

pub fn selection_changed(
    from_reader: u8,
    reader_keys: &Vec<(u32, u32)>,
    keys: &Vec<(u32, u32)>,
    selected_id: Option<(u32, u32)>,
) -> (r: SelectionStep)
    ensures
        (r.from_reader, r.report, r.selected_id, r.open) == selection_step(from_reader, reader_keys@, keys@, selected_id),
{
    if from_reader > 0 && same_keys(keys, reader_keys) {
        return SelectionStep { from_reader: from_reader - 1, report: false, selected_id, open: None };
    }
    if keys.len() == 0 {
        SelectionStep { from_reader: 0, report: true, selected_id: None, open: None }
    } else if keys.len() == 1 {
        let k = keys[0];
        let same = match selected_id {
            Some(s) => s.0 == k.0 && s.1 == k.1,
            None => false,
        };
        if same {
            SelectionStep { from_reader: 0, report: true, selected_id, open: None }
        } else {
            SelectionStep { from_reader: 0, report: true, selected_id: Some(k), open: Some(k) }
        }
    } else {
        SelectionStep { from_reader: 0, report: true, selected_id, open: None }
    }
}

/// The keys the reader asks the list to select: its own, or when it has
/// cleared its cards, the viewed message so the list keeps its anchor.
pub fn reader_selection(keys: Vec<(u32, u32)>, selected_id: Option<(u32, u32)>) -> (r: Vec<(u32, u32)>)
    ensures
        r@ == (if keys@.len() == 0 {
            match selected_id {
                Some(k) => seq![k],
                None => seq![],
            }
        } else {
            keys@
        }),
{
    if keys.len() == 0 {
        let mut v: Vec<(u32, u32)> = Vec::new();
        match selected_id {
            Some(k) => {
                v.push(k);
            },
            None => {},
        }
        assert(v@ =~= (match selected_id {
            Some(k) => seq![k],
            None => seq![],
        }));
        v
    } else {
        keys
    }
}

// ---------------------------------------------------------------------------
// Conversations opening and closing
// ---------------------------------------------------------------------------

/// `s` without the first occurrence of `x` (unchanged where there is none).
pub open spec fn drop_first_of<A>(s: Seq<A>, x: A) -> Seq<A>
    decreases s.len(),
{
    if s.len() == 0 {
        s
    } else if s[0] == x {
        s.drop_first()
    } else {
        seq![s[0]] + drop_first_of(s.drop_first(), x)
    }
}

/// The toggles after a conversation's toggle: its entry (a departure from the
/// default) is dropped where present, else recorded at the end.
pub open spec fn toggled_after(tv: Seq<(u32, Seq<char>)>, k: (u32, Seq<char>)) -> Seq<(u32, Seq<char>)> {
    if tv.contains(k) {
        drop_first_of(tv, k)
    } else {
        tv.push(k)
    }
}

pub proof fn lemma_drop_first_at<A>(s: Seq<A>, x: A, i: int)
    requires
        0 <= i < s.len(),
        s[i] == x,
        forall|h: int| 0 <= h < i ==> s[h] != x,
    ensures
        drop_first_of(s, x) == s.remove(i),
    decreases s.len(),
{
    if i > 0 {
        let t = s.drop_first();
        assert forall|h: int| 0 <= h < i - 1 implies t[h] != x by {
            assert(t[h] == s[h + 1]);
        }
        lemma_drop_first_at(t, x, i - 1);
        assert(s[0] != x);
        assert(seq![s[0]] + t.remove(i - 1) =~= s.remove(i));
    } else {
        assert(s.drop_first() =~= s.remove(0));
    }
}

proof fn lemma_drop_first_contains<A>(s: Seq<A>, x: A, y: A)
    requires
        s.no_duplicates(),
    ensures
        drop_first_of(s, x).no_duplicates(),
        drop_first_of(s, x).contains(y) == (s.contains(y) && y != x),
    decreases s.len(),
{
    if s.len() > 0 {
        let t = s.drop_first();
        assert(t.no_duplicates()) by {
            assert forall|a: int, b: int| 0 <= a < t.len() && 0 <= b < t.len() && a != b implies t[a] != t[b] by {
                assert(t[a] == s[a + 1] && t[b] == s[b + 1]);
            }
        }
        assert(s.contains(y) == (s[0] == y || t.contains(y))) by {
            if s.contains(y) {
                let j = choose|j: int| 0 <= j < s.len() && s[j] == y;
                if j > 0 {
                    assert(t[j - 1] == y);
                }
            }
            if t.contains(y) {
                let j = choose|j: int| 0 <= j < t.len() && t[j] == y;
                assert(s[j + 1] == y);
            }
        }
        assert(!t.contains(s[0])) by {
            if t.contains(s[0]) {
                let j = choose|j: int| 0 <= j < t.len() && t[j] == s[0];
                assert(s[j + 1] == s[0]);
            }
        }
        if s[0] != x {
            lemma_drop_first_contains(t, x, y);
            lemma_drop_first_contains(t, x, s[0]);
            let r = seq![s[0]] + drop_first_of(t, x);
            assert(r.contains(y) == (s[0] == y || drop_first_of(t, x).contains(y))) by {
                if r.contains(y) {
                    let j = choose|j: int| 0 <= j < r.len() && r[j] == y;
                    if j > 0 {
                        assert(drop_first_of(t, x)[j - 1] == y);
                    }
                }
                if drop_first_of(t, x).contains(y) {
                    let j = choose|j: int| 0 <= j < drop_first_of(t, x).len() && drop_first_of(t, x)[j] == y;
                    assert(r[j + 1] == y);
                }
                if s[0] == y {
                    assert(r[0] == y);
                }
            }
            assert(r.no_duplicates()) by {
                let d = drop_first_of(t, x);
                assert forall|a: int, b: int| 0 <= a < r.len() && 0 <= b < r.len() && a != b implies r[a] != r[b] by {
                    if a == 0 && b > 0 {
                        assert(r[b] == d[b - 1]);
                        assert(d.contains(d[b - 1]));
                    } else if b == 0 && a > 0 {
                        assert(r[a] == d[a - 1]);
                        assert(d.contains(d[a - 1]));
                    } else if a > 0 && b > 0 {
                        assert(r[a] == d[a - 1] && r[b] == d[b - 1]);
                    }
                }
            }
        }
    }
}

/// Opens or closes a conversation: its toggle (a departure from the default)
/// is dropped where present, else recorded.
pub fn toggle_thread(toggled: &mut Vec<(u32, String)>, key: (u32, String))
    ensures
        toggled_view(final(toggled)@) == toggled_after(toggled_view(old(toggled)@), (key.0, key.1@)),
{
    let k = chars_of(key.1.as_str());
    let ghost tv = toggled_view(toggled@);
    let ghost kk = (key.0, key.1@);
    let mut i: usize = 0;
    while i < toggled.len()
        invariant
            i <= toggled.len(),
            tv == toggled_view(toggled@),
            toggled@ == old(toggled)@,
            k@ == key.1@,
            kk == (key.0, key.1@),
            forall|h: int| 0 <= h < i ==> tv[h] != kk,
        decreases toggled.len() - i,
    {
        let t = chars_of(toggled[i].1.as_str());
        if toggled[i].0 == key.0 && seq_eq(&t, &k) {
            assert(tv[i as int] == kk);
            assert(tv.contains(kk));
            toggled.remove(i);
            proof {
                lemma_drop_first_at(tv, kk, i as int);
            }
            assert(toggled_view(toggled@) =~= tv.remove(i as int));
            return;
        }
        i += 1;
    }
    assert(!tv.contains(kk));
    toggled.push(key);
    assert(toggled_view(toggled@) =~= tv.push(kk));
}

/// Toggling a conversation flips whether it is shown open and leaves every
/// other conversation as it was; the toggles stay free of repeats.
pub proof fn law_toggle_flips(tv: Seq<(u32, Seq<char>)>, k: (u32, Seq<char>), other: (u32, Seq<char>), default_expanded: bool)
    requires
        tv.no_duplicates(),
    ensures
        toggled_after(tv, k).no_duplicates(),
        is_open(toggled_after(tv, k), k, default_expanded) == !is_open(tv, k, default_expanded),
        other != k ==> is_open(toggled_after(tv, k), other, default_expanded) == is_open(tv, other, default_expanded),
{
    if tv.contains(k) {
        lemma_drop_first_contains(tv, k, k);
        lemma_drop_first_contains(tv, k, other);
    } else {
        let r = tv.push(k);
        assert(r[tv.len() as int] == k);
        assert(r.contains(other) == (tv.contains(other) || other == k)) by {
            if r.contains(other) {
                let j = choose|j: int| 0 <= j < r.len() && r[j] == other;
                if j < tv.len() {
                    assert(tv[j] == other);
                }
            }
            if tv.contains(other) {
                let j = choose|j: int| 0 <= j < tv.len() && tv[j] == other;
                assert(r[j] == other);
            }
        }
        assert(r.no_duplicates()) by {
            assert forall|a: int, b: int| 0 <= a < r.len() && 0 <= b < r.len() && a != b implies r[a] != r[b] by {
                if a == tv.len() && b < tv.len() {
                    assert(r[b] == tv[b]);
                } else if b == tv.len() && a < tv.len() {
                    assert(r[a] == tv[a]);
                } else if a < tv.len() && b < tv.len() {
                    assert(r[a] == tv[a] && r[b] == tv[b]);
                }
            }
        }
    }
}

/// Toggling a conversation twice leaves every conversation open or closed as
/// it was.
pub proof fn law_toggle_twice(tv: Seq<(u32, Seq<char>)>, k: (u32, Seq<char>), other: (u32, Seq<char>), default_expanded: bool)
    requires
        tv.no_duplicates(),
    ensures
        is_open(toggled_after(toggled_after(tv, k), k), other, default_expanded) == is_open(tv, other, default_expanded),
{
    law_toggle_flips(tv, k, other, default_expanded);
    law_toggle_flips(tv, k, k, default_expanded);
    law_toggle_flips(toggled_after(tv, k), k, other, default_expanded);
    law_toggle_flips(toggled_after(tv, k), k, k, default_expanded);
}

/// Whether a conversation is shown open.
pub fn thread_open(toggled: &[(u32, String)], key: &(u32, String), default_expanded: bool) -> (r: bool)
    ensures
        r == is_open(toggled_view(toggled@), (key.0, key.1@), default_expanded),
{
    let k = chars_of(key.1.as_str());
    let mut i: usize = 0;
    while i < toggled.len()
        invariant
            i <= toggled.len(),
            k@ == key.1@,
            forall|h: int| 0 <= h < i ==> toggled_view(toggled@)[h] != (key.0, key.1@),
        decreases toggled.len() - i,
    {
        let t = chars_of(toggled[i].1.as_str());
        if toggled[i].0 == key.0 && seq_eq(&t, &k) {
            assert(toggled_view(toggled@)[i as int] == (key.0, key.1@));
            return !default_expanded;
        }
        i += 1;
    }
    default_expanded
}

/// Whether any message of a conversation is unread, looked up in the index.
pub open spec fn any_unread(all: Seq<Message>, members: Seq<(u32, u32)>) -> bool {
    exists|i: int, j: int|
        0 <= i < members.len() && 0 <= j < all.len() && key_of(#[trigger] all[j]) == #[trigger] members[i]
            && all[j].unread
}

pub fn thread_unread(all: &Vec<Message>, members: &Vec<(u32, u32)>) -> (r: bool)
    ensures
        r == any_unread(all@, members@),
{
    let mut i: usize = 0;
    while i < members.len()
        invariant
            i <= members.len(),
            forall|a: int, j: int|
                0 <= a < i && 0 <= j < all@.len() ==> !(key_of(#[trigger] all@[j]) == #[trigger] members@[a]
                    && all@[j].unread),
        decreases members.len() - i,
    {
        let mut j: usize = 0;
        while j < all.len()
            invariant
                j <= all.len(),
                i < members.len(),
                forall|a: int, b: int|
                    0 <= a < i && 0 <= b < all@.len() ==> !(key_of(#[trigger] all@[b]) == #[trigger] members@[a]
                        && all@[b].unread),
                forall|b: int| 0 <= b < j ==> !(key_of(#[trigger] all@[b]) == members@[i as int] && all@[b].unread),
            decreases all.len() - j,
        {
            if all[j].account_id == members[i].0 && all[j].id == members[i].1 && all[j].unread {
                assert(key_of(all@[j as int]) == members@[i as int]);
                return true;
            }
            j += 1;
        }
        i += 1;
    }
    false
}

/// The keys every shown row hands to a drag: account, folder, UID, id.
pub fn drag_keys(shown: &Vec<Message>) -> (r: Vec<(u32, u32, u32, u32)>)
    ensures
        r@.len() == shown@.len(),
        forall|i: int|
            0 <= i < shown@.len() ==> #[trigger] r@[i] == (
                shown@[i].account_id,
                shown@[i].folder_id,
                shown@[i].uid,
                shown@[i].id,
            ),
{
    let mut v: Vec<(u32, u32, u32, u32)> = Vec::new();
    let mut i: usize = 0;
    while i < shown.len()
        invariant
            i <= shown.len(),
            v@.len() == i,
            forall|j: int|
                0 <= j < i ==> #[trigger] v@[j] == (
                    shown@[j].account_id,
                    shown@[j].folder_id,
                    shown@[j].uid,
                    shown@[j].id,
                ),
        decreases shown.len() - i,
    {
        let m = &shown[i];
        v.push((m.account_id, m.folder_id, m.uid, m.id));
        i += 1;
    }
    v
}

// ---------------------------------------------------------------------------
// Opening and closing a conversation in place
// ---------------------------------------------------------------------------

/// The replies of a conversation (its members after the head) that `source`
/// holds, in the members' order, from the first `n` members.
pub open spec fn reply_messages(members: Seq<(u32, u32)>, source: Seq<Message>, n: int) -> Seq<Message>
    decreases n,
{
    if n <= 1 {
        seq![]
    } else {
        let r = reply_messages(members, source, n - 1);
        match find_message(source, members[n - 1], 0) {
            Some(j) => r.push(source[j]),
            None => r,
        }
    }
}

/// The rows after opening a conversation in place: its replies inserted
/// right after its head, and the head's position. `None` (nothing changes)
/// when the head is not shown or no reply is found.
pub open spec fn expanded_rows(shown: Seq<Message>, members: Seq<(u32, u32)>, source: Seq<Message>) -> Option<
    (int, Seq<Message>),
> {
    if members.len() == 0 {
        None
    } else {
        match find_message(shown, members[0], 0) {
            None => None,
            Some(h) => {
                let ch = reply_messages(members, source, members.len() as int);
                if ch.len() == 0 {
                    None
                } else {
                    Some((h, shown.take(h + 1) + ch + shown.skip(h + 1)))
                }
            },
        }
    }
}

fn first_row(rows: &Vec<Message>, key: (u32, u32)) -> (r: Option<usize>)
    ensures
        match r {
            Some(i) => find_message(rows@, key, 0) == Some(i as int),
            None => find_message(rows@, key, 0) is None,
        },
{
    let mut i: usize = 0;
    while i < rows.len()
        invariant
            i <= rows.len(),
            find_message(rows@, key, 0) == find_message(rows@, key, i as int),
        decreases rows.len() - i,
    {
        if rows[i].account_id == key.0 && rows[i].id == key.1 {
            return Some(i);
        }
        i += 1;
    }
    None
}

fn first_in(source: &[Message], key: (u32, u32)) -> (r: Option<usize>)
    ensures
        match r {
            Some(i) => find_message(source@, key, 0) == Some(i as int) && i < source@.len(),
            None => find_message(source@, key, 0) is None,
        },
{
    let mut i: usize = 0;
    while i < source.len()
        invariant
            i <= source.len(),
            find_message(source@, key, 0) == find_message(source@, key, i as int),
        decreases source.len() - i,
    {
        if source[i].account_id == key.0 && source[i].id == key.1 {
            return Some(i);
        }
        i += 1;
    }
    None
}

/// Opens a conversation in place: inserts its replies (looked up in
/// `source`) right after its head and returns the head's row, or leaves the
/// rows as they are and returns `None`.
pub fn expand_rows(shown: &mut Vec<Message>, members: &Vec<(u32, u32)>, source: &[Message]) -> (r: Option<usize>)
    ensures
        match expanded_rows(old(shown)@, members@, source@) {
            Some((h, rows)) => r == Some(h as usize) && final(shown)@ == rows,
            None => r is None && final(shown)@ == old(shown)@,
        },
{
    if members.len() == 0 {
        return None;
    }
    let head = match first_row(shown, members[0]) {
        Some(h) => h,
        None => return None,
    };
    proof {
        lemma_find_message(shown@, members@[0], 0);
    }
    let mut children: Vec<Message> = Vec::new();
    let mut i: usize = 1;
    while i < members.len()
        invariant
            1 <= i <= members.len(),
            children@ == reply_messages(members@, source@, i as int),
        decreases members.len() - i,
    {
        match first_in(source, members[i]) {
            Some(j) => {
                children.push(source[j].duplicate());
            },
            None => {},
        }
        i += 1;
    }
    if children.len() == 0 {
        return None;
    }
    let ghost before = shown@;
    let mut out: Vec<Message> = Vec::new();
    assert(head < shown.len());
    let mut k: usize = 0;
    let end = head + 1;
    while k < end
        invariant
            k <= end,
            end == head + 1,
            head < before.len(),
            shown@ == before,
            out@ == before.take(k as int),
        decreases end - k,
    {
        out.push(shown[k].duplicate());
        assert(out@ =~= before.take(k + 1));
        k += 1;
    }
    let mut c: usize = 0;
    while c < children.len()
        invariant
            c <= children@.len(),
            out@ == before.take(head + 1) + children@.take(c as int),
        decreases children.len() - c,
    {
        out.push(children[c].duplicate());
        assert(out@ =~= before.take(head + 1) + children@.take(c + 1));
        c += 1;
    }
    assert(children@.take(children@.len() as int) =~= children@);
    let mut k2: usize = head + 1;
    while k2 < shown.len()
        invariant
            head + 1 <= k2 <= before.len(),
            shown@ == before,
            out@ == before.take(head + 1) + children@ + before.subrange(head + 1, k2 as int),
        decreases shown.len() - k2,
    {
        out.push(shown[k2].duplicate());
        assert(out@ =~= before.take(head + 1) + children@ + before.subrange(head + 1, k2 + 1));
        k2 += 1;
    }
    assert(before.subrange(head + 1, before.len() as int) =~= before.skip(head + 1));
    *shown = out;
    Some(head)
}

/// Whether row `j` is a reply of the conversation: the first row showing one
/// of its members after the head.
pub open spec fn is_reply_row(shown: Seq<Message>, members: Seq<(u32, u32)>, j: int) -> bool {
    exists|i: int| 1 <= i < members.len() && #[trigger] find_message(shown, members[i], 0) == Some(j)
}

/// The first `n` rows without the conversation's reply rows.
pub open spec fn collapsed_rows(shown: Seq<Message>, members: Seq<(u32, u32)>, n: int) -> Seq<Message>
    decreases n,
{
    if n <= 0 {
        seq![]
    } else {
        let r = collapsed_rows(shown, members, n - 1);
        if is_reply_row(shown, members, n - 1) {
            r
        } else {
            r.push(shown[n - 1])
        }
    }
}

fn reply_row(shown: &Vec<Message>, members: &Vec<(u32, u32)>, j: usize) -> (r: bool)
    requires
        j < shown@.len(),
    ensures
        r == is_reply_row(shown@, members@, j as int),
{
    let mut i: usize = 1;
    while i < members.len()
        invariant
            1 <= i,
            j < shown@.len(),
            forall|a: int| 1 <= a < i && a < members@.len() ==> #[trigger] find_message(shown@, members@[a], 0) != Some(
                j as int,
            ),
        decreases members.len() - i,
    {
        match first_row(shown, members[i]) {
            Some(p) => {
                if p == j {
                    return true;
                }
            },
            None => {},
        }
        i += 1;
    }
    false
}

/// Closes a conversation in place: drops its reply rows, leaving every other
/// row where it was.
pub fn collapse_rows(shown: &mut Vec<Message>, members: &Vec<(u32, u32)>)
    ensures
        final(shown)@ == collapsed_rows(old(shown)@, members@, old(shown)@.len() as int),
{
    let ghost before = shown@;
    let mut out: Vec<Message> = Vec::new();
    let mut j: usize = 0;
    while j < shown.len()
        invariant
            j <= before.len(),
            shown@ == before,
            out@ == collapsed_rows(before, members@, j as int),
        decreases shown.len() - j,
    {
        if !reply_row(shown, members, j) {
            out.push(shown[j].duplicate());
        }
        j += 1;
    }
    *shown = out;
}

proof fn lemma_find_message_at(s: Seq<Message>, k: (u32, u32), j: int)
    requires
        0 <= j < s.len(),
        key_of(s[j]) == k,
        forall|a: int| 0 <= a < j ==> key_of(#[trigger] s[a]) != k,
    ensures
        find_message(s, k, 0) == Some(j),
{
    lemma_find_message(s, k, 0);
    match find_message(s, k, 0) {
        Some(i) => {
            if i < j {
                assert(key_of(s[i]) != k);
            } else if i > j {
                assert(key_of(s[j]) != k);
            }
        },
        None => {
            assert(key_of(s[j]) != k);
        },
    }
}

proof fn lemma_reply_keys(members: Seq<(u32, u32)>, source: Seq<Message>, n: int)
    requires
        members.no_duplicates(),
        n <= members.len(),
    ensures
        forall|t: int|
            0 <= t < reply_messages(members, source, n).len() ==> exists|i: int|
                1 <= i < n && #[trigger] key_of(reply_messages(members, source, n)[t]) == members[i],
        forall|t: int, u: int|
            0 <= t < u < reply_messages(members, source, n).len() ==> key_of(
                #[trigger] reply_messages(members, source, n)[t],
            ) != key_of(#[trigger] reply_messages(members, source, n)[u]),
    decreases n,
{
    if n > 1 {
        lemma_reply_keys(members, source, n - 1);
        let r = reply_messages(members, source, n - 1);
        lemma_find_message(source, members[n - 1], 0);
        match find_message(source, members[n - 1], 0) {
            Some(j) => {
                let r2 = r.push(source[j]);
                assert forall|t: int| 0 <= t < r2.len() implies exists|i: int|
                    1 <= i < n && #[trigger] key_of(r2[t]) == members[i] by {
                    if t < r.len() {
                        assert(r2[t] == r[t]);
                        let i = choose|i: int| 1 <= i < n - 1 && #[trigger] key_of(r[t]) == members[i];
                        assert(key_of(r2[t]) == members[i]);
                    } else {
                        assert(key_of(r2[t]) == members[n - 1]);
                    }
                }
                assert forall|t: int, u: int| 0 <= t < u < r2.len() implies key_of(#[trigger] r2[t]) != key_of(
                    #[trigger] r2[u],
                ) by {
                    assert(r2[t] == r[t]);
                    if u < r.len() {
                        assert(r2[u] == r[u]);
                    } else {
                        let i = choose|i: int| 1 <= i < n - 1 && #[trigger] key_of(r[t]) == members[i];
                        assert(members[i] != members[n - 1]);
                    }
                }
            },
            None => {},
        }
    }
}

proof fn lemma_collapsed_band(rows: Seq<Message>, members: Seq<(u32, u32)>, lo: int, hi: int, n: int)
    requires
        0 <= lo <= hi <= rows.len(),
        0 <= n <= rows.len(),
        forall|j: int| 0 <= j < rows.len() ==> #[trigger] is_reply_row(rows, members, j) == (lo <= j < hi),
    ensures
        n <= lo ==> collapsed_rows(rows, members, n) == rows.take(n),
        lo <= n <= hi ==> collapsed_rows(rows, members, n) == rows.take(lo),
        hi <= n ==> collapsed_rows(rows, members, n) == rows.take(lo) + rows.subrange(hi, n),
    decreases n,
{
    if n > 0 {
        lemma_collapsed_band(rows, members, lo, hi, n - 1);
        assert(is_reply_row(rows, members, n - 1) == (lo <= n - 1 < hi));
        if n <= lo {
            assert(rows.take(n - 1).push(rows[n - 1]) =~= rows.take(n));
        } else if n <= hi {
        } else if n - 1 == hi {
            assert(rows.take(lo) + rows.subrange(hi, n) =~= rows.take(lo).push(rows[n - 1]));
            if hi == lo {
                assert(rows.take(lo) + rows.subrange(hi, n - 1) =~= rows.take(lo));
            }
        } else {
            assert(rows.take(lo) + rows.subrange(hi, n) =~= (rows.take(lo) + rows.subrange(hi, n - 1)).push(
                rows[n - 1],
            ));
        }
    } else {
        assert(rows.take(0) =~= Seq::<Message>::empty());
        if hi == 0 {
            assert(rows.take(lo) + rows.subrange(hi, n) =~= Seq::<Message>::empty());
        }
    }
}

/// Closing a conversation undoes opening it: when none of its replies was
/// shown, opening it in place and closing it again gives back the same rows.
pub proof fn law_collapse_undoes_expand(shown: Seq<Message>, members: Seq<(u32, u32)>, source: Seq<Message>)
    requires
        members.no_duplicates(),
        forall|i: int| 1 <= i < members.len() ==> #[trigger] find_message(shown, members[i], 0) is None,
        expanded_rows(shown, members, source) is Some,
    ensures
        ({
            let rows = expanded_rows(shown, members, source).unwrap().1;
            collapsed_rows(rows, members, rows.len() as int) == shown
        }),
{
    let h = find_message(shown, members[0], 0).unwrap();
    lemma_find_message(shown, members[0], 0);
    let ch = reply_messages(members, source, members.len() as int);
    lemma_reply_keys(members, source, members.len() as int);
    let rows = shown.take(h + 1) + ch + shown.skip(h + 1);
    assert(expanded_rows(shown, members, source).unwrap().1 == rows);
    let lo = h + 1;
    let hi = h + 1 + ch.len();
    assert forall|i: int, j: int| 1 <= i < members.len() && 0 <= j < shown.len() implies key_of(
        #[trigger] shown[j],
    ) != #[trigger] members[i] by {
        lemma_find_message(shown, members[i], 0);
    }
    assert forall|j: int| 0 <= j < rows.len() implies #[trigger] is_reply_row(rows, members, j) == (lo <= j < hi) by {
        if lo <= j < hi {
            let t = j - lo;
            assert(rows[j] == ch[t]);
            let i = choose|i: int| 1 <= i < members.len() && #[trigger] key_of(ch[t]) == members[i];
            assert forall|a: int| 0 <= a < j implies key_of(#[trigger] rows[a]) != members[i] by {
                if a < lo {
                    assert(rows[a] == shown[a]);
                } else {
                    assert(rows[a] == ch[a - lo]);
                }
            }
            lemma_find_message_at(rows, members[i], j);
            assert(find_message(rows, members[i], 0) == Some(j));
        } else {
            if is_reply_row(rows, members, j) {
                let i = choose|i: int| 1 <= i < members.len() && #[trigger] find_message(rows, members[i], 0) == Some(
                    j,
                );
                lemma_find_message(rows, members[i], 0);
                if j < lo {
                    assert(rows[j] == shown[j]);
                } else {
                    assert(rows[j] == shown[j - ch.len()]);
                }
            }
        }
    }
    lemma_collapsed_band(rows, members, lo, hi, rows.len() as int);
    assert(rows.take(lo) =~= shown.take(h + 1));
    assert(rows.subrange(hi, rows.len() as int) =~= shown.skip(h + 1));
    assert(shown.take(h + 1) + shown.skip(h + 1) =~= shown);
}

/// The row standing for a conversation: the first shown row of any of its
/// members (its head, which a closed conversation shows alone).
pub open spec fn head_row(shown: Seq<Message>, members: Seq<(u32, u32)>, n: int) -> Option<int>
    decreases n,
{
    if n <= 0 {
        None
    } else {
        match head_row(shown, members, n - 1) {
            Some(i) => Some(i),
            None => if members.contains(key_of(shown[n - 1])) {
                Some(n - 1)
            } else {
                None
            },
        }
    }
}

proof fn lemma_head_row_stays(shown: Seq<Message>, members: Seq<(u32, u32)>, a: int, b: int)
    requires
        a <= b,
        head_row(shown, members, a) is Some,
    ensures
        head_row(shown, members, b) == head_row(shown, members, a),
    decreases b - a,
{
    if a < b {
        lemma_head_row_stays(shown, members, a, b - 1);
    }
}

pub fn thread_head_row(shown: &Vec<Message>, members: &Vec<(u32, u32)>) -> (r: Option<usize>)
    ensures
        match r {
            Some(i) => head_row(shown@, members@, shown@.len() as int) == Some(i as int),
            None => head_row(shown@, members@, shown@.len() as int) is None,
        },
{
    let mut j: usize = 0;
    while j < shown.len()
        invariant
            j <= shown.len(),
            head_row(shown@, members@, j as int) is None,
        decreases shown.len() - j,
    {
        let k = (shown[j].account_id, shown[j].id);
        let mut i: usize = 0;
        let mut hit = false;
        while i < members.len()
            invariant
                i <= members.len(),
                j < shown.len(),
                k == key_of(shown@[j as int]),
                hit == (exists|a: int| 0 <= a < i && members@[a] == k),
            decreases members.len() - i,
        {
            if members[i].0 == k.0 && members[i].1 == k.1 {
                hit = true;
            }
            i += 1;
        }
        assert(hit == members@.contains(k));
        if hit {
            assert(head_row(shown@, members@, (j + 1) as int) == Some(j as int));
            proof {
                lemma_head_row_stays(shown@, members@, (j + 1) as int, shown@.len() as int);
            }
            return Some(j);
        }
        j += 1;
    }
    None
}

// ---------------------------------------------------------------------------
// A row's action palette
// ---------------------------------------------------------------------------

/// What happens to a row's action palette.
#[derive(Debug, Clone, Copy, PartialEq, Eq, Structural)]
pub enum PaletteEvent {
    /// The pointer entered (`true`) or left the row.
    RowHover(bool),
    /// The ⋯ button was clicked.
    Toggle,
    /// The pointer entered the palette.
    Enter,
    /// The pointer left the palette.
    Leave,
    /// The auto-collapse countdown ran out.
    Collapse,
}

/// What the row does with its auto-collapse countdown.
#[derive(Debug, Clone, Copy, PartialEq, Eq, Structural)]
pub enum Countdown {
    /// Leave it as it is.
    Keep,
    /// Stop it.
    Cancel,
    /// Start it again from the full delay.
    Restart,
    /// It has fired and is gone.
    Forget,
}

/// A palette's state after an event: whether the row is hovered and the
/// palette open, and what happens to the countdown. Hovering opens the
/// palette when that preference is on; leaving it or the row starts the
/// countdown, entering it stops the countdown, and the countdown closes it.
pub open spec fn palette_after(hovered: bool, open: bool, hover_opens: bool, e: PaletteEvent) -> (bool, bool, Countdown) {
    match e {
        PaletteEvent::RowHover(over) => if hover_opens {
            if over {
                (over, true, Countdown::Cancel)
            } else if open {
                (over, open, Countdown::Restart)
            } else {
                (over, open, Countdown::Keep)
            }
        } else {
            (over, open, Countdown::Keep)
        },
        PaletteEvent::Toggle => if open {
            (hovered, false, Countdown::Cancel)
        } else {
            (hovered, true, Countdown::Restart)
        },
        PaletteEvent::Enter => (hovered, open, Countdown::Cancel),
        PaletteEvent::Leave => if open {
            (hovered, open, Countdown::Restart)
        } else {
            (hovered, open, Countdown::Keep)
        },
        PaletteEvent::Collapse => (hovered, false, Countdown::Forget),
    }
}

pub fn palette_step(hovered: bool, open: bool, hover_opens: bool, e: PaletteEvent) -> (r: (bool, bool, Countdown))
    ensures
        r == palette_after(hovered, open, hover_opens, e),
{
    match e {
        PaletteEvent::RowHover(over) => if hover_opens {
            if over {
                (over, true, Countdown::Cancel)
            } else if open {
                (over, open, Countdown::Restart)
            } else {
                (over, open, Countdown::Keep)
            }
        } else {
            (over, open, Countdown::Keep)
        },
        PaletteEvent::Toggle => if open {
            (hovered, false, Countdown::Cancel)
        } else {
            (hovered, true, Countdown::Restart)
        },
        PaletteEvent::Enter => (hovered, open, Countdown::Cancel),
        PaletteEvent::Leave => if open {
            (hovered, open, Countdown::Restart)
        } else {
            (hovered, open, Countdown::Keep)
        },
        PaletteEvent::Collapse => (hovered, false, Countdown::Forget),
    }
}

/// The countdown's length in seconds: the preference, at least one.
pub fn collapse_delay(secs: u64) -> (r: u64)
    ensures
        r == (if secs < 1 {
            1
        } else {
            secs
        }),
{
    if secs < 1 {
        1
    } else {
        secs
    }
}

} // verus!

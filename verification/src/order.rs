//! How the list orders messages: the three-way comparisons behind each sort
//! order, and the proof that each is a total preorder, which a stable sort
//! needs.

use vstd::prelude::*;
use crate::list::{normalize_subject, normalized_subject, SortOrder};
use crate::model::Message;
use crate::sorting::Ranking;
use crate::text::{chars_of, to_lowercase, trim, trim_chars, unicode_lower};

verus! {

/// Lexicographic order of two texts by code point (what `str::cmp` gives):
/// negative, zero or positive.
pub open spec fn compare_text(a: Seq<char>, b: Seq<char>) -> int
    decreases a.len(),
{
    if a.len() == 0 {
        if b.len() == 0 {
            0
        } else {
            -1
        }
    } else if b.len() == 0 {
        1
    } else if a[0] < b[0] {
        -1
    } else if a[0] > b[0] {
        1
    } else {
        compare_text(a.drop_first(), b.drop_first())
    }
}

pub open spec fn compare_int(x: int, y: int) -> int {
    if x < y {
        -1
    } else if x > y {
        1
    } else {
        0
    }
}

/// `false` before `true`.
pub open spec fn compare_bool(x: bool, y: bool) -> int {
    if x == y {
        0
    } else if !x {
        -1
    } else {
        1
    }
}

/// The first comparison, or the second where the first ties.
pub open spec fn then(first: int, second: int) -> int {
    if first != 0 {
        first
    } else {
        second
    }
}

pub proof fn lemma_compare_text(a: Seq<char>, b: Seq<char>, c: Seq<char>)
    ensures
        compare_text(a, b) == -compare_text(b, a),
        -1 <= compare_text(a, b) <= 1,
        compare_text(a, b) == 0 <==> a == b,
        compare_text(a, b) <= 0 && compare_text(b, c) <= 0 ==> compare_text(a, c) <= 0,
    decreases a.len(),
{
    if a.len() > 0 && b.len() > 0 && c.len() > 0 {
        lemma_compare_text(a.drop_first(), b.drop_first(), c.drop_first());
    } else if a.len() > 0 && b.len() > 0 {
        lemma_compare_text(a.drop_first(), b.drop_first(), c);
    }
    if a.len() > 0 && b.len() > 0 && a[0] == b[0] && a.drop_first() == b.drop_first() {
        assert(a =~= seq![a[0]] + a.drop_first());
        assert(b =~= seq![b[0]] + b.drop_first());
    }
    if a.len() > 0 && b.len() > 0 && a == b {
        assert(a.drop_first() == b.drop_first());
    }
    if a.len() == 0 && b.len() == 0 {
        assert(a =~= b);
    }
}

/// The text a sender sort compares: the display name, or the address where
/// the name is blank, case-folded.
pub open spec fn sender_key(m: Message) -> Seq<char> {
    if trim(m.from_name@).len() == 0 {
        unicode_lower(m.from_addr@)
    } else {
        unicode_lower(m.from_name@)
    }
}

/// What a sort compares of one message: its text, its flag, its time.
pub open spec fn list_key(m: Message, order: SortOrder) -> (Seq<char>, bool, i64) {
    let text = match order {
        SortOrder::Sender => sender_key(m),
        SortOrder::Subject => normalized_subject(m.subject@),
        _ => seq![],
    };
    let flag = match order {
        SortOrder::UnreadFirst => m.unread,
        SortOrder::FlaggedFirst => m.starred,
        _ => false,
    };
    (text, flag, m.timestamp)
}

/// Two keys under a sort order; ties fall back to newest first.
pub open spec fn key_compare(order: SortOrder, a: (Seq<char>, bool, i64), b: (Seq<char>, bool, i64)) -> int {
    match order {
        SortOrder::DateNewest => compare_int(b.2 as int, a.2 as int),
        SortOrder::DateOldest => compare_int(a.2 as int, b.2 as int),
        SortOrder::Sender => then(compare_text(a.0, b.0), compare_int(b.2 as int, a.2 as int)),
        SortOrder::Subject => then(compare_text(a.0, b.0), compare_int(b.2 as int, a.2 as int)),
        SortOrder::UnreadFirst => then(compare_bool(b.1, a.1), compare_int(b.2 as int, a.2 as int)),
        SortOrder::FlaggedFirst => then(compare_bool(b.1, a.1), compare_int(b.2 as int, a.2 as int)),
    }
}

/// Two messages under a sort order: negative when `a` comes first.
pub open spec fn message_compare(a: Message, b: Message, order: SortOrder) -> int {
    key_compare(order, list_key(a, order), list_key(b, order))
}

/// Each sort order is a total preorder on keys: antisymmetric and
/// transitive, with three outcomes.
pub proof fn lemma_key_compare(
    order: SortOrder,
    a: (Seq<char>, bool, i64),
    b: (Seq<char>, bool, i64),
    c: (Seq<char>, bool, i64),
)
    ensures
        key_compare(order, a, b) == -key_compare(order, b, a),
        -1 <= key_compare(order, a, b) <= 1,
        key_compare(order, a, b) <= 0 && key_compare(order, b, c) <= 0 ==> key_compare(order, a, c) <= 0,
{
    lemma_compare_text(a.0, b.0, c.0);
    lemma_compare_text(b.0, a.0, c.0);
    lemma_compare_text(a.0, c.0, b.0);
    lemma_compare_text(b.0, c.0, a.0);
}

/// One message's sort key, as computed.
pub struct ListKey {
    pub text: Vec<char>,
    pub flag: bool,
    pub timestamp: i64,
}

pub open spec fn key_view(k: ListKey) -> (Seq<char>, bool, i64) {
    (k.text@, k.flag, k.timestamp)
}

pub fn list_key_exec(m: &Message, order: SortOrder) -> (r: ListKey)
    ensures
        key_view(r) == list_key(*m, order),
{
    let text = match order {
        SortOrder::Sender => {
            let n = chars_of(m.from_name.as_str());
            let t = trim_chars(&n);
            if t.len() == 0 {
                let l = to_lowercase(m.from_addr.as_str());
                chars_of(l.as_str())
            } else {
                let l = to_lowercase(m.from_name.as_str());
                chars_of(l.as_str())
            }
        },
        SortOrder::Subject => {
            let s = normalize_subject(m.subject.as_str());
            chars_of(s.as_str())
        },
        _ => Vec::new(),
    };
    let flag = match order {
        SortOrder::UnreadFirst => m.unread,
        SortOrder::FlaggedFirst => m.starred,
        _ => false,
    };
    proof {
        assert(text@ =~= list_key(*m, order).0);
    }
    ListKey { text, flag, timestamp: m.timestamp }
}

pub fn compare_text_exec(a: &Vec<char>, b: &Vec<char>) -> (r: i8)
    ensures
        r as int == compare_text(a@, b@),
{
    let mut i: usize = 0;
    assert(a@.subrange(0, a@.len() as int) =~= a@);
    assert(b@.subrange(0, b@.len() as int) =~= b@);
    while i < a.len() && i < b.len()
        invariant
            i <= a.len(),
            i <= b.len(),
            compare_text(a@, b@) == compare_text(a@.subrange(i as int, a@.len() as int), b@.subrange(i as int, b@.len() as int)),
        decreases a.len() - i,
    {
        let x = a[i];
        let y = b[i];
        if x < y {
            return -1;
        }
        if x > y {
            return 1;
        }
        assert(a@.subrange(i as int, a@.len() as int).drop_first() =~= a@.subrange(i + 1, a@.len() as int));
        assert(b@.subrange(i as int, b@.len() as int).drop_first() =~= b@.subrange(i + 1, b@.len() as int));
        i += 1;
    }
    if a.len() == i {
        if b.len() == i {
            0
        } else {
            -1
        }
    } else {
        1
    }
}

fn compare_i64(x: i64, y: i64) -> (r: i8)
    ensures
        r as int == compare_int(x as int, y as int),
{
    if x < y {
        -1
    } else if x > y {
        1
    } else {
        0
    }
}

fn compare_flag(x: bool, y: bool) -> (r: i8)
    ensures
        r as int == compare_bool(x, y),
{
    if x == y {
        0
    } else if !x {
        -1
    } else {
        1
    }
}

/// Two computed keys under a sort order.
pub fn key_compare_exec(order: SortOrder, a: &ListKey, b: &ListKey) -> (r: i8)
    ensures
        r as int == key_compare(order, key_view(*a), key_view(*b)),
{
    let newest = compare_i64(b.timestamp, a.timestamp);
    match order {
        SortOrder::DateNewest => newest,
        SortOrder::DateOldest => compare_i64(a.timestamp, b.timestamp),
        SortOrder::Sender | SortOrder::Subject => {
            let t = compare_text_exec(&a.text, &b.text);
            if t != 0 {
                t
            } else {
                newest
            }
        },
        SortOrder::UnreadFirst | SortOrder::FlaggedFirst => {
            let f = compare_flag(b.flag, a.flag);
            if f != 0 {
                f
            } else {
                newest
            }
        },
    }
}

/// Conversation order: by time, then by UID, oldest first.
pub open spec fn thread_compare(a: Message, b: Message) -> int {
    then(compare_int(a.timestamp as int, b.timestamp as int), compare_int(a.uid as int, b.uid as int))
}

pub fn thread_compare_exec(a: &Message, b: &Message) -> (r: i8)
    ensures
        r as int == thread_compare(*a, *b),
{
    let t = compare_i64(a.timestamp, b.timestamp);
    if t != 0 {
        t
    } else if a.uid < b.uid {
        -1
    } else if a.uid > b.uid {
        1
    } else {
        0
    }
}

/// The list's ranking of a message set: every message's key under one sort
/// order.
pub struct ListRanking {
    pub keys: Vec<ListKey>,
    pub order: SortOrder,
}

impl Ranking for ListRanking {
    open spec fn len_spec(&self) -> nat {
        self.keys@.len()
    }

    open spec fn rank(&self, a: usize, b: usize) -> int {
        key_compare(self.order, key_view(self.keys@[a as int]), key_view(self.keys@[b as int]))
    }

    proof fn lemma_total(&self, a: usize, b: usize, c: usize) {
        lemma_key_compare(
            self.order,
            key_view(self.keys@[a as int]),
            key_view(self.keys@[b as int]),
            key_view(self.keys@[c as int]),
        );
    }

    fn compare_at(&self, a: usize, b: usize) -> (r: i8) {
        key_compare_exec(self.order, &self.keys[a], &self.keys[b])
    }
}

/// The keys of every message under one sort order.
pub fn list_ranking(msgs: &[Message], order: SortOrder) -> (r: ListRanking)
    ensures
        r.order == order,
        r.keys@.len() == msgs@.len(),
        forall|i: int| 0 <= i < msgs@.len() ==> key_view(#[trigger] r.keys@[i]) == list_key(msgs@[i], order),
{
    let mut keys: Vec<ListKey> = Vec::new();
    let mut i: usize = 0;
    while i < msgs.len()
        invariant
            i <= msgs.len(),
            keys@.len() == i,
            forall|j: int| 0 <= j < i ==> key_view(#[trigger] keys@[j]) == list_key(msgs@[j], order),
        decreases msgs.len() - i,
    {
        let k = list_key_exec(&msgs[i], order);
        keys.push(k);
        i += 1;
    }
    ListRanking { keys, order }
}

/// Conversation order over a message set.
pub struct ThreadRanking<'a> {
    pub msgs: &'a [Message],
}

impl<'a> Ranking for ThreadRanking<'a> {
    open spec fn len_spec(&self) -> nat {
        self.msgs@.len()
    }

    open spec fn rank(&self, a: usize, b: usize) -> int {
        thread_compare(self.msgs@[a as int], self.msgs@[b as int])
    }

    proof fn lemma_total(&self, a: usize, b: usize, c: usize) {
    }

    fn compare_at(&self, a: usize, b: usize) -> (r: i8) {
        thread_compare_exec(&self.msgs[a], &self.msgs[b])
    }
}

} // verus!

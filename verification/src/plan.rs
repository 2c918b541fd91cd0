//! What the message list shows: the messages matching the search, in the
//! chosen order, capped to the rendered page, grouped into conversations
//! with each conversation's messages oldest first.

use vstd::prelude::*;
use crate::model::Message;
use crate::list::SortOrder;
use crate::order::{list_ranking, message_compare, key_view, list_key, ListRanking, ThreadRanking, thread_compare};
use crate::sorting::{sort_positions, same_positions, stable_sort_of, ranked, stable, Ranking};
use crate::text::{
    chars_of, contains, contains_exec, decimal, decimal_chars, lemma_decimal_injective, push_all, push_str,
    seq_eq, string_of, to_lowercase, unicode_lower,
};
use crate::threads::{compute_thread_keys, last_with_key, thread_keys_ok, ThreadKeys};

verus! {

/// A message matches a (lower-cased) query when the query is empty or sits
/// in its lower-cased subject, sender name, sender address or preview.
pub open spec fn query_matches(m: Message, q: Seq<char>) -> bool {
    q.len() == 0 || contains(unicode_lower(m.subject@), q) || contains(unicode_lower(m.from_name@), q)
        || contains(unicode_lower(m.from_addr@), q) || contains(unicode_lower(m.preview@), q)
}

/// The positions among the first `n` messages that match, in order.
pub open spec fn matching(source: Seq<Message>, q: Seq<char>, n: int) -> Seq<usize>
    decreases n,
{
    if n <= 0 {
        seq![]
    } else {
        let rest = matching(source, q, n - 1);
        if query_matches(source[n - 1], q) {
            rest.push((n - 1) as usize)
        } else {
            rest
        }
    }
}

pub proof fn lemma_matching(source: Seq<Message>, q: Seq<char>, n: int)
    requires
        0 <= n <= source.len(),
        source.len() <= usize::MAX,
    ensures
        forall|i: int| 0 <= i < matching(source, q, n).len() ==> #[trigger] matching(source, q, n)[i] < n,
        forall|i: int, j: int|
            0 <= i < j < matching(source, q, n).len() ==> #[trigger] matching(source, q, n)[i] < #[trigger] matching(
                source,
                q,
                n,
            )[j],
        matching(source, q, n).no_duplicates(),
    decreases n,
{
    if n > 0 {
        lemma_matching(source, q, n - 1);
    }
}

/// A position is among the first `n` matches exactly when it is below `n`
/// and its message matches.
proof fn lemma_matching_contains(source: Seq<Message>, q: Seq<char>, n: int, i: int)
    requires
        0 <= n <= source.len(),
        source.len() <= usize::MAX,
        0 <= i < source.len(),
    ensures
        matching(source, q, n).contains(i as usize) <==> (i < n && query_matches(source[i], q)),
    decreases n,
{
    if n > 0 {
        lemma_matching_contains(source, q, n - 1, i);
        lemma_matching(source, q, n - 1);
        let rest = matching(source, q, n - 1);
        if query_matches(source[n - 1], q) {
            assert(rest.push((n - 1) as usize)[rest.len() as int] == (n - 1) as usize);
            if rest.push((n - 1) as usize).contains(i as usize) {
                let k = choose|k: int| 0 <= k < rest.len() + 1 && #[trigger] rest.push((n - 1) as usize)[k] == i as usize;
                if k < rest.len() {
                    assert(rest[k] == i as usize);
                }
            }
            if rest.contains(i as usize) {
                let k = choose|k: int| 0 <= k < rest.len() && #[trigger] rest[k] == i as usize;
                assert(rest.push((n - 1) as usize)[k] == i as usize);
            }
        }
    }
}

/// A search finds a message exactly when the query is empty or the
/// lower-cased query sits in its lower-cased subject, sender name, sender
/// address or preview.
pub proof fn law_search_finds_every_field(source: Seq<Message>, query: Seq<char>, i: int)
    requires
        source.len() <= usize::MAX,
        0 <= i < source.len(),
    ensures
        ({
            let q = unicode_lower(query);
            let m = source[i];
            matching(source, q, source.len() as int).contains(i as usize) <==> (q.len() == 0 || contains(
                unicode_lower(m.subject@),
                q,
            ) || contains(unicode_lower(m.from_name@), q) || contains(unicode_lower(m.from_addr@), q) || contains(
                unicode_lower(m.preview@),
                q,
            ))
        }),
{
    lemma_matching_contains(source, unicode_lower(query), source.len() as int, i);
}

/// `after` is `before` stably sorted into list order.
pub open spec fn list_sorted(source: Seq<Message>, order: SortOrder, before: Seq<usize>, after: Seq<usize>) -> bool {
    &&& same_positions(before, after)
    &&& forall|i: int, j: int|
        0 <= i < j < after.len() ==> message_compare(
            source[#[trigger] after[i] as int],
            source[#[trigger] after[j] as int],
            order,
        ) <= 0
    &&& forall|i: int, j: int|
        0 <= i < j < after.len() && message_compare(
            source[#[trigger] after[i] as int],
            source[#[trigger] after[j] as int],
            order,
        ) == 0 ==> before.index_of(after[i]) < before.index_of(after[j])
}

fn query_matches_exec(m: &Message, q: &Vec<char>) -> (r: bool)
    ensures
        r == query_matches(*m, q@),
{
    if q.len() == 0 {
        return true;
    }
    let s = to_lowercase(m.subject.as_str());
    if contains_exec(&chars_of(s.as_str()), q) {
        return true;
    }
    let n = to_lowercase(m.from_name.as_str());
    if contains_exec(&chars_of(n.as_str()), q) {
        return true;
    }
    let a = to_lowercase(m.from_addr.as_str());
    if contains_exec(&chars_of(a.as_str()), q) {
        return true;
    }
    let p = to_lowercase(m.preview.as_str());
    contains_exec(&chars_of(p.as_str()), q)
}

/// The positions of the messages that match the query, in order.
pub fn matching_positions(source: &[Message], query: &str) -> (r: Vec<usize>)
    ensures
        r@ == matching(source@, unicode_lower(query@), source@.len() as int),
{
    let ql = to_lowercase(query);
    let q = chars_of(ql.as_str());
    let mut out: Vec<usize> = Vec::new();
    let mut i: usize = 0;
    while i < source.len()
        invariant
            i <= source.len(),
            q@ == unicode_lower(query@),
            out@ == matching(source@, q@, i as int),
        decreases source.len() - i,
    {
        if query_matches_exec(&source[i], &q) {
            out.push(i);
        }
        i += 1;
    }
    out
}

/// The matching messages' positions in list order, every match included.
pub fn sorted_matches(source: &[Message], query: &str, order: SortOrder) -> (r: Vec<usize>)
    ensures
        list_sorted(
            source@,
            order,
            matching(source@, unicode_lower(query@), source@.len() as int),
            r@,
        ),
{
    let mut pos = matching_positions(source, query);
    let ghost before = pos@;
    let n = source.len();
    proof {
        lemma_matching(source@, unicode_lower(query@), source@.len() as int);
    }
    let ctx = list_ranking(source, order);
    sort_positions(&mut pos, &ctx);
    proof {
        let after = pos@;
        assert forall|i: int, j: int| 0 <= i < j < after.len() implies message_compare(
            source@[#[trigger] after[i] as int],
            source@[#[trigger] after[j] as int],
            order,
        ) <= 0 by {
            assert(ctx.rank(after[i], after[j]) <= 0);
            assert(before.contains(after[i]));
            assert(before.contains(after[j]));
            assert(key_view(ctx.keys@[after[i] as int]) == list_key(source@[after[i] as int], order));
            assert(key_view(ctx.keys@[after[j] as int]) == list_key(source@[after[j] as int], order));
        }
        assert forall|i: int, j: int|
            0 <= i < j < after.len() && message_compare(
                source@[#[trigger] after[i] as int],
                source@[#[trigger] after[j] as int],
                order,
            ) == 0 implies before.index_of(after[i]) < before.index_of(after[j]) by {
            assert(before.contains(after[i]));
            assert(before.contains(after[j]));
            assert(key_view(ctx.keys@[after[i] as int]) == list_key(source@[after[i] as int], order));
            assert(key_view(ctx.keys@[after[j] as int]) == list_key(source@[after[j] as int], order));
            assert(ctx.rank(after[i], after[j]) == 0);
        }
    }
    pos
}

// ---------------------------------------------------------------------------
// The rendered page and its conversation keys
// ---------------------------------------------------------------------------

/// The first `limit` of the sorted positions' messages.
pub fn page_of(source: &[Message], sorted: &Vec<usize>, limit: usize) -> (r: Vec<Message>)
    requires
        forall|i: int| 0 <= i < sorted@.len() ==> #[trigger] sorted@[i] < source@.len(),
    ensures
        r@.len() == (if limit < sorted@.len() {
            limit as int
        } else {
            sorted@.len() as int
        }),
        forall|i: int| 0 <= i < r@.len() ==> #[trigger] r@[i] == source@[sorted@[i] as int],
{
    let n = if limit < sorted.len() {
        limit
    } else {
        sorted.len()
    };
    let mut out: Vec<Message> = Vec::new();
    let mut i: usize = 0;
    while i < n
        invariant
            i <= n,
            n <= sorted.len(),
            forall|k: int| 0 <= k < sorted@.len() ==> #[trigger] sorted@[k] < source@.len(),
            out@.len() == i,
            forall|k: int| 0 <= k < i ==> #[trigger] out@[k] == source@[sorted@[k] as int],
        decreases n - i,
    {
        let m = source[sorted[i]].duplicate();
        out.push(m);
        i += 1;
    }
    out
}

/// The key a message falls back on outside any conversation (always, with
/// threading off): a group of its own, by its account and id, which no two
/// messages share even where two folders' UIDs meet in one list.
pub open spec fn lone_key(m: Message) -> (u32, Seq<char>) {
    (m.account_id, "\u{0}id"@ + decimal(m.id as nat))
}

pub open spec fn threads_view(t: &Option<ThreadKeys>) -> Option<Seq<((u32, u32), (u32, Seq<char>))>> {
    match t {
        Some(k) => Some(k@),
        None => None,
    }
}

/// The conversation key the list groups a message under: the one threading
/// recorded for it, else its own.
pub open spec fn group_key(threads: Option<Seq<((u32, u32), (u32, Seq<char>))>>, m: Message) -> (u32, Seq<char>) {
    match threads {
        Some(v) => match last_with_key(v, (m.account_id, m.id), v.len() as int) {
            Some(j) => v[j].1,
            None => lone_key(m),
        },
        None => lone_key(m),
    }
}

/// Every page message's group key.
pub open spec fn group_keys(threads: Option<Seq<((u32, u32), (u32, Seq<char>))>>, page: Seq<Message>) -> Seq<(u32, Seq<char>)> {
    Seq::new(page.len(), |i: int| group_key(threads, page[i]))
}

fn group_key_exec(threads: &Option<ThreadKeys>, m: &Message) -> (r: (u32, Vec<char>))
    ensures
        (r.0, r.1@) == group_key(threads_view(threads), *m),
{
    match threads {
        Some(t) => match t.get(&(m.account_id, m.id)) {
            Some(k) => {
                return (k.0, chars_of(k.1.as_str()));
            },
            None => {},
        },
        None => {},
    }
    let mut name: Vec<char> = Vec::new();
    push_str(&mut name, "\u{0}id");
    let d = decimal_chars(m.id);
    push_all(&mut name, &d);
    (m.account_id, name)
}

// ---------------------------------------------------------------------------
// Grouping
// ---------------------------------------------------------------------------

/// The distinct keys among the first `n`, in order of first appearance.
pub open spec fn first_keys(ks: Seq<(u32, Seq<char>)>, n: int) -> Seq<(u32, Seq<char>)>
    decreases n,
{
    if n <= 0 {
        seq![]
    } else {
        let r = first_keys(ks, n - 1);
        if r.contains(ks[n - 1]) {
            r
        } else {
            r.push(ks[n - 1])
        }
    }
}

/// The positions among the first `n` that carry key `k`, in order.
pub open spec fn members_of(ks: Seq<(u32, Seq<char>)>, k: (u32, Seq<char>), n: int) -> Seq<usize>
    decreases n,
{
    if n <= 0 {
        seq![]
    } else {
        let r = members_of(ks, k, n - 1);
        if ks[n - 1] == k {
            r.push((n - 1) as usize)
        } else {
            r
        }
    }
}

pub proof fn lemma_first_keys(ks: Seq<(u32, Seq<char>)>, n: int)
    requires
        0 <= n <= ks.len(),
    ensures
        first_keys(ks, n).no_duplicates(),
        forall|k: (u32, Seq<char>)|
            first_keys(ks, n).contains(k) <==> exists|j: int| 0 <= j < n && #[trigger] ks[j] == k,
    decreases n,
{
    if n > 0 {
        lemma_first_keys(ks, n - 1);
        let r = first_keys(ks, n - 1);
        assert forall|k: (u32, Seq<char>)|
            first_keys(ks, n).contains(k) <==> exists|j: int| 0 <= j < n && #[trigger] ks[j] == k by {
            if first_keys(ks, n).contains(k) && !r.contains(k) {
                assert(k == ks[n - 1]);
            }
            if exists|j: int| 0 <= j < n && #[trigger] ks[j] == k {
                let j = choose|j: int| 0 <= j < n && #[trigger] ks[j] == k;
                if j < n - 1 {
                    assert(r.contains(k));
                    if !r.contains(ks[n - 1]) {
                        assert(r.push(ks[n - 1])[r.index_of(k)] == k);
                    }
                } else {
                    if !r.contains(ks[n - 1]) {
                        assert(r.push(ks[n - 1])[r.len() as int] == k);
                    }
                }
            }
        }
    }
}

pub proof fn lemma_members_of(ks: Seq<(u32, Seq<char>)>, k: (u32, Seq<char>), n: int)
    requires
        0 <= n <= ks.len(),
        ks.len() <= usize::MAX,
    ensures
        forall|i: int| 0 <= i < members_of(ks, k, n).len() ==> #[trigger] members_of(ks, k, n)[i] < n,
        forall|i: int|
            0 <= i < members_of(ks, k, n).len() ==> ks[#[trigger] members_of(ks, k, n)[i] as int] == k,
        forall|i: int, j: int|
            0 <= i < j < members_of(ks, k, n).len() ==> #[trigger] members_of(ks, k, n)[i] < #[trigger] members_of(
                ks,
                k,
                n,
            )[j],
        members_of(ks, k, n).no_duplicates(),
        (forall|j: int| 0 <= j < n ==> ks[j] != k) ==> members_of(ks, k, n).len() == 0,
        forall|j: int| 0 <= j < n && ks[j] == k ==> members_of(ks, k, n).contains(j as usize),
    decreases n,
{
    if n > 0 {
        lemma_members_of(ks, k, n - 1);
        let r = members_of(ks, k, n - 1);
        if ks[n - 1] == k {
            assert(r.push((n - 1) as usize)[r.len() as int] == (n - 1) as usize);
            assert forall|j: int| 0 <= j < n && ks[j] == k implies members_of(ks, k, n).contains(j as usize) by {
                if j < n - 1 {
                    let t = r.index_of(j as usize);
                    assert(r.push((n - 1) as usize)[t] == j as usize);
                }
            }
        }
    }
}

pub open spec fn key_views(v: Seq<(u32, Vec<char>)>) -> Seq<(u32, Seq<char>)> {
    Seq::new(v.len(), |i: int| (v[i].0, v[i].1@))
}

fn find_group(keys: &Vec<(u32, Vec<char>)>, k: &(u32, Vec<char>)) -> (r: Option<usize>)
    ensures
        match r {
            Some(g) => g < keys@.len() && key_views(keys@)[g as int] == (k.0, k.1@),
            None => forall|h: int| 0 <= h < keys@.len() ==> key_views(keys@)[h] != (k.0, k.1@),
        },
{
    let mut g: usize = 0;
    while g < keys.len()
        invariant
            g <= keys.len(),
            forall|h: int| 0 <= h < g ==> key_views(keys@)[h] != (k.0, k.1@),
        decreases keys.len() - g,
    {
        if keys[g].0 == k.0 && seq_eq(&keys[g].1, &k.1) {
            return Some(g);
        }
        g += 1;
    }
    None
}

/// The page's keys grouped: the distinct keys in order of first appearance,
/// and for each the positions that carry it.
fn group_by_key(ks: &Vec<(u32, Vec<char>)>) -> (r: (Vec<(u32, Vec<char>)>, Vec<Vec<usize>>))
    ensures
        key_views(r.0@) == first_keys(key_views(ks@), ks@.len() as int),
        r.1@.len() == r.0@.len(),
        forall|g: int|
            0 <= g < r.1@.len() ==> (#[trigger] r.1@[g])@ == members_of(
                key_views(ks@),
                key_views(r.0@)[g],
                ks@.len() as int,
            ),
{
    let ghost kv = key_views(ks@);
    let mut keys: Vec<(u32, Vec<char>)> = Vec::new();
    let mut members: Vec<Vec<usize>> = Vec::new();
    let mut i: usize = 0;
    while i < ks.len()
        invariant
            i <= ks.len(),
            kv == key_views(ks@),
            key_views(keys@) == first_keys(kv, i as int),
            members@.len() == keys@.len(),
            forall|g: int|
                0 <= g < members@.len() ==> (#[trigger] members@[g])@ == members_of(
                    kv,
                    key_views(keys@)[g],
                    i as int,
                ),
        decreases ks.len() - i,
    {
        proof {
            lemma_first_keys(kv, i as int);
        }
        let found = find_group(&keys, &ks[i]);
        let ghost old_keys = key_views(keys@);
        let ghost old_members = members@;
        match found {
            Some(g) => {
                assert(kv[i as int] == (ks@[i as int].0, ks@[i as int].1@));
                assert(old_keys[g as int] == kv[i as int]);
                assert(old_keys.contains(kv[i as int]));
                members[g].push(i);
                assert forall|h: int| 0 <= h < members@.len() implies (#[trigger] members@[h])@ == members_of(
                    kv,
                    key_views(keys@)[h],
                    i + 1,
                ) by {
                    if h != g {
                        assert(members@[h] == old_members[h]);
                        assert(old_keys[h] != old_keys[g as int]);
                    }
                }
            },
            None => {
                assert(kv[i as int] == (ks@[i as int].0, ks@[i as int].1@));
                assert(!old_keys.contains(kv[i as int])) by {
                    if old_keys.contains(kv[i as int]) {
                        let h = old_keys.index_of(kv[i as int]);
                        assert(key_views(keys@)[h] == kv[i as int]);
                    }
                }
                let c = crate::text::slice_of(&ks[i].1, 0, ks[i].1.len());
                assert(c@ =~= ks@[i as int].1@);
                keys.push((ks[i].0, c));
                let mut v: Vec<usize> = Vec::new();
                v.push(i);
                members.push(v);
                assert(key_views(keys@) =~= old_keys.push(kv[i as int]));
                proof {
                    lemma_members_of(kv, kv[i as int], i as int);
                    assert forall|j: int| 0 <= j < i implies kv[j] != kv[i as int] by {
                        if kv[j] == kv[i as int] {
                            assert(old_keys.contains(kv[j]));
                        }
                    }
                }
                assert forall|h: int| 0 <= h < members@.len() implies (#[trigger] members@[h])@ == members_of(
                    kv,
                    key_views(keys@)[h],
                    i + 1,
                ) by {
                    if h < old_members.len() {
                        assert(members@[h] == old_members[h]);
                        assert(old_keys.contains(old_keys[h]));
                    } else {
                        assert(members@[h]@ =~= seq![i]);
                    }
                }
            },
        }
        i += 1;
    }
    (keys, members)
}

// ---------------------------------------------------------------------------
// Conversations, oldest first
// ---------------------------------------------------------------------------

/// `after` is `before` stably sorted into conversation order.
pub open spec fn thread_sorted(page: Seq<Message>, before: Seq<usize>, after: Seq<usize>) -> bool {
    &&& same_positions(before, after)
    &&& forall|i: int, j: int|
        0 <= i < j < after.len() ==> thread_compare(page[#[trigger] after[i] as int], page[#[trigger] after[j] as int])
            <= 0
    &&& forall|i: int, j: int|
        0 <= i < j < after.len() && thread_compare(
            page[#[trigger] after[i] as int],
            page[#[trigger] after[j] as int],
        ) == 0 ==> before.index_of(after[i]) < before.index_of(after[j])
}

fn sort_conversation(page: &[Message], members: &mut Vec<usize>)
    requires
        old(members)@.no_duplicates(),
        forall|i: int| 0 <= i < old(members)@.len() ==> #[trigger] old(members)@[i] < page@.len(),
    ensures
        thread_sorted(page@, old(members)@, final(members)@),
{
    let ctx = ThreadRanking { msgs: page };
    sort_positions(members, &ctx);
}

/// The page's conversations: each distinct key in order of first appearance,
/// with its messages' page positions in conversation order.
pub open spec fn groups_ok(
    page: Seq<Message>,
    ks: Seq<(u32, Seq<char>)>,
    groups: Seq<((u32, Seq<char>), Seq<usize>)>,
) -> bool {
    let fk = first_keys(ks, ks.len() as int);
    &&& groups.len() == fk.len()
    &&& forall|g: int|
        0 <= g < groups.len() ==> (#[trigger] groups[g]).0 == fk[g] && thread_sorted(
            page,
            members_of(ks, fk[g], ks.len() as int),
            groups[g].1,
        )
}

/// No two messages of the page share an account and an id.
pub open spec fn distinct_ids(page: Seq<Message>) -> bool {
    forall|i: int, j: int|
        0 <= i < j < page.len() ==> (#[trigger] page[i]).account_id != (#[trigger] page[j]).account_id
            || page[i].id != page[j].id
}

/// Keys of distinct messages differ when none of them is threaded.
proof fn lemma_lone_keys_distinct(page: Seq<Message>)
    requires
        distinct_ids(page),
    ensures
        forall|i: int, j: int|
            0 <= i < j < page.len() ==> #[trigger] group_keys(None, page)[i] != #[trigger] group_keys(
                None,
                page,
            )[j],
{
    assert forall|i: int, j: int| 0 <= i < j < page.len() implies #[trigger] group_keys(None, page)[i]
        != #[trigger] group_keys(None, page)[j] by {
        let a = page[i];
        let b = page[j];
        if group_keys(None, page)[i] == group_keys(None, page)[j] {
            let p = "\u{0}id"@;
            assert(lone_key(a).1 == lone_key(b).1);
            assert(decimal(a.id as nat) =~= lone_key(a).1.skip(p.len() as int));
            assert(decimal(b.id as nat) =~= lone_key(b).1.skip(p.len() as int));
            lemma_decimal_injective(a.id as nat, b.id as nat);
        }
    }
}

/// The distinct keys of a sequence without repeats are all of its keys.
proof fn lemma_first_keys_distinct(ks: Seq<(u32, Seq<char>)>, n: int)
    requires
        0 <= n <= ks.len(),
        forall|i: int, j: int| 0 <= i < j < ks.len() ==> #[trigger] ks[i] != #[trigger] ks[j],
    ensures
        first_keys(ks, n) == ks.take(n),
    decreases n,
{
    if n > 0 {
        lemma_first_keys_distinct(ks, n - 1);
        lemma_first_keys(ks, n - 1);
        assert(!first_keys(ks, n - 1).contains(ks[n - 1]));
        assert(ks.take(n - 1).push(ks[n - 1]) =~= ks.take(n));
    } else {
        assert(ks.take(0) =~= Seq::<(u32, Seq<char>)>::empty());
    }
}

/// Of keys without repeats, each is carried by its own position alone.
proof fn lemma_members_distinct(ks: Seq<(u32, Seq<char>)>, i: int, n: int)
    requires
        0 <= i < n <= ks.len(),
        ks.len() <= usize::MAX,
        forall|a: int, b: int| 0 <= a < b < ks.len() ==> #[trigger] ks[a] != #[trigger] ks[b],
    ensures
        members_of(ks, ks[i], n) == seq![i as usize],
    decreases n,
{
    if n - 1 > i {
        lemma_members_distinct(ks, i, n - 1);
    } else {
        lemma_members_of(ks, ks[i], i);
        assert(members_of(ks, ks[i], i).len() == 0);
        assert(members_of(ks, ks[i], i).push(i as usize) =~= seq![i as usize]);
    }
}

/// With threading off, every message of the page is a conversation of its
/// own, in page order, as long as no two messages share an account and an
/// id (as no two messages of one account do): two folders' messages with the
/// same UID stay apart.
pub proof fn law_unthreaded_each_message_alone(page: Seq<Message>)
    requires
        distinct_ids(page),
        page.len() <= usize::MAX,
    ensures
        first_keys(group_keys(None, page), page.len() as int) == group_keys(None, page),
        forall|i: int|
            0 <= i < page.len() ==> members_of(
                group_keys(None, page),
                #[trigger] group_keys(None, page)[i],
                page.len() as int,
            ) == seq![i as usize],
{
    let ks = group_keys(None, page);
    lemma_lone_keys_distinct(page);
    lemma_first_keys_distinct(ks, ks.len() as int);
    assert(ks.take(ks.len() as int) =~= ks);
    assert forall|i: int| 0 <= i < page.len() implies members_of(ks, #[trigger] ks[i], page.len() as int)
        == seq![i as usize] by {
        lemma_members_distinct(ks, i, ks.len() as int);
    }
}

// ---------------------------------------------------------------------------
// Rows
// ---------------------------------------------------------------------------

/// One row of the list.
pub struct PlannedRow {
    /// The message's position in the source.
    pub pos: usize,
    /// How many messages the row's conversation holds (0 on a reply row).
    pub count: usize,
    /// A reply shown beneath its conversation's head.
    pub is_child: bool,
    /// The conversation is shown open.
    pub expanded: bool,
    /// The conversation's key, on the head of one with several messages.
    pub key: Option<(u32, String)>,
    /// Some message of the head's conversation is unread.
    pub unread: bool,
    /// The source position of the conversation's newest message, whose time
    /// the head shows.
    pub latest: Option<usize>,
}

pub open spec fn row_view(r: PlannedRow) -> (usize, usize, bool, bool, Option<(u32, Seq<char>)>, bool, Option<usize>) {
    (
        r.pos,
        r.count,
        r.is_child,
        r.expanded,
        match r.key {
            Some(k) => Some((k.0, k.1@)),
            None => None,
        },
        r.unread,
        r.latest,
    )
}

pub open spec fn rows_view(v: Seq<PlannedRow>) -> Seq<(usize, usize, bool, bool, Option<(u32, Seq<char>)>, bool, Option<usize>)> {
    Seq::new(v.len(), |i: int| row_view(v[i]))
}

/// Whether a conversation is open: toggles record departures from the
/// default.
pub open spec fn is_open(toggled: Seq<(u32, Seq<char>)>, k: (u32, Seq<char>), default_expanded: bool) -> bool {
    toggled.contains(k) != default_expanded
}

/// One conversation's rows: its head (the oldest message), then, when it is
/// open, its replies oldest to newest.
pub open spec fn group_rows(
    g: ((u32, Seq<char>), Seq<usize>),
    sorted: Seq<usize>,
    page: Seq<Message>,
    toggled: Seq<(u32, Seq<char>)>,
    default_expanded: bool,
) -> Seq<(usize, usize, bool, bool, Option<(u32, Seq<char>)>, bool, Option<usize>)> {
    let ms = g.1;
    let count = ms.len();
    let several = count > 1;
    let open = several && is_open(toggled, g.0, default_expanded);
    let unread = several && exists|j: int| 0 <= j < count && #[trigger] page[ms[j] as int].unread;
    let head = (
        sorted[ms[0] as int],
        count as usize,
        false,
        open,
        if several {
            Some(g.0)
        } else {
            None
        },
        unread,
        if several {
            Some(sorted[ms.last() as int])
        } else {
            None
        },
    );
    let replies = if open {
        Seq::new(
            (count - 1) as nat,
            |j: int| (sorted[ms[j + 1] as int], 0usize, true, false, None, false, None),
        )
    } else {
        seq![]
    };
    seq![head] + replies
}

/// The rows of the first `n` conversations.
pub open spec fn rows_of(
    groups: Seq<((u32, Seq<char>), Seq<usize>)>,
    sorted: Seq<usize>,
    page: Seq<Message>,
    toggled: Seq<(u32, Seq<char>)>,
    default_expanded: bool,
    n: int,
) -> Seq<(usize, usize, bool, bool, Option<(u32, Seq<char>)>, bool, Option<usize>)>
    decreases n,
{
    if n <= 0 {
        seq![]
    } else {
        rows_of(groups, sorted, page, toggled, default_expanded, n - 1) + group_rows(
            groups[n - 1],
            sorted,
            page,
            toggled,
            default_expanded,
        )
    }
}

pub open spec fn toggled_view(v: Seq<(u32, String)>) -> Seq<(u32, Seq<char>)> {
    Seq::new(v.len(), |i: int| (v[i].0, v[i].1@))
}

fn is_toggled(toggled: &[(u32, String)], k: &(u32, Vec<char>)) -> (r: bool)
    ensures
        r == toggled_view(toggled@).contains((k.0, k.1@)),
{
    let mut i: usize = 0;
    while i < toggled.len()
        invariant
            i <= toggled.len(),
            forall|h: int| 0 <= h < i ==> toggled_view(toggled@)[h] != (k.0, k.1@),
        decreases toggled.len() - i,
    {
        let t = chars_of(toggled[i].1.as_str());
        if toggled[i].0 == k.0 && seq_eq(&t, &k.1) {
            assert(toggled_view(toggled@)[i as int] == (k.0, k.1@));
            return true;
        }
        i += 1;
    }
    false
}

fn push_group_rows(
    rows: &mut Vec<PlannedRow>,
    key: &(u32, Vec<char>),
    ms: &Vec<usize>,
    sorted: &Vec<usize>,
    page: &[Message],
    toggled: &[(u32, String)],
    default_expanded: bool,
)
    requires
        ms@.len() > 0,
        forall|j: int| 0 <= j < ms@.len() ==> #[trigger] ms@[j] < page@.len(),
        page@.len() <= sorted@.len(),
    ensures
        rows_view(final(rows)@) == rows_view(old(rows)@) + group_rows(
            ((key.0, key.1@), ms@),
            sorted@,
            page@,
            toggled_view(toggled@),
            default_expanded,
        ),
{
    let ghost start = rows_view(rows@);
    let count = ms.len();
    let several = count > 1;
    let open = several && (is_toggled(toggled, key) != default_expanded);
    let mut unread = false;
    if several {
        let mut j: usize = 0;
        while j < count
            invariant
                j <= count,
                count == ms@.len(),
                forall|h: int| 0 <= h < ms@.len() ==> #[trigger] ms@[h] < page@.len(),
                unread == exists|h: int| 0 <= h < j && #[trigger] page@[ms@[h] as int].unread,
            decreases count - j,
        {
            if page[ms[j]].unread {
                unread = true;
            }
            j += 1;
        }
    }
    let head_key = if several {
        Some((key.0, string_of(&key.1)))
    } else {
        None
    };
    let latest = if several {
        Some(sorted[ms[count - 1]])
    } else {
        None
    };
    rows.push(
        PlannedRow {
            pos: sorted[ms[0]],
            count,
            is_child: false,
            expanded: open,
            key: head_key,
            unread,
            latest,
        },
    );
    let ghost g = ((key.0, key.1@), ms@);
    let ghost want = group_rows(g, sorted@, page@, toggled_view(toggled@), default_expanded);
    assert(rows_view(rows@) =~= start + want.subrange(0, 1));
    if open {
        assert(want.len() == count);
        let mut j: usize = 1;
        while j < count
            invariant
                1 <= j <= count,
                count == ms@.len(),
                open,
                forall|h: int| 0 <= h < ms@.len() ==> #[trigger] ms@[h] < page@.len(),
                page@.len() <= sorted@.len(),
                want == group_rows(g, sorted@, page@, toggled_view(toggled@), default_expanded),
                g == ((key.0, key.1@), ms@),
                want.len() == count,
                rows_view(rows@) == start + want.subrange(0, j as int),
            decreases count - j,
        {
            let ghost before = rows@;
            rows.push(
                PlannedRow {
                    pos: sorted[ms[j]],
                    count: 0,
                    is_child: true,
                    expanded: false,
                    key: None,
                    unread: false,
                    latest: None,
                },
            );
            assert(want[j as int] == row_view(rows@.last()));
            assert(rows_view(rows@) =~= rows_view(before).push(row_view(rows@.last())));
            assert(rows_view(rows@) =~= start + want.subrange(0, j + 1));
            j += 1;
        }
        assert(want.subrange(0, count as int) =~= want);
    } else {
        assert(want.subrange(0, 1) =~= want);
    }
}

// ---------------------------------------------------------------------------
// The whole plan
// ---------------------------------------------------------------------------

/// One conversation of the page: its key and its messages' page positions,
/// oldest first.
pub struct Conversation {
    pub key: (u32, String),
    pub members: Vec<usize>,
}

pub open spec fn convs_view(v: Seq<Conversation>) -> Seq<((u32, Seq<char>), Seq<usize>)> {
    Seq::new(v.len(), |i: int| ((v[i].key.0, v[i].key.1@), v[i].members@))
}

/// What the list shows after a rebuild.
pub struct ListPlan {
    /// How many messages match the search.
    pub total: usize,
    /// Every match's source position, in list order.
    pub sorted: Vec<usize>,
    /// The rendered page: the first matches, up to the render limit.
    pub page: Vec<Message>,
    /// The page's conversation keys, when threading is on.
    pub threads: Option<ThreadKeys>,
    /// The page's conversations in list order.
    pub conversations: Vec<Conversation>,
    /// The rows, in display order.
    pub rows: Vec<PlannedRow>,
}

fn copy_positions(v: &Vec<usize>) -> (r: Vec<usize>)
    ensures
        r@ == v@,
{
    let mut out: Vec<usize> = Vec::new();
    let mut i: usize = 0;
    while i < v.len()
        invariant
            i <= v.len(),
            out@ == v@.take(i as int),
        decreases v.len() - i,
    {
        out.push(v[i]);
        assert(v@.take(i as int).push(v@[i as int]) =~= v@.take(i + 1 as int));
        i += 1;
    }
    assert(v@.take(v.len() as int) =~= v@);
    out
}

/// `p` is the plan of `source` for a rebuild: see [`plan_list`].
pub open spec fn planned(
    source: Seq<Message>,
    query: Seq<char>,
    order: SortOrder,
    render_limit: usize,
    threading: bool,
    links: Seq<(u32, String, String)>,
    toggled: Seq<(u32, String)>,
    default_expanded: bool,
    p: ListPlan,
) -> bool {
    &&& list_sorted(source, order, matching(source, unicode_lower(query), source.len() as int), p.sorted@)
    &&& p.total == p.sorted@.len()
    &&& p.page@.len() == (if render_limit < p.sorted@.len() {
        render_limit as int
    } else {
        p.sorted@.len() as int
    })
    &&& forall|i: int| 0 <= i < p.page@.len() ==> #[trigger] p.page@[i] == source[p.sorted@[i] as int]
    &&& threading == (p.threads is Some)
    &&& match p.threads {
        Some(t) => thread_keys_ok(p.page@, links, t@),
        None => true,
    }
    &&& groups_ok(p.page@, group_keys(threads_view(&p.threads), p.page@), convs_view(p.conversations@))
    &&& rows_view(p.rows@) == rows_of(
        convs_view(p.conversations@),
        p.sorted@,
        p.page@,
        toggled_view(toggled),
        default_expanded,
        p.conversations@.len() as int,
    )
    &&& forall|i: int| 0 <= i < p.rows@.len() ==> #[trigger] p.rows@[i].pos < source.len()
}

/// A rebuilt list holds a message among its sorted results (and counts it in
/// its total) exactly when the query is empty or the lower-cased query sits
/// in its lower-cased subject, sender name, sender address or preview.
pub proof fn law_plan_search_results(
    source: Seq<Message>,
    query: Seq<char>,
    order: SortOrder,
    render_limit: usize,
    threading: bool,
    links: Seq<(u32, String, String)>,
    toggled: Seq<(u32, String)>,
    default_expanded: bool,
    p: ListPlan,
    i: int,
)
    requires
        source.len() <= usize::MAX,
        planned(source, query, order, render_limit, threading, links, toggled, default_expanded, p),
        0 <= i < source.len(),
    ensures
        ({
            let q = unicode_lower(query);
            let m = source[i];
            p.sorted@.contains(i as usize) <==> (q.len() == 0 || contains(unicode_lower(m.subject@), q) || contains(
                unicode_lower(m.from_name@),
                q,
            ) || contains(unicode_lower(m.from_addr@), q) || contains(unicode_lower(m.preview@), q))
        }),
        p.total == p.sorted@.len(),
{
    law_search_finds_every_field(source, query, i);
}

/// The list after a rebuild: the messages of `source` matching `query`,
/// stably sorted by `order`; the first `render_limit` of them rendered;
/// grouped by conversation (when threading is on, else each message its own)
/// in order of first appearance; each conversation's head its oldest
/// message, with its replies beneath it, oldest first, where the
/// conversation is open (`toggled` lists departures from
/// `default_expanded`).
pub fn plan_list(
    source: &[Message],
    query: &str,
    order: SortOrder,
    render_limit: usize,
    threading: bool,
    links: &[(u32, String, String)],
    toggled: &[(u32, String)],
    default_expanded: bool,
) -> (p: ListPlan)
    ensures
        planned(source@, query@, order, render_limit, threading, links@, toggled@, default_expanded, p),
{
    let sorted = sorted_matches(source, query, order);
    let ghost before = matching(source@, unicode_lower(query@), source@.len() as int);
    let n = source.len();
    proof {
        lemma_matching(source@, unicode_lower(query@), source@.len() as int);
        assert forall|i: int| 0 <= i < sorted@.len() implies #[trigger] sorted@[i] < source@.len() by {
            assert(sorted@.contains(sorted@[i]));
            assert(before.contains(sorted@[i]));
        }
    }
    let total = sorted.len();
    let page = page_of(source, &sorted, render_limit);
    let threads = if threading {
        Some(compute_thread_keys(page.as_slice(), links))
    } else {
        None
    };
    let ghost tv = threads_view(&threads);
    let mut ks: Vec<(u32, Vec<char>)> = Vec::new();
    let mut i: usize = 0;
    while i < page.len()
        invariant
            i <= page.len(),
            tv == threads_view(&threads),
            key_views(ks@) == group_keys(tv, page@).take(i as int),
        decreases page.len() - i,
    {
        let k = group_key_exec(&threads, &page[i]);
        let ghost before_ks = key_views(ks@);
        ks.push(k);
        assert(key_views(ks@) =~= before_ks.push((k.0, k.1@)));
        assert(group_keys(tv, page@).take(i + 1 as int) =~= group_keys(tv, page@).take(i as int).push(
            group_key(tv, page@[i as int]),
        ));
        i += 1;
    }
    let ghost kv = group_keys(tv, page@);
    assert(key_views(ks@) =~= kv);
    let (keys, members) = group_by_key(&ks);
    let ghost fk = first_keys(kv, kv.len() as int);
    proof {
        lemma_first_keys(kv, kv.len() as int);
    }
    let mut conversations: Vec<Conversation> = Vec::new();
    let mut rows: Vec<PlannedRow> = Vec::new();
    let plen = page.len();
    let mut g: usize = 0;
    while g < keys.len()
        invariant
            g <= keys.len(),
            key_views(keys@) == fk,
            fk == first_keys(kv, kv.len() as int),
            kv == group_keys(tv, page@),
            kv.len() == page@.len(),
            kv.len() <= usize::MAX,
            page@.len() <= sorted@.len(),
            forall|i: int| 0 <= i < sorted@.len() ==> #[trigger] sorted@[i] < source@.len(),
            forall|i: int| 0 <= i < rows@.len() ==> #[trigger] rows@[i].pos < source@.len(),
            members@.len() == keys@.len(),
            forall|h: int| 0 <= h < members@.len() ==> (#[trigger] members@[h])@ == members_of(kv, fk[h], kv.len() as int),
            forall|k: (u32, Seq<char>)| fk.contains(k) <==> exists|j: int| 0 <= j < kv.len() && #[trigger] kv[j] == k,
            conversations@.len() == g,
            forall|h: int|
                0 <= h < g ==> (#[trigger] convs_view(conversations@)[h]).0 == fk[h] && thread_sorted(
                    page@,
                    members_of(kv, fk[h], kv.len() as int),
                    convs_view(conversations@)[h].1,
                ),
            rows_view(rows@) == rows_of(
                convs_view(conversations@),
                sorted@,
                page@,
                toggled_view(toggled@),
                default_expanded,
                g as int,
            ),
        decreases keys.len() - g,
    {
        let mut ms = copy_positions(&members[g]);
        let ghost k = fk[g as int];
        proof {
            lemma_members_of(kv, k, kv.len() as int);
            assert(fk.contains(k));
            let j = choose|j: int| 0 <= j < kv.len() && #[trigger] kv[j] == k;
            assert(members_of(kv, k, kv.len() as int).contains(j as usize));
        }
        sort_conversation(page.as_slice(), &mut ms);
        proof {
            assert forall|j: int| 0 <= j < ms@.len() implies #[trigger] ms@[j] < page@.len() by {
                assert(ms@.contains(ms@[j]));
            }
        }
        let ghost old_convs = convs_view(conversations@);
        let ghost old_rows_spec = rows_view(rows@);
        let ghost rows_before = rows@;
        push_group_rows(&mut rows, &keys[g], &ms, &sorted, page.as_slice(), toggled, default_expanded);
        proof {
            let added = group_rows(
                ((keys@[g as int].0, keys@[g as int].1@), ms@),
                sorted@,
                page@,
                toggled_view(toggled@),
                default_expanded,
            );
            let gk = (keys@[g as int].0, keys@[g as int].1@);
            let count = ms@.len();
            let open = count > 1 && is_open(toggled_view(toggled@), gk, default_expanded);
            assert(added[0].0 == sorted@[ms@[0] as int]);
            assert forall|j: int| 0 < j < added.len() implies #[trigger] added[j].0 == sorted@[ms@[j] as int] by {
                assert(open);
                let replies = Seq::new(
                    (count - 1) as nat,
                    |x: int| (sorted@[ms@[x + 1] as int], 0usize, true, false, None::<(u32, Seq<char>)>, false, None::<usize>),
                );
                assert(added[j] == replies[j - 1]);
            }
            assert(rows_view(rows_before).len() == rows_before.len());
            assert forall|i: int| 0 <= i < rows@.len() implies #[trigger] rows@[i].pos < source@.len() by {
                assert(rows_view(rows@)[i] == row_view(rows@[i]));
                if i < rows_before.len() {
                    assert(rows_view(rows_before)[i] == row_view(rows_before[i]));
                    assert(rows_view(rows@)[i] == rows_view(rows_before)[i]);
                } else {
                    let j = i - rows_before.len();
                    assert(rows_view(rows@)[i] == added[j]);
                    assert(ms@[j] < page@.len());
                }
            }
        }
        let key_string = string_of(&keys[g].1);
        conversations.push(Conversation { key: (keys[g].0, key_string), members: ms });
        assert(convs_view(conversations@) =~= old_convs.push(((keys@[g as int].0, keys@[g as int].1@), ms@)));
        assert(key_views(keys@)[g as int] == (keys@[g as int].0, keys@[g as int].1@));
        assert(rows_of(
            convs_view(conversations@),
            sorted@,
            page@,
            toggled_view(toggled@),
            default_expanded,
            g as int,
        ) == rows_of(old_convs, sorted@, page@, toggled_view(toggled@), default_expanded, g as int)) by {
            lemma_rows_of_prefix(
                convs_view(conversations@),
                old_convs,
                sorted@,
                page@,
                toggled_view(toggled@),
                default_expanded,
                g as int,
            );
        }
        g += 1;
    }
    ListPlan { total, sorted, page, threads, conversations, rows }
}

proof fn lemma_rows_of_prefix(
    a: Seq<((u32, Seq<char>), Seq<usize>)>,
    b: Seq<((u32, Seq<char>), Seq<usize>)>,
    sorted: Seq<usize>,
    page: Seq<Message>,
    toggled: Seq<(u32, Seq<char>)>,
    default_expanded: bool,
    n: int,
)
    requires
        0 <= n <= a.len(),
        n <= b.len(),
        forall|i: int| 0 <= i < n ==> a[i] == b[i],
    ensures
        rows_of(a, sorted, page, toggled, default_expanded, n) == rows_of(b, sorted, page, toggled, default_expanded, n),
    decreases n,
{
    if n > 0 {
        lemma_rows_of_prefix(a, b, sorted, page, toggled, default_expanded, n - 1);
    }
}

// ---------------------------------------------------------------------------
// The conversation a selection opens
// ---------------------------------------------------------------------------

/// The conversation key threading recorded for a message, if any.
pub open spec fn recorded_key(tv: Seq<((u32, u32), (u32, Seq<char>))>, m: Message) -> Option<(u32, Seq<char>)> {
    match last_with_key(tv, (m.account_id, m.id), tv.len() as int) {
        Some(j) => Some(tv[j].1),
        None => None,
    }
}

/// The positions among the first `n` messages recorded under key `k`.
pub open spec fn positions_with_key(
    source: Seq<Message>,
    tv: Seq<((u32, u32), (u32, Seq<char>))>,
    k: (u32, Seq<char>),
    n: int,
) -> Seq<usize>
    decreases n,
{
    if n <= 0 {
        seq![]
    } else {
        let r = positions_with_key(source, tv, k, n - 1);
        if recorded_key(tv, source[n - 1]) == Some(k) {
            r.push((n - 1) as usize)
        } else {
            r
        }
    }
}

proof fn lemma_positions_with_key(
    source: Seq<Message>,
    tv: Seq<((u32, u32), (u32, Seq<char>))>,
    k: (u32, Seq<char>),
    n: int,
)
    requires
        0 <= n <= source.len(),
        source.len() <= usize::MAX,
    ensures
        forall|i: int|
            0 <= i < positions_with_key(source, tv, k, n).len() ==> #[trigger] positions_with_key(source, tv, k, n)[i]
                < n,
        forall|i: int, j: int|
            0 <= i < j < positions_with_key(source, tv, k, n).len() ==> #[trigger] positions_with_key(
                source,
                tv,
                k,
                n,
            )[i] < #[trigger] positions_with_key(source, tv, k, n)[j],
        positions_with_key(source, tv, k, n).no_duplicates(),
    decreases n,
{
    if n > 0 {
        lemma_positions_with_key(source, tv, k, n - 1);
    }
}

/// What opening `m` shows, given the source's conversation keys: the whole
/// conversation oldest first when `m` is its head (`false`: not solo), just
/// `m` when it is a reply picked out of a conversation on screen (`true`),
/// and just `m` when it has no conversation here (`false`: the reader may
/// still look for its siblings elsewhere).
pub open spec fn opened(
    source: Seq<Message>,
    tv: Seq<((u32, u32), (u32, Seq<char>))>,
    m: Message,
    thread: Seq<Message>,
    solo: bool,
) -> bool {
    match recorded_key(tv, m) {
        None => thread == seq![m] && !solo,
        Some(k) => {
            let ms = positions_with_key(source, tv, k, source.len() as int);
            if ms.len() <= 1 {
                thread == seq![m] && !solo
            } else {
                exists|sorted: Seq<usize>|
                    #![trigger thread_sorted(source, ms, sorted)]
                    thread_sorted(source, ms, sorted) && if (source[sorted[0] as int].account_id, source[sorted[0] as int].id)
                        == (m.account_id, m.id) {
                        thread == Seq::new(sorted.len(), |i: int| source[sorted[i] as int]) && !solo
                    } else {
                        thread == seq![m] && solo
                    }
            }
        },
    }
}

fn single(m: &Message) -> (r: Vec<Message>)
    ensures
        r@ == seq![*m],
{
    let mut v: Vec<Message> = Vec::new();
    v.push(m.duplicate());
    assert(v@ =~= seq![*m]);
    v
}

/// The conversation to show for a selected message, threaded within
/// `source` (what is on screen): see [`opened`]. With threading off it is
/// just the message.
pub fn conversation_for(source: &[Message], links: &[(u32, String, String)], threading: bool, m: &Message) -> (r: (
    Vec<Message>,
    bool,
))
    ensures
        !threading ==> r.0@ == seq![*m] && !r.1,
        threading ==> exists|tv: Seq<((u32, u32), (u32, Seq<char>))>|
            #![trigger thread_keys_ok(source@, links@, tv)]
            thread_keys_ok(source@, links@, tv) && opened(source@, tv, *m, r.0@, r.1),
{
    if !threading {
        return (single(m), false);
    }
    let keys = compute_thread_keys(source, links);
    let ghost tv = keys@;
    let key = match keys.get(&(m.account_id, m.id)) {
        Some(k) => (k.0, chars_of(k.1.as_str())),
        None => {
            return (single(m), false);
        },
    };
    let ghost kk = (key.0, key.1@);
    assert(recorded_key(tv, *m) == Some(kk));
    let mut ms: Vec<usize> = Vec::new();
    let mut i: usize = 0;
    while i < source.len()
        invariant
            i <= source.len(),
            tv == keys@,
            kk == (key.0, key.1@),
            ms@ == positions_with_key(source@, tv, kk, i as int),
        decreases source.len() - i,
    {
        let hit = match keys.get(&(source[i].account_id, source[i].id)) {
            Some(k) => {
                let c = chars_of(k.1.as_str());
                k.0 == key.0 && crate::text::seq_eq(&c, &key.1)
            },
            None => false,
        };
        if hit {
            ms.push(i);
        }
        i += 1;
    }
    if ms.len() <= 1 {
        return (single(m), false);
    }
    let n = source.len();
    proof {
        lemma_positions_with_key(source@, tv, kk, source@.len() as int);
    }
    let ghost before = ms@;
    sort_conversation(source, &mut ms);
    proof {
        assert forall|j: int| 0 <= j < ms@.len() implies #[trigger] ms@[j] < source@.len() by {
            assert(ms@.contains(ms@[j]));
            assert(before.contains(ms@[j]));
        }
    }
    let head = &source[ms[0]];
    if head.account_id == m.account_id && head.id == m.id {
        let mut out: Vec<Message> = Vec::new();
        let mut j: usize = 0;
        while j < ms.len()
            invariant
                j <= ms.len(),
                forall|h: int| 0 <= h < ms@.len() ==> #[trigger] ms@[h] < source@.len(),
                out@ == Seq::new(j as nat, |h: int| source@[ms@[h] as int]),
            decreases ms.len() - j,
        {
            out.push(source[ms[j]].duplicate());
            assert(out@ =~= Seq::new((j + 1) as nat, |h: int| source@[ms@[h] as int]));
            j += 1;
        }
        assert(thread_sorted(source@, before, ms@));
        (out, false)
    } else {
        assert(thread_sorted(source@, before, ms@));
        (single(m), true)
    }
}

} // verus!

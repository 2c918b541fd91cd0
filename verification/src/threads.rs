//! Conversation threading: messages are grouped by what their reply headers
//! say they answer (Message-ID linked through References), per account.

use vstd::prelude::*;
use crate::model::Message;
use crate::text::{
    chars_of, decimal, decimal_chars, push_all, seq_eq, slice_of, split_ws, string_of, views, words,
};

verus! {

// ---------------------------------------------------------------------------
// Graphs: which nodes a list of edges links together
// ---------------------------------------------------------------------------

/// `x` and `y` are joined by one of the edges, in either direction.
pub open spec fn step<T>(es: Seq<(T, T)>, x: T, y: T) -> bool {
    exists|k: int| 0 <= k < es.len() && (es[k] == (x, y) || es[k] == (y, x))
}

/// `p` walks along the edges.
pub open spec fn is_path<T>(es: Seq<(T, T)>, p: Seq<T>) -> bool {
    p.len() >= 1 && forall|i: int| 0 <= i < p.len() - 1 ==> step(es, #[trigger] p[i], p[i + 1])
}

/// `a` and `b` are in the same connected part of the (undirected) graph.
pub open spec fn linked<T>(es: Seq<(T, T)>, a: T, b: T) -> bool {
    exists|p: Seq<T>| #[trigger] is_path(es, p) && p[0] == a && p.last() == b
}

pub proof fn lemma_linked_refl<T>(es: Seq<(T, T)>, a: T)
    ensures
        linked(es, a, a),
{
    let p = seq![a];
    assert(is_path(es, p));
}

pub proof fn lemma_linked_edge<T>(es: Seq<(T, T)>, k: int)
    requires
        0 <= k < es.len(),
    ensures
        linked(es, es[k].0, es[k].1),
{
    let p = seq![es[k].0, es[k].1];
    assert(step(es, p[0], p[1]));
    assert(is_path(es, p));
}

pub proof fn lemma_linked_sym<T>(es: Seq<(T, T)>, a: T, b: T)
    requires
        linked(es, a, b),
    ensures
        linked(es, b, a),
{
    let p = choose|p: Seq<T>| is_path(es, p) && p[0] == a && p.last() == b;
    let q = p.reverse();
    assert forall|i: int| 0 <= i < q.len() - 1 implies step(es, #[trigger] q[i], q[i + 1]) by {
        let j = p.len() - 2 - i;
        assert(step(es, p[j], p[j + 1]));
        let k = choose|k: int| 0 <= k < es.len() && (es[k] == (p[j], p[j + 1]) || es[k] == (p[j + 1], p[j]));
        assert(q[i] == p[j + 1] && q[i + 1] == p[j]);
        assert(es[k] == (q[i], q[i + 1]) || es[k] == (q[i + 1], q[i]));
    }
    assert(is_path(es, q));
}

pub proof fn lemma_linked_trans<T>(es: Seq<(T, T)>, a: T, b: T, c: T)
    requires
        linked(es, a, b),
        linked(es, b, c),
    ensures
        linked(es, a, c),
{
    let p = choose|p: Seq<T>| is_path(es, p) && p[0] == a && p.last() == b;
    let q = choose|q: Seq<T>| is_path(es, q) && q[0] == b && q.last() == c;
    let r = p + q.drop_first();
    assert forall|i: int| 0 <= i < r.len() - 1 implies step(es, #[trigger] r[i], r[i + 1]) by {
        if i < p.len() - 1 {
            assert(r[i] == p[i] && r[i + 1] == p[i + 1]);
            assert(step(es, p[i], p[i + 1]));
        } else {
            let j = i - (p.len() - 1);
            assert(r[i] == q[j]);
            assert(r[i + 1] == q[j + 1]);
            assert(step(es, q[j], q[j + 1]));
        }
    }
    assert(is_path(es, r));
}

/// Adding edges keeps what was linked linked.
pub proof fn lemma_linked_push<T>(es: Seq<(T, T)>, e: (T, T), a: T, b: T)
    requires
        linked(es, a, b),
    ensures
        linked(es.push(e), a, b),
{
    let p = choose|p: Seq<T>| is_path(es, p) && p[0] == a && p.last() == b;
    let es2 = es.push(e);
    assert forall|i: int| 0 <= i < p.len() - 1 implies step(es2, #[trigger] p[i], p[i + 1]) by {
        assert(step(es, p[i], p[i + 1]));
        let k = choose|k: int| 0 <= k < es.len() && (es[k] == (p[i], p[i + 1]) || es[k] == (p[i + 1], p[i]));
        assert(es2[k] == es[k]);
    }
    assert(is_path(es2, p));
}

/// If every edge joins two nodes with the same label, so does every path.
pub proof fn lemma_path_same_label(es: Seq<(int, int)>, lab: Seq<usize>, p: Seq<int>)
    requires
        is_path(es, p),
        forall|j: int| 0 <= j < p.len() ==> 0 <= #[trigger] p[j] < lab.len(),
        forall|k: int|
            0 <= k < es.len() ==> 0 <= (#[trigger] es[k]).0 < lab.len() && 0 <= es[k].1 < lab.len()
                && lab[es[k].0] == lab[es[k].1],
    ensures
        lab[p[0]] == lab[p.last()],
    decreases p.len(),
{
    if p.len() > 1 {
        let q = p.drop_last();
        assert forall|i: int| 0 <= i < q.len() - 1 implies step(es, #[trigger] q[i], q[i + 1]) by {
            assert(q[i] == p[i] && q[i + 1] == p[i + 1]);
            assert(step(es, p[i], p[i + 1]));
        }
        lemma_path_same_label(es, lab, q);
        let i = p.len() - 2;
        assert(step(es, p[i], p[i + 1]));
        let k = choose|k: int| 0 <= k < es.len() && (es[k] == (p[i], p[i + 1]) || es[k] == (p[i + 1], p[i]));
        assert(lab[es[k].0] == lab[es[k].1]);
    }
}

// ---------------------------------------------------------------------------
// The threading graph of a set of messages
// ---------------------------------------------------------------------------

/// The name under which a message without a Message-ID stands in the graph.
pub open spec fn uid_name(uid: u32) -> Seq<char> {
    seq!['u', 'i', 'd'] + decimal(uid as nat)
}

/// A message's own node: its Message-ID, or its UID when it has none, within
/// its account.
pub open spec fn self_node(m: Message) -> (u32, Seq<char>) {
    if m.message_id@.len() == 0 {
        (m.account_id, uid_name(m.uid))
    } else {
        (m.account_id, m.message_id@)
    }
}

/// One edge from `a` to each referenced id, within the account.
pub open spec fn ref_edges(a: (u32, Seq<char>), aid: u32, toks: Seq<Seq<char>>) -> Seq<
    ((u32, Seq<char>), (u32, Seq<char>)),
> {
    toks.map_values(|t: Seq<char>| (a, (aid, t)))
}

/// The edges that the messages' own References headers give, in order.
pub open spec fn msg_edges(ms: Seq<Message>) -> Seq<((u32, Seq<char>), (u32, Seq<char>))>
    decreases ms.len(),
{
    if ms.len() == 0 {
        seq![]
    } else {
        msg_edges(ms.drop_last()) + ref_edges(
            self_node(ms.last()),
            ms.last().account_id,
            words(ms.last().references@),
        )
    }
}

/// A link's node: its account and its Message-ID, as given.
pub open spec fn link_node(l: (u32, String, String)) -> (u32, Seq<char>) {
    (l.0, l.1@)
}

/// The edges that (account, Message-ID, References) links from other folders give.
pub open spec fn link_edges(ls: Seq<(u32, String, String)>) -> Seq<
    ((u32, Seq<char>), (u32, Seq<char>)),
>
    decreases ls.len(),
{
    if ls.len() == 0 {
        seq![]
    } else {
        link_edges(ls.drop_last()) + ref_edges(
            link_node(ls.last()),
            ls.last().0,
            words(ls.last().2@),
        )
    }
}

/// Every edge of the threading graph: the messages' own, then the links'.
pub open spec fn thread_edges(ms: Seq<Message>, ls: Seq<(u32, String, String)>) -> Seq<
    ((u32, Seq<char>), (u32, Seq<char>)),
> {
    msg_edges(ms) + link_edges(ls)
}

/// `key` names a node that the graph links with `a`.
pub open spec fn names_member(
    es: Seq<((u32, Seq<char>), (u32, Seq<char>))>,
    a: (u32, Seq<char>),
    key: Seq<char>,
) -> bool {
    exists|n: (u32, Seq<char>)| linked(es, a, n) && key == key_name(n)
}

/// The text of a conversation key naming node `n`: account, NUL, id.
pub open spec fn key_name(n: (u32, Seq<char>)) -> Seq<char> {
    decimal(n.0 as nat) + seq!['\0'] + n.1
}

// ---------------------------------------------------------------------------
// Union by relabelling
// ---------------------------------------------------------------------------

pub open spec fn nv(names: Seq<(u32, Vec<char>)>) -> Seq<(u32, Seq<char>)> {
    names.map_values(|p: (u32, Vec<char>)| (p.0, p.1@))
}

pub open spec fn emap(nodes: Seq<(u32, Seq<char>)>, ie: Seq<(int, int)>) -> Seq<
    ((u32, Seq<char>), (u32, Seq<char>)),
> {
    ie.map_values(|e: (int, int)| (nodes[e.0], nodes[e.1]))
}

/// The forest's bookkeeping: `comp[x]` labels `x`'s part of the graph `ie`.
pub open spec fn forest_inv(nodes: Seq<(u32, Seq<char>)>, comp: Seq<usize>, ie: Seq<(int, int)>) -> bool {
    &&& comp.len() == nodes.len()
    &&& forall|i: int| 0 <= i < comp.len() ==> (#[trigger] comp[i]) < comp.len()
    &&& forall|i: int, j: int|
        0 <= i < nodes.len() && 0 <= j < nodes.len() && i != j ==> #[trigger] nodes[i]
            != #[trigger] nodes[j]
    &&& forall|k: int|
        0 <= k < ie.len() ==> 0 <= (#[trigger] ie[k]).0 < nodes.len() && 0 <= ie[k].1
            < nodes.len() && nodes[ie[k].0].0 == nodes[ie[k].1].0 && comp[ie[k].0] == comp[ie[k].1]
    &&& forall|x: int| 0 <= x < comp.len() ==> linked(ie, x, #[trigger] comp[x] as int)
    &&& forall|x: int| 0 <= x < comp.len() ==> nodes[#[trigger] comp[x] as int].0 == nodes[x].0
}

/// The index of `(aid, name)` among the nodes, adding it as a part of its own
/// when it is new.
fn intern(
    names: &mut Vec<(u32, Vec<char>)>,
    comp: &mut Vec<usize>,
    aid: u32,
    name: &Vec<char>,
    Ghost(ie): Ghost<Seq<(int, int)>>,
) -> (idx: usize)
    requires
        forest_inv(nv(old(names)@), old(comp)@, ie),
    ensures
        forest_inv(nv(final(names)@), final(comp)@, ie),
        idx < final(names)@.len(),
        nv(final(names)@)[idx as int] == (aid, name@),
        nv(final(names)@) == nv(old(names)@) || nv(final(names)@) == nv(old(names)@).push(
            (aid, name@),
        ),
        final(comp)@ == old(comp)@ || final(comp)@ == old(comp)@.push(idx),
        nv(old(names)@).contains((aid, name@)) ==> nv(final(names)@) == nv(old(names)@),
{
    let mut i: usize = 0;
    while i < names.len()
        invariant
            i <= names.len(),
            names@ == old(names)@,
            comp@ == old(comp)@,
            forest_inv(nv(old(names)@), old(comp)@, ie),
            forall|j: int| 0 <= j < i ==> nv(names@)[j] != (aid, name@),
        decreases names.len() - i,
    {
        if names[i].0 == aid && seq_eq(&names[i].1, name) {
            return i;
        }
        i += 1;
    }
    let ghost before = nv(names@);
    let copy = slice_of(name, 0, name.len());
    assert(copy@ =~= name@);
    let n = names.len();
    names.push((aid, copy));
    comp.push(n);
    assert(nv(names@) =~= before.push((aid, name@)));
    proof {
        let nodes = nv(names@);
        assert forall|k: int| 0 <= k < ie.len() implies 0 <= (#[trigger] ie[k]).0 < nodes.len()
            && 0 <= ie[k].1 < nodes.len() && nodes[ie[k].0].0 == nodes[ie[k].1].0
            && comp@[ie[k].0] == comp@[ie[k].1] by {
            assert(nodes[ie[k].0] == before[ie[k].0]);
            assert(nodes[ie[k].1] == before[ie[k].1]);
        }
        assert forall|x: int| 0 <= x < comp@.len() implies linked(ie, x, #[trigger] comp@[x] as int) by {
            if x == n {
                lemma_linked_refl(ie, x);
            }
        }
        assert forall|x: int| 0 <= x < comp@.len() implies nodes[#[trigger] comp@[x] as int].0 == nodes[x].0 by {
            if x < n {
                assert(nodes[comp@[x] as int] == before[comp@[x] as int]);
            }
        }
        assert(!before.contains((aid, name@)));
    }
    n
}

/// Join the parts of `a` and `b`: every node labelled like `a` takes `b`'s label.
fn union(comp: &mut Vec<usize>, a: usize, b: usize, Ghost(nodes): Ghost<Seq<(u32, Seq<char>)>>, Ghost(ie): Ghost<Seq<(int, int)>>)
    requires
        forest_inv(nodes, old(comp)@, ie),
        a < nodes.len(),
        b < nodes.len(),
        nodes[a as int].0 == nodes[b as int].0,
    ensures
        forest_inv(nodes, final(comp)@, ie.push((a as int, b as int))),
{
    let ghost old_comp = comp@;
    let ghost ie2 = ie.push((a as int, b as int));
    let ra = comp[a];
    let rb = comp[b];
    let mut i: usize = 0;
    while i < comp.len()
        invariant
            comp@.len() == old_comp.len(),
            i <= comp@.len(),
            ra == old_comp[a as int],
            rb == old_comp[b as int],
            forall|j: int| 0 <= j < i ==> #[trigger] comp@[j] == (if old_comp[j] == ra { rb } else { old_comp[j] }),
            forall|j: int| i <= j < comp@.len() ==> #[trigger] comp@[j] == old_comp[j],
        decreases comp.len() - i,
    {
        if comp[i] == ra {
            comp.set(i, rb);
        }
        i += 1;
    }
    proof {
        let nc = comp@;
        assert forall|j: int| 0 <= j < nc.len() implies #[trigger] nc[j] == (if old_comp[j] == ra { rb } else { old_comp[j] }) by {}
        assert(linked(ie, a as int, ra as int));
        assert(linked(ie, b as int, rb as int));
        lemma_linked_sym(ie, a as int, ra as int);
        lemma_linked_push(ie, (a as int, b as int), ra as int, a as int);
        lemma_linked_push(ie, (a as int, b as int), b as int, rb as int);
        assert(ie2[ie.len() as int] == (a as int, b as int));
        lemma_linked_edge(ie2, ie.len() as int);
        lemma_linked_trans(ie2, ra as int, a as int, b as int);
        lemma_linked_trans(ie2, ra as int, b as int, rb as int);
        assert forall|k: int| 0 <= k < ie2.len() implies 0 <= (#[trigger] ie2[k]).0 < nodes.len()
            && 0 <= ie2[k].1 < nodes.len() && nodes[ie2[k].0].0 == nodes[ie2[k].1].0
            && nc[ie2[k].0] == nc[ie2[k].1] by {
            if k < ie.len() {
                assert(ie2[k] == ie[k]);
                assert(nc[ie[k].0] == (if old_comp[ie[k].0] == ra { rb } else { old_comp[ie[k].0] }));
                assert(nc[ie[k].1] == (if old_comp[ie[k].1] == ra { rb } else { old_comp[ie[k].1] }));
            } else {
                assert(nc[a as int] == rb);
                assert(nc[b as int] == (if old_comp[b as int] == ra { rb } else { old_comp[b as int] }));
            }
        }
        assert forall|x: int| 0 <= x < nc.len() implies linked(ie2, x, #[trigger] nc[x] as int) by {
            assert(linked(ie, x, old_comp[x] as int));
            lemma_linked_push(ie, (a as int, b as int), x, old_comp[x] as int);
            if old_comp[x] == ra {
                lemma_linked_trans(ie2, x, ra as int, rb as int);
            }
        }
        assert forall|x: int| 0 <= x < nc.len() implies nodes[#[trigger] nc[x] as int].0 == nodes[x].0 by {
            assert(nodes[old_comp[x] as int].0 == nodes[x].0);
            assert(nodes[old_comp[b as int] as int].0 == nodes[b as int].0);
            assert(nodes[old_comp[a as int] as int].0 == nodes[a as int].0);
        }
    }
}


// ---------------------------------------------------------------------------
// From the forest's indices to the graph's names
// ---------------------------------------------------------------------------

/// Every node on a path whose first node is in range is in range.
proof fn lemma_path_in_range(es: Seq<(int, int)>, n: int, p: Seq<int>)
    requires
        is_path(es, p),
        0 <= p[0] < n,
        forall|k: int| 0 <= k < es.len() ==> 0 <= (#[trigger] es[k]).0 < n && 0 <= es[k].1 < n,
    ensures
        forall|j: int| 0 <= j < p.len() ==> 0 <= #[trigger] p[j] < n,
{
    assert forall|j: int| 0 <= j < p.len() implies 0 <= #[trigger] p[j] < n by {
        if j > 0 {
            assert(step(es, p[j - 1], p[j]));
            let k = choose|k: int| 0 <= k < es.len() && (es[k] == (p[j - 1], p[j]) || es[k] == (p[j], p[j - 1]));
            assert(0 <= es[k].0 < n && 0 <= es[k].1 < n);
        }
    }
}

proof fn lemma_map_forward(nodes: Seq<(u32, Seq<char>)>, ie: Seq<(int, int)>, x: int, y: int)
    requires
        linked(ie, x, y),
        0 <= x < nodes.len(),
        forall|k: int|
            0 <= k < ie.len() ==> 0 <= (#[trigger] ie[k]).0 < nodes.len() && 0 <= ie[k].1 < nodes.len(),
    ensures
        linked(emap(nodes, ie), nodes[x], nodes[y]),
{
    let es = emap(nodes, ie);
    let p = choose|p: Seq<int>| #[trigger] is_path(ie, p) && p[0] == x && p.last() == y;
    lemma_path_in_range(ie, nodes.len() as int, p);
    let q = p.map_values(|i: int| nodes[i]);
    assert forall|i: int| 0 <= i < q.len() - 1 implies step(es, #[trigger] q[i], q[i + 1]) by {
        assert(step(ie, p[i], p[i + 1]));
        let k = choose|k: int| 0 <= k < ie.len() && (ie[k] == (p[i], p[i + 1]) || ie[k] == (p[i + 1], p[i]));
        assert(es[k] == (nodes[ie[k].0], nodes[ie[k].1]));
    }
    assert(is_path(es, q));
}

proof fn lemma_map_back(nodes: Seq<(u32, Seq<char>)>, ie: Seq<(int, int)>, x: int, y: int)
    requires
        linked(emap(nodes, ie), nodes[x], nodes[y]),
        0 <= x < nodes.len(),
        0 <= y < nodes.len(),
        forall|k: int|
            0 <= k < ie.len() ==> 0 <= (#[trigger] ie[k]).0 < nodes.len() && 0 <= ie[k].1 < nodes.len(),
        forall|i: int, j: int|
            0 <= i < nodes.len() && 0 <= j < nodes.len() && i != j ==> #[trigger] nodes[i]
                != #[trigger] nodes[j],
    ensures
        linked(ie, x, y),
{
    let es = emap(nodes, ie);
    let p = choose|p: Seq<(u32, Seq<char>)>| #[trigger] is_path(es, p) && p[0] == nodes[x] && p.last() == nodes[y];
    // Each name on the path is some node's name.
    assert forall|t: int| 0 <= t < p.len() implies exists|u: int| 0 <= u < nodes.len() && nodes[u] == #[trigger] p[t] by {
        if t == 0 {
            assert(nodes[x] == p[0]);
        } else {
            assert(step(es, p[t - 1], p[t]));
            let k = choose|k: int| 0 <= k < es.len() && (es[k] == (p[t - 1], p[t]) || es[k] == (p[t], p[t - 1]));
            assert(es[k] == (nodes[ie[k].0], nodes[ie[k].1]));
            if es[k] == (p[t - 1], p[t]) {
                assert(nodes[ie[k].1] == p[t]);
            } else {
                assert(nodes[ie[k].0] == p[t]);
            }
        }
    }
    let q = p.map_values(|n: (u32, Seq<char>)| choose|u: int| 0 <= u < nodes.len() && nodes[u] == n);
    assert forall|t: int| 0 <= t < q.len() implies 0 <= #[trigger] q[t] < nodes.len() && nodes[q[t]] == p[t] by {
        assert(exists|u: int| 0 <= u < nodes.len() && nodes[u] == #[trigger] p[t]);
    }
    assert(q[0] == x) by {
        assert(nodes[q[0]] == p[0]);
    }
    assert(q.last() == y) by {
        assert(nodes[q[q.len() - 1]] == p[p.len() - 1]);
    }
    assert forall|i: int| 0 <= i < q.len() - 1 implies step(ie, #[trigger] q[i], q[i + 1]) by {
        assert(step(es, p[i], p[i + 1]));
        let k = choose|k: int| 0 <= k < es.len() && (es[k] == (p[i], p[i + 1]) || es[k] == (p[i + 1], p[i]));
        assert(es[k] == (nodes[ie[k].0], nodes[ie[k].1]));
        assert(nodes[q[i]] == p[i] && nodes[q[i + 1]] == p[i + 1]);
        if es[k] == (p[i], p[i + 1]) {
            assert(nodes[ie[k].0] == nodes[q[i]]);
            assert(nodes[ie[k].1] == nodes[q[i + 1]]);
        } else {
            assert(nodes[ie[k].0] == nodes[q[i + 1]]);
            assert(nodes[ie[k].1] == nodes[q[i]]);
        }
    }
    assert(is_path(ie, q));
}

/// Two nodes carry the same label exactly when the graph links them.
proof fn lemma_forest_linked(nodes: Seq<(u32, Seq<char>)>, comp: Seq<usize>, ie: Seq<(int, int)>, x: int, y: int)
    requires
        forest_inv(nodes, comp, ie),
        0 <= x < nodes.len(),
        0 <= y < nodes.len(),
    ensures
        comp[x] == comp[y] <==> linked(emap(nodes, ie), nodes[x], nodes[y]),
{
    if comp[x] == comp[y] {
        assert(linked(ie, x, comp[x] as int));
        assert(linked(ie, y, comp[y] as int));
        lemma_linked_sym(ie, y, comp[y] as int);
        lemma_linked_trans(ie, x, comp[x] as int, y);
        lemma_map_forward(nodes, ie, x, y);
    }
    if linked(emap(nodes, ie), nodes[x], nodes[y]) {
        lemma_map_back(nodes, ie, x, y);
        let p = choose|p: Seq<int>| #[trigger] is_path(ie, p) && p[0] == x && p.last() == y;
        lemma_path_in_range(ie, nodes.len() as int, p);
        lemma_path_same_label(ie, comp, p);
    }
}

/// Equal keys come from equal labels, and only from them.
proof fn lemma_key_eq(nodes: Seq<(u32, Seq<char>)>, comp: Seq<usize>, ie: Seq<(int, int)>, x: int, y: int)
    requires
        forest_inv(nodes, comp, ie),
        0 <= x < nodes.len(),
        0 <= y < nodes.len(),
    ensures
        (nodes[x].0, key_name(nodes[comp[x] as int])) == (nodes[y].0, key_name(nodes[comp[y] as int]))
            <==> comp[x] == comp[y],
{
    let cx = comp[x] as int;
    let cy = comp[y] as int;
    assert(nodes[cx].0 == nodes[x].0);
    assert(nodes[cy].0 == nodes[y].0);
    if nodes[x].0 == nodes[y].0 && key_name(nodes[cx]) == key_name(nodes[cy]) {
        let pre = decimal(nodes[x].0 as nat) + seq!['\0'];
        assert(key_name(nodes[cx]) == pre + nodes[cx].1);
        assert(key_name(nodes[cy]) == pre + nodes[cy].1);
        assert((pre + nodes[cx].1).skip(pre.len() as int) =~= nodes[cx].1);
        assert((pre + nodes[cy].1).skip(pre.len() as int) =~= nodes[cy].1);
        assert(nodes[cx] == nodes[cy]);
    }
}

// ---------------------------------------------------------------------------
// Conversation keys
// ---------------------------------------------------------------------------

/// Each message's conversation key, in the order the messages were given.
pub struct ThreadKeys {
    entries: Vec<((u32, u32), (u32, String))>,
}

impl View for ThreadKeys {
    type V = Seq<((u32, u32), (u32, Seq<char>))>;

    closed spec fn view(&self) -> Seq<((u32, u32), (u32, Seq<char>))> {
        self.entries@.map_values(|e: ((u32, u32), (u32, String))| (e.0, (e.1.0, e.1.1@)))
    }
}

/// The last entry of `v[..n]` recorded for message key `k`.
pub open spec fn last_with_key(v: Seq<((u32, u32), (u32, Seq<char>))>, k: (u32, u32), n: int) -> Option<int>
    decreases n,
{
    if n <= 0 || n > v.len() {
        None
    } else if v[n - 1].0 == k {
        Some(n - 1)
    } else {
        last_with_key(v, k, n - 1)
    }
}

impl ThreadKeys {
    /// The conversation key recorded for `(account_id, id)`: the last one given,
    /// as a map would keep it.
    pub fn get(&self, k: &(u32, u32)) -> (r: Option<&(u32, String)>)
        ensures
            match last_with_key(self@, *k, self@.len() as int) {
                Some(i) => r matches Some(v) && (v.0, v.1@) == self@[i].1,
                None => r is None,
            },
    {
        let mut n = self.entries.len();
        while n > 0
            invariant
                n <= self.entries@.len(),
                last_with_key(self@, *k, self@.len() as int) == last_with_key(self@, *k, n as int),
            decreases n,
        {
            if self.entries[n - 1].0 .0 == k.0 && self.entries[n - 1].0 .1 == k.1 {
                return Some(&self.entries[n - 1].1);
            }
            n -= 1;
        }
        None
    }

    /// How many messages were keyed.
    pub fn len(&self) -> (r: usize)
        ensures
            r == self@.len(),
    {
        self.entries.len()
    }
}

/// The name of a message's own node.
fn self_name(m: &Message) -> (r: Vec<char>)
    ensures
        r@ == self_node(*m).1,
{
    let id = chars_of(m.message_id.as_str());
    if id.len() == 0 {
        let mut v: Vec<char> = Vec::new();
        v.push('u');
        v.push('i');
        v.push('d');
        let d = decimal_chars(m.uid);
        push_all(&mut v, &d);
        assert(v@ =~= uid_name(m.uid));
        v
    } else {
        id
    }
}

/// Group messages into conversations by their reply headers (Message-ID
/// linked through References), within each account, and give every message
/// its conversation's key.
///
/// `links` are (account, Message-ID, References) of mail in the account's
/// other folders: they contribute their edges but get no key of their own,
/// so a conversation joined only through a message that is not shown still
/// groups.
///
/// Two messages get the same key exactly when the graph of these edges links
/// their nodes; a message with no reply relationship is a conversation of one.
/// The key is the account and the text of one node of the conversation.
/// What the keys say of a message set: one entry per message, in order,
/// under the message's own key and account; each names a node of the
/// message's conversation; and two messages share a key exactly when their
/// reply headers link them, directly or through others.
pub open spec fn thread_keys_ok(
    msgs: Seq<Message>,
    links: Seq<(u32, String, String)>,
    v: Seq<((u32, u32), (u32, Seq<char>))>,
) -> bool {
    &&& v.len() == msgs.len()
    &&& forall|i: int|
        0 <= i < msgs.len() ==> (#[trigger] v[i]).0 == (msgs[i].account_id, msgs[i].id) && v[i].1.0
            == msgs[i].account_id
    &&& forall|i: int|
        0 <= i < msgs.len() ==> names_member(thread_edges(msgs, links), self_node(msgs[i]), (#[trigger] v[i]).1.1)
    &&& forall|i: int, j: int|
        0 <= i < msgs.len() && 0 <= j < msgs.len() ==> ((#[trigger] v[i]).1 == (#[trigger] v[j]).1
            <==> linked(thread_edges(msgs, links), self_node(msgs[i]), self_node(msgs[j])))
}

pub fn compute_thread_keys(msgs: &[Message], links: &[(u32, String, String)]) -> (r: ThreadKeys)
    ensures
        thread_keys_ok(msgs@, links@, r@),
        r@.len() == msgs@.len(),
        forall|i: int|
            0 <= i < msgs@.len() ==> (#[trigger] r@[i]).0 == (msgs@[i].account_id, msgs@[i].id)
                && r@[i].1.0 == msgs@[i].account_id,
        forall|i: int|
            0 <= i < msgs@.len() ==> names_member(
                thread_edges(msgs@, links@),
                self_node(msgs@[i]),
                (#[trigger] r@[i]).1.1,
            ),
        forall|i: int, j: int|
            0 <= i < msgs@.len() && 0 <= j < msgs@.len() ==> ((#[trigger] r@[i]).1 == (#[trigger] r@[j]).1
                <==> linked(thread_edges(msgs@, links@), self_node(msgs@[i]), self_node(msgs@[j]))),
{
    let mut names: Vec<(u32, Vec<char>)> = Vec::new();
    let mut comp: Vec<usize> = Vec::new();
    let ghost mut ie: Seq<(int, int)> = Seq::empty();
    assert(emap(nv(names@), ie) =~= msg_edges(msgs@.take(0)));
    let mut mi: usize = 0;
    while mi < msgs.len()
        invariant
            mi <= msgs@.len(),
            forest_inv(nv(names@), comp@, ie),
            emap(nv(names@), ie) == msg_edges(msgs@.take(mi as int)),
            forall|t: int| 0 <= t < mi ==> nv(names@).contains(self_node(#[trigger] msgs@[t])),
        decreases msgs@.len() - mi,
    {
        let m = &msgs[mi];
        let sname = self_name(m);
        let ghost n0 = nv(names@);
        let su = intern(&mut names, &mut comp, m.account_id, &sname, Ghost(ie));
        proof {
            assert(emap(nv(names@), ie) =~= emap(n0, ie));
            assert forall|t: int| 0 <= t < mi implies nv(names@).contains(self_node(#[trigger] msgs@[t])) by {
                let u = choose|u: int| 0 <= u < n0.len() && n0[u] == self_node(msgs@[t]);
                assert(nv(names@)[u] == n0[u]);
            }
        }
        let refs = chars_of(m.references.as_str());
        let toks = split_ws(&refs);
        let ghost base = msg_edges(msgs@.take(mi as int));
        assert(ref_edges(self_node(*m), m.account_id, views(toks@).take(0)) =~= seq![]);
        assert(base + seq![] =~= base);
        let mut k: usize = 0;
        while k < toks.len()
            invariant
                m == &msgs@[mi as int],
                mi < msgs@.len(),
                k <= toks@.len(),
                forest_inv(nv(names@), comp@, ie),
                su < names@.len(),
                nv(names@)[su as int] == self_node(*m),
                emap(nv(names@), ie) == base + ref_edges(self_node(*m), m.account_id, views(toks@).take(k as int)),
                forall|t: int| 0 <= t <= mi ==> nv(names@).contains(self_node(#[trigger] msgs@[t])),
            decreases toks@.len() - k,
        {
            let ghost n1 = nv(names@);
            let ru = intern(&mut names, &mut comp, m.account_id, &toks[k], Ghost(ie));
            proof {
                assert(emap(nv(names@), ie) =~= emap(n1, ie));
                assert(nv(names@)[su as int] == n1[su as int]);
                assert forall|t: int| 0 <= t <= mi implies nv(names@).contains(self_node(#[trigger] msgs@[t])) by {
                    let u = choose|u: int| 0 <= u < n1.len() && n1[u] == self_node(msgs@[t]);
                    assert(nv(names@)[u] == n1[u]);
                }
            }
            union(&mut comp, su, ru, Ghost(nv(names@)), Ghost(ie));
            proof {
                let old_ie = ie;
                ie = ie.push((su as int, ru as int));
                let toksv = views(toks@);
                assert(toksv[k as int] == toks@[k as int]@);
                assert(toksv.take(k + 1 as int) =~= toksv.take(k as int).push(toksv[k as int]));
                assert(emap(nv(names@), ie) =~= emap(nv(names@), old_ie).push((nv(names@)[su as int], nv(names@)[ru as int])));
                assert(ref_edges(self_node(*m), m.account_id, toksv.take(k + 1 as int)) =~=
                    ref_edges(self_node(*m), m.account_id, toksv.take(k as int)).push((self_node(*m), (m.account_id, toksv[k as int]))));
            }
            k += 1;
        }
        proof {
            assert(views(toks@).take(toks@.len() as int) =~= views(toks@));
            assert(msgs@.take(mi + 1 as int).drop_last() =~= msgs@.take(mi as int));
            assert(msgs@.take(mi + 1 as int).last() == msgs@[mi as int]);
        }
        mi += 1;
    }
    assert(msgs@.take(msgs@.len() as int) =~= msgs@);
    let ghost mbase = msg_edges(msgs@);
    assert(link_edges(links@.take(0)) =~= seq![]);
    assert(mbase + seq![] =~= mbase);
    let mut li: usize = 0;
    while li < links.len()
        invariant
            li <= links@.len(),
            forest_inv(nv(names@), comp@, ie),
            emap(nv(names@), ie) == mbase + link_edges(links@.take(li as int)),
            mbase == msg_edges(msgs@),
            forall|t: int| 0 <= t < msgs@.len() ==> nv(names@).contains(self_node(#[trigger] msgs@[t])),
        decreases links@.len() - li,
    {
        let l = &links[li];
        let lname = chars_of(l.1.as_str());
        let ghost n0 = nv(names@);
        let su = intern(&mut names, &mut comp, l.0, &lname, Ghost(ie));
        proof {
            assert(emap(nv(names@), ie) =~= emap(n0, ie));
            assert forall|t: int| 0 <= t < msgs@.len() implies nv(names@).contains(self_node(#[trigger] msgs@[t])) by {
                let u = choose|u: int| 0 <= u < n0.len() && n0[u] == self_node(msgs@[t]);
                assert(nv(names@)[u] == n0[u]);
            }
        }
        let refs = chars_of(l.2.as_str());
        let toks = split_ws(&refs);
        let ghost base = mbase + link_edges(links@.take(li as int));
        assert(ref_edges(link_node(*l), l.0, views(toks@).take(0)) =~= seq![]);
        assert(base + seq![] =~= base);
        let mut k: usize = 0;
        while k < toks.len()
            invariant
                l == &links@[li as int],
                li < links@.len(),
                k <= toks@.len(),
                forest_inv(nv(names@), comp@, ie),
                su < names@.len(),
                nv(names@)[su as int] == link_node(*l),
                emap(nv(names@), ie) == base + ref_edges(link_node(*l), l.0, views(toks@).take(k as int)),
                forall|t: int| 0 <= t < msgs@.len() ==> nv(names@).contains(self_node(#[trigger] msgs@[t])),
            decreases toks@.len() - k,
        {
            let ghost n1 = nv(names@);
            let ru = intern(&mut names, &mut comp, l.0, &toks[k], Ghost(ie));
            proof {
                assert(emap(nv(names@), ie) =~= emap(n1, ie));
                assert(nv(names@)[su as int] == n1[su as int]);
                assert forall|t: int| 0 <= t < msgs@.len() implies nv(names@).contains(self_node(#[trigger] msgs@[t])) by {
                    let u = choose|u: int| 0 <= u < n1.len() && n1[u] == self_node(msgs@[t]);
                    assert(nv(names@)[u] == n1[u]);
                }
            }
            union(&mut comp, su, ru, Ghost(nv(names@)), Ghost(ie));
            proof {
                let old_ie = ie;
                ie = ie.push((su as int, ru as int));
                let toksv = views(toks@);
                assert(toksv[k as int] == toks@[k as int]@);
                assert(toksv.take(k + 1 as int) =~= toksv.take(k as int).push(toksv[k as int]));
                assert(emap(nv(names@), ie) =~= emap(nv(names@), old_ie).push((nv(names@)[su as int], nv(names@)[ru as int])));
                assert(ref_edges(link_node(*l), l.0, toksv.take(k + 1 as int)) =~=
                    ref_edges(link_node(*l), l.0, toksv.take(k as int)).push((link_node(*l), (l.0, toksv[k as int]))));
            }
            k += 1;
        }
        proof {
            assert(views(toks@).take(toks@.len() as int) =~= views(toks@));
            assert(links@.take(li + 1 as int).drop_last() =~= links@.take(li as int));
            assert(links@.take(li + 1 as int).last() == links@[li as int]);
            assert(link_edges(links@.take(li + 1 as int)) == link_edges(links@.take(li as int))
                + ref_edges(link_node(*l), l.0, words(l.2@)));
            assert(mbase + link_edges(links@.take(li + 1 as int)) =~= base + ref_edges(link_node(*l), l.0, words(l.2@)));
        }
        li += 1;
    }
    assert(links@.take(links@.len() as int) =~= links@);
    let ghost nodes = nv(names@);
    let ghost fcomp = comp@;
    assert(emap(nodes, ie) == thread_edges(msgs@, links@));
    // One key per message, from its node's label.
    let mut entries: Vec<((u32, u32), (u32, String))> = Vec::new();
    let ghost mut us: Seq<int> = Seq::empty();
    let mut i: usize = 0;
    while i < msgs.len()
        invariant
            i <= msgs@.len(),
            nv(names@) == nodes,
            comp@ == fcomp,
            forest_inv(nodes, fcomp, ie),
            forall|t: int| 0 <= t < msgs@.len() ==> nodes.contains(self_node(#[trigger] msgs@[t])),
            entries@.len() == i,
            us.len() == i,
            forall|t: int| 0 <= t < i ==> 0 <= #[trigger] us[t] < nodes.len() && nodes[us[t]] == self_node(msgs@[t])
                && entries@[t].0 == (msgs@[t].account_id, msgs@[t].id)
                && entries@[t].1.0 == msgs@[t].account_id
                && entries@[t].1.1@ == key_name(nodes[fcomp[us[t]] as int]),
        decreases msgs@.len() - i,
    {
        let m = &msgs[i];
        let sname = self_name(m);
        let u = intern(&mut names, &mut comp, m.account_id, &sname, Ghost(ie));
        let root = comp[u];
        let mut key = decimal_chars(m.account_id);
        key.push('\0');
        push_all(&mut key, &names[root].1);
        proof {
            assert(nodes[root as int].0 == nodes[u as int].0);
            assert(key@ =~= key_name(nodes[root as int]));
        }
        let ks = string_of(&key);
        entries.push(((m.account_id, m.id), (m.account_id, ks)));
        proof {
            us = us.push(u as int);
        }
        i += 1;
    }
    let r = ThreadKeys { entries };
    proof {
        assert forall|i: int| 0 <= i < msgs@.len() implies #[trigger] r@[i] == (r.entries@[i].0, (r.entries@[i].1.0, r.entries@[i].1.1@)) by {}
        assert forall|i: int| 0 <= i < msgs@.len() implies (#[trigger] r@[i]).0 == (msgs@[i].account_id, msgs@[i].id)
            && r@[i].1.0 == msgs@[i].account_id by {
            assert(0 <= us[i] < nodes.len());
            assert(r@[i] == (r.entries@[i].0, (r.entries@[i].1.0, r.entries@[i].1.1@)));
        }
        assert forall|i: int| 0 <= i < msgs@.len() implies names_member(thread_edges(msgs@, links@), self_node(msgs@[i]), (#[trigger] r@[i]).1.1) by {
            let u = us[i];
            assert(0 <= us[i] < nodes.len());
            assert(r.entries@[i].1.1@ == key_name(nodes[fcomp[us[i]] as int]));
            let c = fcomp[u] as int;
            assert(linked(ie, u, c));
            lemma_map_forward(nodes, ie, u, c);
            assert(r@[i] == (r.entries@[i].0, (r.entries@[i].1.0, r.entries@[i].1.1@)));
            assert(linked(thread_edges(msgs@, links@), self_node(msgs@[i]), nodes[c]) && r@[i].1.1 == key_name(nodes[c]));
        }
        assert forall|i: int, j: int| 0 <= i < msgs@.len() && 0 <= j < msgs@.len() implies ((#[trigger] r@[i]).1 == (#[trigger] r@[j]).1
            <==> linked(thread_edges(msgs@, links@), self_node(msgs@[i]), self_node(msgs@[j]))) by {
            let x = us[i];
            let y = us[j];
            assert(0 <= us[i] < nodes.len());
            assert(0 <= us[j] < nodes.len());
            lemma_key_eq(nodes, fcomp, ie, x, y);
            lemma_forest_linked(nodes, fcomp, ie, x, y);
            assert(nodes[x].0 == msgs@[i].account_id);
            assert(nodes[y].0 == msgs@[j].account_id);
            assert(r@[i] == (r.entries@[i].0, (r.entries@[i].1.0, r.entries@[i].1.1@)));
            assert(r@[j] == (r.entries@[j].0, (r.entries@[j].1.0, r.entries@[j].1.1@)));
        }
    }
    r
}

} // verus!

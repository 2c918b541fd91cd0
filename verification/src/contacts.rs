//! The contacts page's rules: what a search finds, how the list is ordered,
//! which contact stays selected, and the lines of a contact's card.

use vstd::prelude::*;
use crate::order::{compare_text, compare_text_exec, lemma_compare_text};
use crate::sorting::{sort_positions, Ranking};
use crate::text::{
    chars_of, contains, contains_exec, decimal, decimal_usize, join, join_exec, push_all, push_str,
    rfind_char, rfind_char_exec, seq_eq, slice_of, string_of, to_lowercase, unicode_lower, views,
};
use crate::gallery::lemma_rfind_char;

verus! {

/// How the contact list is ordered.
#[derive(Debug, Clone, Copy, PartialEq, Eq, Structural)]
pub enum ContactSort {
    FirstName,
    LastName,
    Email,
}

/// A contact as the page reads it.
pub struct Contact {
    pub name: String,
    pub nickname: String,
    pub title: String,
    pub org: String,
    pub emails: Vec<String>,
    pub phones: Vec<String>,
    /// The address the contact is written to by default, when it has one.
    pub primary: Option<String>,
}

pub open spec fn any_contains(v: Seq<String>, q: Seq<char>) -> bool {
    exists|i: int| 0 <= i < v.len() && contains(unicode_lower(#[trigger] v[i]@), q)
}

/// A contact matches a (lower-cased) query that is empty or sits in its
/// lower-cased name, nickname, organisation, an address or a phone number.
pub open spec fn contact_matches(c: Contact, q: Seq<char>) -> bool {
    q.len() == 0 || contains(unicode_lower(c.name@), q) || contains(unicode_lower(c.nickname@), q) || contains(
        unicode_lower(c.org@),
        q,
    ) || any_contains(c.emails@, q) || any_contains(c.phones@, q)
}

fn any_contains_exec(v: &Vec<String>, q: &Vec<char>) -> (r: bool)
    ensures
        r == any_contains(v@, q@),
{
    let mut i: usize = 0;
    while i < v.len()
        invariant
            i <= v.len(),
            forall|j: int| 0 <= j < i ==> !contains(unicode_lower(#[trigger] v@[j]@), q@),
        decreases v.len() - i,
    {
        let l = to_lowercase(v[i].as_str());
        if contains_exec(&chars_of(l.as_str()), q) {
            return true;
        }
        i += 1;
    }
    false
}

pub fn matches(c: &Contact, query: &str) -> (r: bool)
    ensures
        r == contact_matches(*c, query@),
{
    let q = chars_of(query);
    if q.len() == 0 {
        return true;
    }
    contains_exec(&chars_of(to_lowercase(c.name.as_str()).as_str()), &q) || contains_exec(
        &chars_of(to_lowercase(c.nickname.as_str()).as_str()),
        &q,
    ) || contains_exec(&chars_of(to_lowercase(c.org.as_str()).as_str()), &q) || any_contains_exec(&c.emails, &q)
        || any_contains_exec(&c.phones, &q)
}

/// What the list sorts a contact by: the lower-cased name; for surnames its
/// last word, a space and the name; for addresses the lower-cased primary
/// address, or the name without one.
pub open spec fn sort_key(c: Contact, sort: ContactSort) -> Seq<char> {
    let name = unicode_lower(c.name@);
    match sort {
        ContactSort::FirstName => name,
        ContactSort::LastName => {
            let last = match rfind_char(name, ' ', name.len() as int) {
                Some(i) => name.subrange(i + 1, name.len() as int),
                None => name,
            };
            last + " "@ + name
        },
        ContactSort::Email => match c.primary {
            Some(e) => unicode_lower(e@),
            None => name,
        },
    }
}

fn sort_key_exec(c: &Contact, sort: ContactSort) -> (r: Vec<char>)
    ensures
        r@ == sort_key(*c, sort),
{
    let name = chars_of(to_lowercase(c.name.as_str()).as_str());
    match sort {
        ContactSort::FirstName => name,
        ContactSort::LastName => {
            proof {
                lemma_rfind_char(name@, ' ', name@.len() as int);
            }
            let mut out = match rfind_char_exec(&name, ' ') {
                Some(i) => {
                    assert(i < name.len());
                    slice_of(&name, i + 1, name.len())
                },
                None => slice_of(&name, 0, name.len()),
            };
            assert(name@.subrange(0, name@.len() as int) =~= name@);
            push_str(&mut out, " ");
            push_all(&mut out, &name);
            out
        },
        ContactSort::Email => match &c.primary {
            Some(e) => chars_of(to_lowercase(e.as_str()).as_str()),
            None => name,
        },
    }
}

/// The contact list's order over computed keys.
pub struct ContactRanking {
    pub keys: Vec<Vec<char>>,
}

impl Ranking for ContactRanking {
    open spec fn len_spec(&self) -> nat {
        self.keys@.len()
    }

    open spec fn rank(&self, a: usize, b: usize) -> int {
        compare_text(self.keys@[a as int]@, self.keys@[b as int]@)
    }

    proof fn lemma_total(&self, a: usize, b: usize, c: usize) {
        lemma_compare_text(self.keys@[a as int]@, self.keys@[b as int]@, self.keys@[c as int]@);
    }

    fn compare_at(&self, a: usize, b: usize) -> (r: i8) {
        compare_text_exec(&self.keys[a], &self.keys[b])
    }
}

/// The positions among the first `n` contacts that match.
pub open spec fn matching_contacts(cs: Seq<Contact>, q: Seq<char>, n: int) -> Seq<usize>
    decreases n,
{
    if n <= 0 {
        seq![]
    } else {
        let r = matching_contacts(cs, q, n - 1);
        if contact_matches(cs[n - 1], q) {
            r.push((n - 1) as usize)
        } else {
            r
        }
    }
}

proof fn lemma_matching_contacts(cs: Seq<Contact>, q: Seq<char>, n: int)
    requires
        0 <= n <= cs.len(),
        cs.len() <= usize::MAX,
    ensures
        forall|i: int| 0 <= i < matching_contacts(cs, q, n).len() ==> #[trigger] matching_contacts(cs, q, n)[i] < n,
        forall|i: int, j: int|
            0 <= i < j < matching_contacts(cs, q, n).len() ==> #[trigger] matching_contacts(cs, q, n)[i]
                < #[trigger] matching_contacts(cs, q, n)[j],
        matching_contacts(cs, q, n).no_duplicates(),
    decreases n,
{
    if n > 0 {
        lemma_matching_contacts(cs, q, n - 1);
    }
}

proof fn lemma_matching_contacts_contains(cs: Seq<Contact>, q: Seq<char>, n: int, i: int)
    requires
        0 <= n <= cs.len(),
        cs.len() <= usize::MAX,
        0 <= i < cs.len(),
    ensures
        matching_contacts(cs, q, n).contains(i as usize) <==> (i < n && contact_matches(cs[i], q)),
    decreases n,
{
    if n > 0 {
        lemma_matching_contacts_contains(cs, q, n - 1, i);
        lemma_matching_contacts(cs, q, n - 1);
        let rest = matching_contacts(cs, q, n - 1);
        if contact_matches(cs[n - 1], q) {
            assert(rest.push((n - 1) as usize)[rest.len() as int] == (n - 1) as usize);
            if rest.push((n - 1) as usize).contains(i as usize) {
                let k = choose|k: int| 0 <= k < rest.len() + 1 && #[trigger] rest.push((n - 1) as usize)[k] == i as usize;
                if k < rest.len() {
                    assert(rest[k] == i as usize);
                }
            }
            if rest.contains(i as usize) {
                let k = choose|k: int| 0 <= k < rest.len() && #[trigger] rest[k] == i as usize;
                assert(rest.push((n - 1) as usize)[k] == i as usize);
            }
        }
    }
}

/// The contacts list shows a contact exactly when the query is empty or sits
/// in its lower-cased name, nickname or organisation, or in one of its
/// addresses or phone numbers, lower-cased; whatever the order chosen.
pub proof fn law_contact_search_fields(cs: Seq<Contact>, query: Seq<char>, sort: ContactSort, rows: Seq<usize>, i: int)
    requires
        cs.len() <= usize::MAX,
        contacts_sorted(cs, sort, matching_contacts(cs, query, cs.len() as int), rows),
        0 <= i < cs.len(),
    ensures
        rows.contains(i as usize) <==> (query.len() == 0 || contains(unicode_lower(cs[i].name@), query) || contains(
            unicode_lower(cs[i].nickname@),
            query,
        ) || contains(unicode_lower(cs[i].org@), query) || (exists|k: int|
            0 <= k < cs[i].emails@.len() && contains(unicode_lower(#[trigger] cs[i].emails@[k]@), query))
            || (exists|k: int| 0 <= k < cs[i].phones@.len() && contains(unicode_lower(#[trigger] cs[i].phones@[k]@), query))),
{
    lemma_matching_contacts_contains(cs, query, cs.len() as int, i);
}

/// `after` is `before` stably sorted by the contacts' keys.
pub open spec fn contacts_sorted(cs: Seq<Contact>, sort: ContactSort, before: Seq<usize>, after: Seq<usize>) -> bool {
    &&& crate::sorting::same_positions(before, after)
    &&& forall|i: int, j: int|
        0 <= i < j < after.len() ==> compare_text(
            sort_key(cs[#[trigger] after[i] as int], sort),
            sort_key(cs[#[trigger] after[j] as int], sort),
        ) <= 0
    &&& forall|i: int, j: int|
        0 <= i < j < after.len() && compare_text(
            sort_key(cs[#[trigger] after[i] as int], sort),
            sort_key(cs[#[trigger] after[j] as int], sort),
        ) == 0 ==> before.index_of(after[i]) < before.index_of(after[j])
}

/// The list's rows: the positions of the contacts matching the
/// (lower-cased) query, stably sorted by the chosen key.
pub fn contact_rows(cs: &[Contact], query: &str, sort: ContactSort) -> (r: Vec<usize>)
    ensures
        contacts_sorted(cs@, sort, matching_contacts(cs@, query@, cs@.len() as int), r@),
{
    let mut keys: Vec<Vec<char>> = Vec::new();
    let mut rows: Vec<usize> = Vec::new();
    let mut i: usize = 0;
    while i < cs.len()
        invariant
            i <= cs.len(),
            keys@.len() == i,
            forall|k: int| 0 <= k < i ==> (#[trigger] keys@[k])@ == sort_key(cs@[k], sort),
            rows@ == matching_contacts(cs@, query@, i as int),
        decreases cs.len() - i,
    {
        keys.push(sort_key_exec(&cs[i], sort));
        if matches(&cs[i], query) {
            rows.push(i);
        }
        i += 1;
    }
    let n = cs.len();
    proof {
        lemma_matching_contacts(cs@, query@, cs@.len() as int);
    }
    let ghost before = rows@;
    let ctx = ContactRanking { keys };
    sort_positions(&mut rows, &ctx);
    proof {
        assert forall|i: int, j: int| 0 <= i < j < rows@.len() implies compare_text(
            sort_key(cs@[#[trigger] rows@[i] as int], sort),
            sort_key(cs@[#[trigger] rows@[j] as int], sort),
        ) <= 0 by {
            assert(ctx.rank(rows@[i], rows@[j]) <= 0);
            assert(before.contains(rows@[i]));
            assert(before.contains(rows@[j]));
        }
        assert forall|i: int, j: int|
            0 <= i < j < rows@.len() && compare_text(
                sort_key(cs@[#[trigger] rows@[i] as int], sort),
                sort_key(cs@[#[trigger] rows@[j] as int], sort),
            ) == 0 implies before.index_of(rows@[i]) < before.index_of(rows@[j]) by {
            assert(before.contains(rows@[i]));
            assert(before.contains(rows@[j]));
            assert(ctx.rank(rows@[i], rows@[j]) == 0);
        }
    }
    rows
}

/// A contact as the contacts browser lists it: a name and an address.
pub struct PickContact {
    pub name: String,
    pub email: String,
}

/// A contact the browser shows for a query: none typed, or the (lower-cased)
/// query in its lower-cased name or address.
pub open spec fn pick_matches(c: PickContact, q: Seq<char>) -> bool {
    q.len() == 0 || contains(unicode_lower(c.name@), q) || contains(unicode_lower(c.email@), q)
}

/// The positions among the first `n` contacts the browser shows.
pub open spec fn picked(cs: Seq<PickContact>, q: Seq<char>, n: int) -> Seq<usize>
    decreases n,
{
    if n <= 0 {
        seq![]
    } else {
        let r = picked(cs, q, n - 1);
        if pick_matches(cs[n - 1], q) {
            r.push((n - 1) as usize)
        } else {
            r
        }
    }
}

proof fn lemma_picked(cs: Seq<PickContact>, q: Seq<char>, n: int)
    requires
        0 <= n <= cs.len(),
        cs.len() <= usize::MAX,
    ensures
        forall|i: int| 0 <= i < picked(cs, q, n).len() ==> #[trigger] picked(cs, q, n)[i] < n,
        forall|i: int, j: int|
            0 <= i < j < picked(cs, q, n).len() ==> #[trigger] picked(cs, q, n)[i] < #[trigger] picked(cs, q, n)[j],
        picked(cs, q, n).no_duplicates(),
    decreases n,
{
    if n > 0 {
        lemma_picked(cs, q, n - 1);
    }
}

proof fn lemma_picked_contains(cs: Seq<PickContact>, q: Seq<char>, n: int, i: int)
    requires
        0 <= n <= cs.len(),
        cs.len() <= usize::MAX,
        0 <= i < cs.len(),
    ensures
        picked(cs, q, n).contains(i as usize) <==> (i < n && pick_matches(cs[i], q)),
    decreases n,
{
    if n > 0 {
        lemma_picked_contains(cs, q, n - 1, i);
        lemma_picked(cs, q, n - 1);
        let rest = picked(cs, q, n - 1);
        if pick_matches(cs[n - 1], q) {
            assert(rest.push((n - 1) as usize)[rest.len() as int] == (n - 1) as usize);
            if rest.push((n - 1) as usize).contains(i as usize) {
                let k = choose|k: int| 0 <= k < rest.len() + 1 && #[trigger] rest.push((n - 1) as usize)[k] == i as usize;
                if k < rest.len() {
                    assert(rest[k] == i as usize);
                }
            }
            if rest.contains(i as usize) {
                let k = choose|k: int| 0 <= k < rest.len() && #[trigger] rest[k] == i as usize;
                assert(rest.push((n - 1) as usize)[k] == i as usize);
            }
        }
    }
}

/// The contacts browser shows a contact exactly when nothing is typed or the
/// lower-cased query sits in its lower-cased name or address.
pub proof fn law_browser_search_fields(cs: Seq<PickContact>, query: Seq<char>, rows: Seq<usize>, i: int)
    requires
        cs.len() <= usize::MAX,
        crate::sorting::same_positions(picked(cs, unicode_lower(query), cs.len() as int), rows),
        0 <= i < cs.len(),
    ensures
        rows.contains(i as usize) <==> (unicode_lower(query).len() == 0 || contains(
            unicode_lower(cs[i].name@),
            unicode_lower(query),
        ) || contains(unicode_lower(cs[i].email@), unicode_lower(query))),
{
    lemma_picked_contains(cs, unicode_lower(query), cs.len() as int, i);
}

/// The browser's rows for a query typed in the search field: the positions
/// of the contacts it shows, ordered by lower-cased name, ties in their
/// order.
pub fn browser_rows(cs: &[PickContact], query: &str) -> (r: Vec<usize>)
    ensures
        ({
            let q = unicode_lower(query@);
            let before = picked(cs@, q, cs@.len() as int);
            &&& crate::sorting::same_positions(before, r@)
            &&& forall|i: int, j: int|
                0 <= i < j < r@.len() ==> compare_text(
                    unicode_lower(cs@[#[trigger] r@[i] as int].name@),
                    unicode_lower(cs@[#[trigger] r@[j] as int].name@),
                ) <= 0
            &&& forall|i: int, j: int|
                0 <= i < j < r@.len() && compare_text(
                    unicode_lower(cs@[#[trigger] r@[i] as int].name@),
                    unicode_lower(cs@[#[trigger] r@[j] as int].name@),
                ) == 0 ==> before.index_of(r@[i]) < before.index_of(r@[j])
        }),
{
    let ql = to_lowercase(query);
    let q = chars_of(ql.as_str());
    let mut keys: Vec<Vec<char>> = Vec::new();
    let mut rows: Vec<usize> = Vec::new();
    let mut i: usize = 0;
    while i < cs.len()
        invariant
            i <= cs.len(),
            q@ == unicode_lower(query@),
            keys@.len() == i,
            forall|k: int| 0 <= k < i ==> (#[trigger] keys@[k])@ == unicode_lower(cs@[k].name@),
            rows@ == picked(cs@, q@, i as int),
        decreases cs.len() - i,
    {
        let name = chars_of(to_lowercase(cs[i].name.as_str()).as_str());
        let shown = q.len() == 0 || contains_exec(&name, &q) || contains_exec(
            &chars_of(to_lowercase(cs[i].email.as_str()).as_str()),
            &q,
        );
        keys.push(name);
        if shown {
            rows.push(i);
        }
        i += 1;
    }
    let n = cs.len();
    proof {
        lemma_picked(cs@, q@, cs@.len() as int);
    }
    let ghost before = rows@;
    let ctx = ContactRanking { keys };
    sort_positions(&mut rows, &ctx);
    proof {
        assert forall|i: int, j: int| 0 <= i < j < rows@.len() implies compare_text(
            unicode_lower(cs@[#[trigger] rows@[i] as int].name@),
            unicode_lower(cs@[#[trigger] rows@[j] as int].name@),
        ) <= 0 by {
            assert(ctx.rank(rows@[i], rows@[j]) <= 0);
            assert(before.contains(rows@[i]));
            assert(before.contains(rows@[j]));
        }
        assert forall|i: int, j: int|
            0 <= i < j < rows@.len() && compare_text(
                unicode_lower(cs@[#[trigger] rows@[i] as int].name@),
                unicode_lower(cs@[#[trigger] rows@[j] as int].name@),
            ) == 0 implies before.index_of(rows@[i]) < before.index_of(rows@[j]) by {
            assert(before.contains(rows@[i]));
            assert(before.contains(rows@[j]));
            assert(ctx.rank(rows@[i], rows@[j]) == 0);
        }
    }
    rows
}

/// The list's count: every contact when nothing is searched, else "N of M".
pub fn contacts_count(searching: bool, shown: usize, total: usize) -> (r: String)
    ensures
        r@ == (if !searching {
            decimal(total as nat)
        } else {
            decimal(shown as nat) + " of "@ + decimal(total as nat)
        }),
{
    let mut out: Vec<char> = Vec::new();
    if !searching {
        let t = decimal_usize(total);
        push_all(&mut out, &t);
    } else {
        let s = decimal_usize(shown);
        push_all(&mut out, &s);
        push_str(&mut out, " of ");
        let t = decimal_usize(total);
        push_all(&mut out, &t);
    }
    string_of(&out)
}

/// Which row is selected after a rebuild: the selected contact where it is
/// still listed, else the first row, else none.
pub fn selected_row(rows: &Vec<usize>, selected: Option<usize>) -> (r: Option<usize>)
    ensures
        match r {
            Some(p) => p < rows@.len() && (match selected {
                Some(s) => (rows@[p as int] == s && forall|k: int| 0 <= k < p ==> rows@[k] != s) || (p == 0
                    && !rows@.contains(s)),
                None => p == 0,
            }),
            None => rows@.len() == 0,
        },
{
    match selected {
        Some(s) => {
            let mut i: usize = 0;
            while i < rows.len()
                invariant
                    i <= rows.len(),
                    selected == Some(s),
                    forall|k: int| 0 <= k < i ==> rows@[k] != s,
                decreases rows.len() - i,
            {
                if rows[i] == s {
                    return Some(i);
                }
                i += 1;
            }
        },
        None => {},
    }
    if rows.len() > 0 {
        Some(0)
    } else {
        None
    }
}

/// The line under a contact's name: the nickname in quotes when it differs
/// from the name, and the job title and organisation, joined by a dash.
pub open spec fn byline_parts(c: Contact) -> Seq<Seq<char>> {
    let nick = if c.nickname@.len() > 0 && c.nickname@ != c.name@ {
        seq!["“"@ + c.nickname@ + "”"@]
    } else {
        seq![]
    };
    let work = if c.title@.len() > 0 && c.org@.len() > 0 {
        seq![c.title@ + " · "@ + c.org@]
    } else if c.title@.len() > 0 {
        seq![c.title@]
    } else if c.org@.len() > 0 {
        seq![c.org@]
    } else {
        seq![]
    };
    nick + work
}

pub fn byline(c: &Contact) -> (r: String)
    ensures
        r@ == join(byline_parts(*c), "  —  "@),
{
    let name = chars_of(c.name.as_str());
    let nick = chars_of(c.nickname.as_str());
    let title = chars_of(c.title.as_str());
    let org = chars_of(c.org.as_str());
    let mut parts: Vec<Vec<char>> = Vec::new();
    if nick.len() > 0 && !seq_eq(&nick, &name) {
        let mut q: Vec<char> = Vec::new();
        push_str(&mut q, "“");
        push_all(&mut q, &nick);
        push_str(&mut q, "”");
        parts.push(q);
    }
    if title.len() > 0 && org.len() > 0 {
        let mut w = slice_of(&title, 0, title.len());
        push_str(&mut w, " · ");
        push_all(&mut w, &org);
        assert(title@.subrange(0, title@.len() as int) =~= title@);
        parts.push(w);
    } else if title.len() > 0 {
        parts.push(title);
    } else if org.len() > 0 {
        parts.push(org);
    }
    assert(views(parts@) =~= byline_parts(*c));
    let j = join_exec(&parts, "  —  ");
    string_of(&j)
}

/// A web address from a card, with a scheme: bare `example.org` links are
/// common in vCards.
pub fn full_url(url: &str) -> (r: String)
    ensures
        r@ == (if contains(url@, "://"@) {
            url@
        } else {
            "https://"@ + url@
        }),
{
    let u = chars_of(url);
    if contains_exec(&u, &chars_of("://")) {
        string_of(&u)
    } else {
        let mut out: Vec<char> = Vec::new();
        push_str(&mut out, "https://");
        push_all(&mut out, &u);
        string_of(&out)
    }
}

/// The row's subtitle: the primary address, unless it just repeats the name.
pub fn row_subtitle(c: &Contact) -> (r: Option<String>)
    ensures
        match r {
            Some(s) => c.primary matches Some(e) && s@ == e@ && e@ != c.name@,
            None => match c.primary {
                Some(e) => e@ == c.name@,
                None => true,
            },
        },
{
    match &c.primary {
        Some(e) => {
            let ec = chars_of(e.as_str());
            let nc = chars_of(c.name.as_str());
            if seq_eq(&ec, &nc) {
                None
            } else {
                Some(string_of(&ec))
            }
        },
        None => None,
    }
}

/// After a refresh the same person stays selected, found again by name and
/// primary address.
pub fn reselect(cs: &[Contact], name: &str, primary: Option<&str>) -> (r: Option<usize>)
    ensures
        match r {
            Some(i) => i < cs@.len() && cs@[i as int].name@ == name@ && same_primary(cs@[i as int].primary, primary)
                && forall|k: int|
                0 <= k < i ==> !(cs@[k].name@ == name@ && same_primary(cs@[k].primary, primary)),
            None => forall|k: int|
                0 <= k < cs@.len() ==> !(#[trigger] cs@[k].name@ == name@ && same_primary(cs@[k].primary, primary)),
        },
{
    let n = chars_of(name);
    let mut i: usize = 0;
    while i < cs.len()
        invariant
            i <= cs.len(),
            n@ == name@,
            forall|k: int| 0 <= k < i ==> !(#[trigger] cs@[k].name@ == name@ && same_primary(cs@[k].primary, primary)),
        decreases cs.len() - i,
    {
        let c = &cs[i];
        let same_name = seq_eq(&chars_of(c.name.as_str()), &n);
        let same_mail = match (&c.primary, primary) {
            (Some(a), Some(b)) => seq_eq(&chars_of(a.as_str()), &chars_of(b)),
            (None, None) => true,
            _ => false,
        };
        if same_name && same_mail {
            return Some(i);
        }
        i += 1;
    }
    None
}

pub open spec fn same_primary(a: Option<String>, b: Option<&str>) -> bool {
    match (a, b) {
        (Some(x), Some(y)) => x@ == y@,
        (None, None) => true,
        _ => false,
    }
}

} // verus!

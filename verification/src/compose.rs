//! The composer's text rules: which recipient is being typed, how a chosen
//! suggestion completes it, how suggestions rank, and what a message needs
//! before it is sent.

use vstd::prelude::*;
use crate::order::{compare_int, compare_text, compare_text_exec, lemma_compare_text, then};
use crate::sorting::{sort_positions, Ranking};
use crate::text::{
    chars_of, contains, contains_str, ends_with, push_all, push_str, rfind_char, rfind_char_exec, slice_of, starts_with,
    starts_with_str, string_of, to_lowercase, trim, trim_chars, trim_end, trim_end_chars, unicode_lower,
};
use crate::gallery::lemma_rfind_char;

verus! {

/// Which recipient field a suggestion is for.
#[derive(Debug, Clone, Copy, PartialEq, Eq, Structural)]
pub enum Field {
    To,
    Cc,
    Bcc,
}

/// The recipient being typed: what follows the last comma, trimmed.
pub open spec fn token_of(text: Seq<char>) -> Seq<char> {
    trim(
        match rfind_char(text, ',', text.len() as int) {
            Some(i) => text.subrange(i + 1, text.len() as int),
            None => text,
        },
    )
}

pub fn current_token(text: &str) -> (r: String)
    ensures
        r@ == token_of(text@),
{
    let t = chars_of(text);
    proof {
        lemma_rfind_char(t@, ',', t@.len() as int);
    }
    let tail = match rfind_char_exec(&t, ',') {
        Some(i) => {
            assert(i < t.len());
            slice_of(&t, i + 1, t.len())
        },
        None => slice_of(&t, 0, t.len()),
    };
    assert(t@.subrange(0, t@.len() as int) =~= t@);
    let r = trim_chars(&tail);
    string_of(&r)
}

/// The field after a suggestion is chosen: everything up to and including
/// the last comma, the suggestion, and `, ` ready for the next recipient.
pub open spec fn completed(text: Seq<char>, display: Seq<char>) -> Seq<char> {
    let prefix = match rfind_char(text, ',', text.len() as int) {
        Some(i) => text.subrange(0, i + 1),
        None => seq![],
    };
    prefix + display + ", "@
}

pub fn complete_field(text: &str, display: &str) -> (r: String)
    ensures
        r@ == completed(text@, display@),
{
    let t = chars_of(text);
    proof {
        lemma_rfind_char(t@, ',', t@.len() as int);
    }
    let mut out = match rfind_char_exec(&t, ',') {
        Some(i) => {
            assert(i < t.len());
            slice_of(&t, 0, i + 1)
        },
        None => Vec::new(),
    };
    push_str(&mut out, display);
    push_str(&mut out, ", ");
    string_of(&out)
}

/// How a contact picked from the browser is written: the bare address when
/// the name is blank or just repeats it, else `Name <address>`.
pub open spec fn contact_text(name: Seq<char>, email: Seq<char>) -> Seq<char> {
    if trim(name).len() == 0 || name == email {
        email
    } else {
        name + " <"@ + email + ">"@
    }
}

pub fn contact_display(name: &str, email: &str) -> (r: String)
    ensures
        r@ == contact_text(name@, email@),
{
    let n = chars_of(name);
    let e = chars_of(email);
    if trim_chars(&n).len() == 0 || crate::text::seq_eq(&n, &e) {
        string_of(&e)
    } else {
        let mut out = n;
        push_str(&mut out, " <");
        push_all(&mut out, &e);
        push_str(&mut out, ">");
        string_of(&out)
    }
}

/// The To field with a picked contact added: separated from what is there
/// (nothing, a space after a trailing comma, else `, `), and followed by
/// `, `.
pub open spec fn appended(cur: Seq<char>, display: Seq<char>) -> Seq<char> {
    let t = trim_end(cur);
    let sep = if t.len() == 0 {
        seq![]
    } else if ends_with(t, ","@) {
        " "@
    } else {
        ", "@
    };
    cur + sep + display + ", "@
}

pub fn append_recipient(cur: &str, display: &str) -> (r: String)
    ensures
        r@ == appended(cur@, display@),
{
    let c = chars_of(cur);
    let t = trim_end_chars(&c);
    let comma = chars_of(",");
    let mut out = slice_of(&c, 0, c.len());
    assert(c@.subrange(0, c@.len() as int) =~= c@);
    if t.len() == 0 {
        proof {
            reveal_strlit("");
        }
    } else if crate::text::ends_with_chars(&t, &comma) {
        push_str(&mut out, " ");
    } else {
        push_str(&mut out, ", ");
    }
    push_str(&mut out, display);
    push_str(&mut out, ", ");
    string_of(&out)
}

/// The completion list's selection after a move, kept inside the list.
pub fn completion_move(selected: usize, delta: i32, count: usize) -> (r: Option<usize>)
    requires
        count <= i32::MAX,
        selected <= i32::MAX,
    ensures
        match r {
            Some(n) => count > 0 && n == (if selected + delta < 0 {
                0
            } else if selected + delta > count - 1 {
                count - 1
            } else {
                selected + delta
            }),
            None => count == 0,
        },
{
    if count == 0 {
        return None;
    }
    let s: i64 = (selected as i64) + (delta as i64);
    let max: i64 = (count as i64) - 1;
    let n: i64 = if s < 0 {
        0
    } else if s > max {
        max
    } else {
        s
    };
    Some(n as usize)
}

/// The address and subject rows show unless a compact reply sits inline.
pub fn fields_visible(compact: bool, windowed: bool) -> (r: bool)
    ensures
        r == !(compact && !windowed),
{
    !(compact && !windowed)
}

/// A message is sent only with a recipient.
pub fn can_send(to: &str) -> (r: bool)
    ensures
        r == (trim(to@).len() > 0),
{
    trim_chars(&chars_of(to)).len() > 0
}

/// The account to send from: the chosen one's id and alias, or account 1
/// with no alias when the choice is out of range.
pub fn sender_of(ids: &Vec<(u32, Option<String>)>, idx: usize) -> (r: (u32, Option<String>))
    ensures
        idx < ids@.len() ==> r.0 == ids@[idx as int].0 && match (r.1, ids@[idx as int].1) {
            (Some(a), Some(b)) => a@ == b@,
            (None, None) => true,
            _ => false,
        },
        idx >= ids@.len() ==> r.0 == 1 && r.1 is None,
{
    if idx < ids.len() {
        let alias = match &ids[idx].1 {
            Some(a) => Some(string_of(&chars_of(a.as_str()))),
            None => None,
        };
        (ids[idx].0, alias)
    } else {
        (1, None)
    }
}

/// The body the editor opens with: an empty first line, the prefilled body,
/// and the signature block unless a draft is being edited.
pub fn initial_content(body_html: &str, sig_block: &str, editing_draft: bool, has_signature: bool) -> (r: String)
    ensures
        r@ == "<div><br></div>"@ + body_html@ + (if !editing_draft && has_signature {
            sig_block@
        } else {
            seq![]
        }),
{
    let mut out: Vec<char> = Vec::new();
    push_str(&mut out, "<div><br></div>");
    push_str(&mut out, body_html);
    if !editing_draft && has_signature {
        push_str(&mut out, sig_block);
    }
    assert(out@ =~= "<div><br></div>"@ + body_html@ + (if !editing_draft && has_signature {
        sig_block@
    } else {
        seq![]
    }));
    string_of(&out)
}

// ---------------------------------------------------------------------------
// Ranking suggestions
// ---------------------------------------------------------------------------

/// A recipient suggestion: a name, an address, and how often it was used.
pub struct Suggestion {
    pub name: String,
    pub email: String,
    pub score: u32,
}

/// Whether a suggestion is offered for the (lower-cased) token being typed:
/// its name or its address, lower-cased, contains the token.
pub open spec fn suggestion_matches(s: Suggestion, q: Seq<char>) -> bool {
    contains(unicode_lower(s.name@), q) || contains(unicode_lower(s.email@), q)
}

/// Whether the (lower-cased) token starts the suggestion's address or name.
pub open spec fn prefix_hit(s: Suggestion, q: Seq<char>) -> bool {
    starts_with(unicode_lower(s.email@), q) || starts_with(unicode_lower(s.name@), q)
}

/// Best first: prefix hits, then the most used, then by name.
pub open spec fn suggestion_compare(q: Seq<char>, a: Suggestion, b: Suggestion) -> int {
    then(
        compare_int(if prefix_hit(b, q) { 1 } else { 0 }, if prefix_hit(a, q) { 1 } else { 0 }),
        then(compare_int(b.score as int, a.score as int), compare_text(unicode_lower(a.name@), unicode_lower(b.name@))),
    )
}

/// One suggestion's ranking fields, computed once.
pub struct SuggestionKey {
    pub hit: bool,
    pub score: u32,
    pub name: Vec<char>,
}

/// The ranking of a set of suggestions for one token.
pub struct SuggestionRanking<'a> {
    pub items: &'a [Suggestion],
    pub keys: Vec<SuggestionKey>,
    pub q: Ghost<Seq<char>>,
}

pub open spec fn keys_ok(r: &SuggestionRanking) -> bool {
    &&& r.keys@.len() == r.items@.len()
    &&& forall|i: int|
        0 <= i < r.items@.len() ==> (#[trigger] r.keys@[i]).hit == prefix_hit(r.items@[i], r.q@) && r.keys@[i].score
            == r.items@[i].score && r.keys@[i].name@ == unicode_lower(r.items@[i].name@)
}

impl<'a> Ranking for SuggestionRanking<'a> {
    open spec fn len_spec(&self) -> nat {
        if keys_ok(self) {
            self.items@.len()
        } else {
            0
        }
    }

    open spec fn rank(&self, a: usize, b: usize) -> int {
        suggestion_compare(self.q@, self.items@[a as int], self.items@[b as int])
    }

    proof fn lemma_total(&self, a: usize, b: usize, c: usize) {
        let x = unicode_lower(self.items@[a as int].name@);
        let y = unicode_lower(self.items@[b as int].name@);
        let z = unicode_lower(self.items@[c as int].name@);
        lemma_compare_text(x, y, z);
        lemma_compare_text(y, x, z);
        lemma_compare_text(x, z, y);
    }

    fn compare_at(&self, a: usize, b: usize) -> (r: i8) {
        let x = &self.keys[a];
        let y = &self.keys[b];
        if x.hit != y.hit {
            if y.hit {
                1
            } else {
                -1
            }
        } else if x.score != y.score {
            if y.score < x.score {
                -1
            } else {
                1
            }
        } else {
            compare_text_exec(&x.name, &y.name)
        }
    }
}

/// The order ranking gives: `sorted` holds, each once, the positions of the
/// suggestions that match the token, best first, ties in their given order;
/// `result` is at most its first eight.
pub open spec fn ranked(items: Seq<Suggestion>, q: Seq<char>, sorted: Seq<usize>, result: Seq<usize>) -> bool {
    &&& sorted.no_duplicates()
    &&& forall|x: usize| #[trigger] sorted.contains(x) <==> (x < items.len() && suggestion_matches(items[x as int], q))
    &&& forall|i: int, j: int|
        0 <= i < j < sorted.len() ==> suggestion_compare(q, items[#[trigger] sorted[i] as int], items[#[trigger] sorted[j] as int])
            <= 0
    &&& forall|i: int, j: int|
        0 <= i < j < sorted.len() && suggestion_compare(
            q,
            items[#[trigger] sorted[i] as int],
            items[#[trigger] sorted[j] as int],
        ) == 0 ==> sorted[i] < sorted[j]
    &&& result == sorted.take(if sorted.len() < 8 { sorted.len() as int } else { 8 })
}

/// Ranks the known suggestions that match the token being typed, best first:
/// those whose address or name starts with it, then the most used, then by
/// name; at most eight. The answer is their positions in `suggestions`.
pub fn ranked_matches(suggestions: &[Suggestion], token: &str) -> (r: Vec<usize>)
    ensures
        exists|sorted: Seq<usize>| #[trigger] ranked(suggestions@, unicode_lower(token@), sorted, r@),
{
    let ql = to_lowercase(token);
    let q = chars_of(ql.as_str());
    let mut keys: Vec<SuggestionKey> = Vec::new();
    let mut pos: Vec<usize> = Vec::new();
    let mut i: usize = 0;
    while i < suggestions.len()
        invariant
            i <= suggestions.len(),
            q@ == unicode_lower(token@),
            ql@ == q@,
            keys@.len() == i,
            forall|a: int, b: int| 0 <= a < b < pos@.len() ==> #[trigger] pos@[a] < #[trigger] pos@[b],
            forall|a: int| 0 <= a < pos@.len() ==> #[trigger] pos@[a] < i,
            forall|x: usize|
                #[trigger] pos@.contains(x) <==> (x < i && suggestion_matches(suggestions@[x as int], q@)),
            forall|k: int|
                0 <= k < i ==> (#[trigger] keys@[k]).hit == prefix_hit(suggestions@[k], q@) && keys@[k].score
                    == suggestions@[k].score && keys@[k].name@ == unicode_lower(suggestions@[k].name@),
        decreases suggestions.len() - i,
    {
        let s = &suggestions[i];
        let e = to_lowercase(s.email.as_str());
        let n = to_lowercase(s.name.as_str());
        let ec = chars_of(e.as_str());
        let nc = chars_of(n.as_str());
        let h1 = crate::text::starts_with_str(&ec, ql.as_str());
        let h2 = crate::text::starts_with_str(&nc, ql.as_str());
        let hit = h1 || h2;
        let offered = contains_str(&nc, ql.as_str()) || contains_str(&ec, ql.as_str());
        assert(ec@ == unicode_lower(suggestions@[i as int].email@));
        assert(nc@ == unicode_lower(suggestions@[i as int].name@));
        assert(hit == prefix_hit(suggestions@[i as int], q@));
        assert(offered == suggestion_matches(suggestions@[i as int], q@));
        keys.push(SuggestionKey { hit, score: s.score, name: nc });
        let ghost prev = pos@;
        if offered {
            pos.push(i);
            assert forall|x: usize| #[trigger] pos@.contains(x) <==> (x < i + 1 && suggestion_matches(
                suggestions@[x as int],
                q@,
            )) by {
                assert(pos@ == prev.push(i));
                assert(prev.contains(x) <==> (x < i && suggestion_matches(suggestions@[x as int], q@)));
                if x == i {
                    assert(pos@[pos@.len() - 1] == x);
                } else {
                    if pos@.contains(x) {
                        let k = choose|k: int| 0 <= k < pos@.len() && pos@[k] == x;
                        assert(k < prev.len());
                        assert(prev[k] == x);
                        assert(prev.contains(x));
                    }
                    if prev.contains(x) {
                        let k = choose|k: int| 0 <= k < prev.len() && prev[k] == x;
                        assert(pos@[k] == x);
                    }
                }
            }
        } else {
            assert forall|x: usize| #[trigger] pos@.contains(x) <==> (x < i + 1 && suggestion_matches(
                suggestions@[x as int],
                q@,
            )) by {
                if x == i {
                    if pos@.contains(x) {
                        let k = choose|k: int| 0 <= k < pos@.len() && pos@[k] == x;
                        assert(pos@[k] < i);
                    }
                    assert(!suggestion_matches(suggestions@[x as int], q@));
                } else {
                    assert(pos@.contains(x) <==> (x < i && suggestion_matches(suggestions@[x as int], q@)));
                }
            }
        }
        i += 1;
    }
    let ghost before = pos@;
    let ctx = SuggestionRanking { items: suggestions, keys, q: Ghost(q@) };
    assert(keys_ok(&ctx));
    assert(before.no_duplicates()) by {
        assert forall|a: int, b: int| 0 <= a < b < before.len() implies before[a] != before[b] by {
            assert(before[a] < before[b]);
        }
    }
    sort_positions(&mut pos, &ctx);
    let sorted = pos;
    let n = if sorted.len() < 8 {
        sorted.len()
    } else {
        8
    };
    let r = slice_positions(&sorted, n);
    proof {
        assert forall|x: usize| #[trigger] sorted@.contains(x) <==> (x < suggestions@.len() && suggestion_matches(
            suggestions@[x as int],
            q@,
        )) by {
            assert(sorted@.contains(x) <==> before.contains(x));
        }
        assert forall|i: int, j: int|
            0 <= i < j < sorted@.len() && suggestion_compare(
                q@,
                suggestions@[#[trigger] sorted@[i] as int],
                suggestions@[#[trigger] sorted@[j] as int],
            ) == 0 implies sorted@[i] < sorted@[j] by {
            assert(ctx.rank(sorted@[i], sorted@[j]) == 0);
            assert(sorted@.contains(sorted@[i]));
            assert(sorted@.contains(sorted@[j]));
            assert(before.contains(sorted@[i]));
            assert(before.contains(sorted@[j]));
            let a = before.index_of(sorted@[i]);
            let b = before.index_of(sorted@[j]);
            assert(before[a] == sorted@[i]);
            assert(before[b] == sorted@[j]);
            assert(a < b);
        }
        assert(ranked(suggestions@, unicode_lower(token@), sorted@, r@));
    }
    r
}

/// Ranking puts every shown suggestion whose lower-cased address or name
/// starts with the lower-cased token ahead of every one where neither does;
/// among suggestions alike in that, the more used comes first, and then the
/// one whose lower-cased name sorts first; and every
/// shown suggestion has the token in its lower-cased name or address.
pub proof fn law_prefix_hits_rank_first(items: Seq<Suggestion>, token: Seq<char>, r: Seq<usize>, i: int, j: int)
    requires
        exists|sorted: Seq<usize>| #[trigger] ranked(items, unicode_lower(token), sorted, r),
        0 <= i < j < r.len(),
    ensures
        ({
            let q = unicode_lower(token);
            let a = items[r[i] as int];
            let b = items[r[j] as int];
            let a_hit = starts_with(unicode_lower(a.email@), q) || starts_with(unicode_lower(a.name@), q);
            let b_hit = starts_with(unicode_lower(b.email@), q) || starts_with(unicode_lower(b.name@), q);
            &&& b_hit ==> a_hit
            &&& a_hit == b_hit ==> a.score >= b.score
            &&& a_hit == b_hit && a.score == b.score ==> compare_text(unicode_lower(a.name@), unicode_lower(b.name@))
                <= 0
            &&& contains(unicode_lower(a.name@), q) || contains(unicode_lower(a.email@), q)
            &&& contains(unicode_lower(b.name@), q) || contains(unicode_lower(b.email@), q)
        }),
{
    let q = unicode_lower(token);
    let sorted = choose|sorted: Seq<usize>| #[trigger] ranked(items, q, sorted, r);
    assert(r[i] == sorted[i] && r[j] == sorted[j]);
    assert(suggestion_compare(q, items[sorted[i] as int], items[sorted[j] as int]) <= 0);
    assert(sorted.contains(sorted[i]));
    assert(sorted.contains(sorted[j]));
}

/// Every suggestion whose lower-cased name or address contains the
/// lower-cased token is shown, unless eight are shown already.
pub proof fn law_offered_suggestions_shown(items: Seq<Suggestion>, token: Seq<char>, r: Seq<usize>, x: usize)
    requires
        exists|sorted: Seq<usize>| #[trigger] ranked(items, unicode_lower(token), sorted, r),
        x < items.len(),
        contains(unicode_lower(items[x as int].name@), unicode_lower(token)) || contains(
            unicode_lower(items[x as int].email@),
            unicode_lower(token),
        ),
    ensures
        r.contains(x) || r.len() == 8,
{
    let q = unicode_lower(token);
    let sorted = choose|sorted: Seq<usize>| #[trigger] ranked(items, q, sorted, r);
    assert(sorted.contains(x));
    if sorted.len() < 8 {
        assert(r =~= sorted);
    }
}

fn slice_positions(v: &Vec<usize>, n: usize) -> (r: Vec<usize>)
    requires
        n <= v@.len(),
    ensures
        r@ == v@.take(n as int),
{
    let mut out: Vec<usize> = Vec::new();
    let mut i: usize = 0;
    while i < n
        invariant
            i <= n,
            n <= v@.len(),
            out@ == v@.take(i as int),
        decreases n - i,
    {
        out.push(v[i]);
        assert(v@.take(i as int).push(v@[i as int]) =~= v@.take(i + 1 as int));
        i += 1;
    }
    out
}

} // verus!

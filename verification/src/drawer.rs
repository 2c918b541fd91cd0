//! The attachment drawer's rules: the order it lists attachments in, its
//! sizes, and where the lightbox starts.

use vstd::prelude::*;
use crate::contacts::ContactRanking;
use crate::order::compare_text;
use crate::sorting::{sort_positions, Ranking};
use crate::text::{chars_of, decimal, decimal_usize, push_all, push_str, string_of, to_lowercase, unicode_lower};

verus! {

/// The smallest and largest thumbnail edge, in pixels.
pub const MIN_THUMB: i32 = 56;
pub const MAX_THUMB: i32 = 220;

/// The smallest height the drawer can be dragged to, in pixels.
pub const MIN_HEIGHT: i32 = 96;

/// `after` is the positions `0..n` stably sorted by lower-cased name.
pub open spec fn by_name(names: Seq<String>, after: Seq<usize>) -> bool {
    &&& crate::sorting::same_positions(Seq::new(names.len(), |i: int| i as usize), after)
    &&& forall|i: int, j: int|
        0 <= i < j < after.len() ==> compare_text(
            unicode_lower(names[#[trigger] after[i] as int]@),
            unicode_lower(names[#[trigger] after[j] as int]@),
        ) <= 0
    &&& forall|i: int, j: int|
        0 <= i < j < after.len() && compare_text(
            unicode_lower(names[#[trigger] after[i] as int]@),
            unicode_lower(names[#[trigger] after[j] as int]@),
        ) == 0 ==> after[i] < after[j]
}

/// The display order (display position to attachment): the message's own
/// order in the grid; in the list, by name whatever the case, A to Z, or
/// that order reversed for Z to A.
pub fn display_order(names: &Vec<String>, list_view: bool, sort_desc: bool) -> (r: Vec<usize>)
    ensures
        !list_view ==> r@ == Seq::new(names@.len(), |i: int| i as usize),
        list_view ==> exists|sorted: Seq<usize>|
            #![trigger by_name(names@, sorted)]
            by_name(names@, sorted) && r@ == (if sort_desc {
                sorted.reverse()
            } else {
                sorted
            }),
{
    let mut order: Vec<usize> = Vec::new();
    let mut keys: Vec<Vec<char>> = Vec::new();
    let mut i: usize = 0;
    while i < names.len()
        invariant
            i <= names.len(),
            order@ == Seq::new(i as nat, |k: int| k as usize),
            keys@.len() == i,
            forall|k: int| 0 <= k < i ==> (#[trigger] keys@[k])@ == unicode_lower(names@[k]@),
        decreases names.len() - i,
    {
        order.push(i);
        keys.push(chars_of(to_lowercase(names[i].as_str()).as_str()));
        assert(order@ =~= Seq::new((i + 1) as nat, |k: int| k as usize));
        i += 1;
    }
    if !list_view {
        return order;
    }
    let ghost before = order@;
    let ctx = ContactRanking { keys };
    sort_positions(&mut order, &ctx);
    proof {
        assert forall|i: int, j: int|
            0 <= i < j < order@.len() && compare_text(
                unicode_lower(names@[#[trigger] order@[i] as int]@),
                unicode_lower(names@[#[trigger] order@[j] as int]@),
            ) == 0 implies order@[i] < order@[j] by {
            assert(before.contains(order@[i]));
            assert(before.contains(order@[j]));
            assert(ctx.rank(order@[i], order@[j]) == 0);
            assert(before[order@[i] as int] == order@[i]);
            assert(before[order@[j] as int] == order@[j]);
            assert(before.index_of(order@[i]) == order@[i] as int);
            assert(before.index_of(order@[j]) == order@[j] as int);
        }
        assert forall|i: int, j: int| 0 <= i < j < order@.len() implies compare_text(
            unicode_lower(names@[#[trigger] order@[i] as int]@),
            unicode_lower(names@[#[trigger] order@[j] as int]@),
        ) <= 0 by {
            assert(before.contains(order@[i]));
            assert(before.contains(order@[j]));
            assert(ctx.rank(order@[i], order@[j]) <= 0);
        }
        assert(by_name(names@, order@));
    }
    if sort_desc {
        let ghost sorted = order@;
        let mut rev: Vec<usize> = Vec::new();
        let mut k: usize = order.len();
        while k > 0
            invariant
                k <= order.len(),
                sorted == order@,
                rev@ == sorted.reverse().take((order.len() - k) as int),
            decreases k,
        {
            k -= 1;
            rev.push(order[k]);
            assert(rev@ =~= sorted.reverse().take((order.len() - k) as int));
        }
        assert(rev@ =~= sorted.reverse());
        rev
    } else {
        order
    }
}

/// The thumbnail edge the size slider asks for, kept within its bounds.
pub fn clamp_thumb(size: i32) -> (r: i32)
    ensures
        r == (if size < MIN_THUMB {
            MIN_THUMB
        } else if size > MAX_THUMB {
            MAX_THUMB
        } else {
            size
        }),
{
    if size < MIN_THUMB {
        MIN_THUMB
    } else if size > MAX_THUMB {
        MAX_THUMB
    } else {
        size
    }
}

/// The height a drag of the divider leaves the drawer: kept for the session
/// when it is a drag by the user (not a move of ours, after the first
/// placement, while expanded) and at least the minimum.
pub fn dragged_height(adjusting: bool, positioned: bool, collapsed: bool, total: i32, position: i32) -> (r: Option<i32>)
    requires
        i32::MIN <= total - position <= i32::MAX,
    ensures
        match r {
            Some(h) => !adjusting && positioned && !collapsed && h == total - position && h >= MIN_HEIGHT,
            None => adjusting || !positioned || collapsed || total - position < MIN_HEIGHT,
        },
{
    if adjusting || !positioned || collapsed {
        return None;
    }
    let h = total - position;
    if h >= MIN_HEIGHT {
        Some(h)
    } else {
        None
    }
}

/// Where the divider goes so the drawer is the height asked for: nothing
/// before the split is allocated, else that far from the bottom, never
/// above the top.
pub fn divider_position(total: i32, drawer_height: i32) -> (r: Option<i32>)
    requires
        i32::MIN <= total - drawer_height <= i32::MAX,
    ensures
        match r {
            Some(p) => total > 1 && p == (if total - drawer_height < 0 {
                0
            } else {
                total - drawer_height
            }),
            None => total <= 1,
        },
{
    if total <= 1 {
        return None;
    }
    let p = total - drawer_height;
    if p < 0 {
        Some(0)
    } else {
        Some(p)
    }
}

/// The lightbox shows the previewable attachments; it opens on the one
/// clicked, counted among them.
pub open spec fn count_true(flags: Seq<bool>, n: int) -> nat
    decreases n,
{
    if n <= 0 {
        0
    } else {
        count_true(flags, n - 1) + (if flags[n - 1] {
            1nat
        } else {
            0nat
        })
    }
}

proof fn lemma_count_true(flags: Seq<bool>, n: int)
    requires
        0 <= n <= flags.len(),
    ensures
        count_true(flags, n) <= n,
    decreases n,
{
    if n > 0 {
        lemma_count_true(flags, n - 1);
    }
}

pub fn lightbox_start(previewable: &Vec<bool>, start: usize) -> (r: usize)
    ensures
        r == ({
            let n = if start < previewable@.len() {
                start + 1
            } else {
                previewable@.len() as int
            };
            let c = count_true(previewable@, n);
            if c == 0 {
                0
            } else {
                c - 1
            }
        }),
{
    let n = if start < previewable.len() {
        start + 1
    } else {
        previewable.len()
    };
    let mut c: usize = 0;
    let mut i: usize = 0;
    while i < n
        invariant
            i <= n,
            n <= previewable@.len(),
            c == count_true(previewable@, i as int),
        decreases n - i,
    {
        proof {
            lemma_count_true(previewable@, i as int);
        }
        if previewable[i] {
            c += 1;
        }
        i += 1;
    }
    if c == 0 {
        0
    } else {
        c - 1
    }
}

/// The drawer header: "N attachment" or "N attachments".
pub fn attachment_count(n: usize) -> (r: String)
    ensures
        r@ == decimal(n as nat) + " attachment"@ + (if n == 1 {
            seq![]
        } else {
            "s"@
        }),
{
    let mut out = decimal_usize(n);
    push_str(&mut out, " attachment");
    if n != 1 {
        push_str(&mut out, "s");
    }
    proof {
        reveal_strlit("");
    }
    assert(out@ =~= decimal(n as nat) + " attachment"@ + (if n == 1 {
        seq![]
    } else {
        "s"@
    }));
    string_of(&out)
}

/// The collapse chevron: its icon and tooltip.
pub fn chevron(collapsed: bool) -> (r: (&'static str, &'static str))
    ensures
        r.0@ == (if collapsed {
            "co.hyprlab.Vireo-pan-up-symbolic"@
        } else {
            "co.hyprlab.Vireo-pan-down-symbolic"@
        }),
        r.1@ == (if collapsed {
            "Show attachments"@
        } else {
            "Hide attachments"@
        }),
{
    if collapsed {
        ("co.hyprlab.Vireo-pan-up-symbolic", "Show attachments")
    } else {
        ("co.hyprlab.Vireo-pan-down-symbolic", "Hide attachments")
    }
}

} // verus!

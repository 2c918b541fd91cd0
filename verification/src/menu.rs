//! The layout of a right-click menu: its sections' entries in order, with a
//! hairline between consecutive sections, empty sections left out.

use vstd::prelude::*;

verus! {

/// One slot of a context menu, top to bottom.
#[derive(Debug, Clone, Copy, PartialEq, Eq, Structural)]
pub enum MenuSlot {
    /// A hairline between two sections.
    Separator,
    /// The entry at `index` of section `section`.
    Entry { section: usize, index: usize },
}

/// The slots of the first `n` sections, whose entry counts are `sizes`.
pub open spec fn menu_layout(sizes: Seq<usize>, n: int) -> Seq<MenuSlot>
    decreases n,
{
    if n <= 0 {
        seq![]
    } else {
        let r = menu_layout(sizes, n - 1);
        let k = n - 1;
        if sizes[k] == 0 {
            r
        } else {
            r + (if r.len() > 0 {
                seq![MenuSlot::Separator]
            } else {
                seq![]
            }) + Seq::new(sizes[k] as nat, |j: int| MenuSlot::Entry { section: k as usize, index: j as usize })
        }
    }
}

/// The menu's slots for sections of these sizes.
pub fn context_menu_layout(sizes: &Vec<usize>) -> (r: Vec<MenuSlot>)
    ensures
        r@ == menu_layout(sizes@, sizes@.len() as int),
{
    let mut out: Vec<MenuSlot> = Vec::new();
    let mut k: usize = 0;
    while k < sizes.len()
        invariant
            k <= sizes@.len(),
            out@ == menu_layout(sizes@, k as int),
        decreases sizes@.len() - k,
    {
        if sizes[k] > 0 {
            let ghost before = out@;
            if out.len() > 0 {
                out.push(MenuSlot::Separator);
            }
            let ghost mid = out@;
            let mut j: usize = 0;
            while j < sizes[k]
                invariant
                    k < sizes@.len(),
                    j <= sizes@[k as int],
                    out@ == mid + Seq::new(j as nat, |x: int| MenuSlot::Entry { section: k, index: x as usize }),
                decreases sizes@[k as int] - j,
            {
                out.push(MenuSlot::Entry { section: k, index: j });
                assert(out@ =~= mid + Seq::new((j + 1) as nat, |x: int| MenuSlot::Entry { section: k, index: x as usize }));
                j += 1;
            }
            assert(out@ =~= menu_layout(sizes@, k + 1));
        }
        k += 1;
    }
    out
}

} // verus!

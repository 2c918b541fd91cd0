//! The attachment drawer under the reader as a state machine: its
//! attachments and their display order, thumbnail size, height and layout,
//! and what each input asks of the pane around it.

use vstd::prelude::*;
use crate::drawer::{by_name, clamp_thumb, display_order, dragged_height, MAX_THUMB, MIN_HEIGHT, MIN_THUMB};

verus! {

/// The drawer's state. Attachments are known by name; whether each can be
/// shown in the lightbox (an image that decodes, or a PDF) is told with them.
pub struct AttachmentDrawer {
    pub names: Vec<String>,
    pub previewable: Vec<bool>,
    /// Display position to attachment.
    pub order: Vec<usize>,
    pub thumb: i32,
    pub collapsed: bool,
    pub list_view: bool,
    pub sort_desc: bool,
    /// The height dragged to in this session.
    pub height: i32,
    /// The remembered split has been applied.
    pub positioned: bool,
}

/// What the drawer is told.
pub enum AttachmentDrawerInput {
    SetItems { names: Vec<String>, previewable: Vec<bool> },
    SetThumbSize(i32),
    /// The divider moved: whether the drawer itself is moving it, the pane's
    /// height and the divider's position.
    PositionChanged { adjusting: bool, total: i32, position: i32 },
    /// The remembered split was applied.
    Positioned,
    ToggleCollapsed,
    ToggleListView,
    ToggleSortOrder,
    /// Open the attachment at this display position.
    Open(usize),
    /// Save the attachment at this display position.
    Download(usize),
    /// A double click at this display position.
    DoubleClick(usize),
    /// Show this attachment (by its own position) in the lightbox.
    Preview(usize),
}

/// What the pane does after an input.
pub struct DrawerEffects {
    /// Build the cells again in the display order.
    pub rebuild: bool,
    /// Apply the remembered split once the drawer is allocated.
    pub initial_position: bool,
    /// Move the divider for the collapsed state or the height.
    pub apply_position: bool,
    pub save_collapsed: Option<bool>,
    pub save_list_view: Option<bool>,
    pub save_sort_desc: Option<bool>,
    /// Open this attachment (its own position) with the desktop.
    pub open: Option<usize>,
    /// Offer to save this attachment.
    pub download: Option<usize>,
    /// Show this attachment in the lightbox.
    pub lightbox: Option<usize>,
}

pub open spec fn still() -> DrawerEffects {
    DrawerEffects {
        rebuild: false,
        initial_position: false,
        apply_position: false,
        save_collapsed: None,
        save_list_view: None,
        save_sort_desc: None,
        open: None,
        download: None,
        lightbox: None,
    }
}

fn still_exec() -> (r: DrawerEffects)
    ensures
        r == still(),
{
    DrawerEffects {
        rebuild: false,
        initial_position: false,
        apply_position: false,
        save_collapsed: None,
        save_list_view: None,
        save_sort_desc: None,
        open: None,
        download: None,
        lightbox: None,
    }
}

/// The display order the layout asks for: the message's own order in the
/// grid; in the list by name, reversed for Z to A.
pub open spec fn ordered(names: Seq<String>, list_view: bool, sort_desc: bool, order: Seq<usize>) -> bool {
    &&& !list_view ==> order == Seq::new(names.len(), |i: int| i as usize)
    &&& list_view ==> exists|sorted: Seq<usize>|
        #![trigger by_name(names, sorted)]
        by_name(names, sorted) && order == (if sort_desc {
            sorted.reverse()
        } else {
            sorted
        })
}

/// The drawer's invariant: one preview flag per attachment, the display
/// order the layout asks for, and a thumbnail size within bounds.
pub open spec fn drawer_ok(d: AttachmentDrawer) -> bool {
    &&& d.previewable@.len() == d.names@.len()
    &&& ordered(d.names@, d.list_view, d.sort_desc, d.order@)
    &&& MIN_THUMB <= d.thumb <= MAX_THUMB
}

/// The attachment at a display position.
pub open spec fn at_display(d: AttachmentDrawer, i: usize) -> Option<usize> {
    if i < d.order@.len() && d.order@[i as int] < d.names@.len() {
        Some(d.order@[i as int])
    } else {
        None
    }
}

/// The state after the cells are rebuilt: only the display order changes.
pub open spec fn reordered(old: AttachmentDrawer, new: AttachmentDrawer) -> bool {
    new == AttachmentDrawer { order: new.order, ..old }
}

/// What an input does to the drawer and what it asks for.
pub open spec fn drawer_next(old: AttachmentDrawer, e: AttachmentDrawerInput, new: AttachmentDrawer, fx: DrawerEffects) -> bool {
    match e {
        AttachmentDrawerInput::SetItems { names, previewable } => {
            &&& new.names@ == names@
            &&& new.previewable@ == previewable@
            &&& new == AttachmentDrawer { names: new.names, previewable: new.previewable, order: new.order, ..old }
            &&& fx == DrawerEffects {
                rebuild: true,
                initial_position: old.names@.len() == 0 && names@.len() > 0 && !old.positioned,
                ..still()
            }
        },
        AttachmentDrawerInput::SetThumbSize(size) => {
            let s = if size < MIN_THUMB {
                MIN_THUMB
            } else if size > MAX_THUMB {
                MAX_THUMB
            } else {
                size
            };
            if s == old.thumb {
                new == old && fx == still()
            } else {
                new == AttachmentDrawer { thumb: s, ..old } && fx == DrawerEffects { rebuild: true, ..still() }
            }
        },
        AttachmentDrawerInput::PositionChanged { adjusting, total, position } => {
            &&& fx == still()
            &&& if !adjusting && old.positioned && !old.collapsed && total - position >= MIN_HEIGHT {
                new == AttachmentDrawer { height: (total - position) as i32, ..old }
            } else {
                new == old
            }
        },
        AttachmentDrawerInput::Positioned => new == AttachmentDrawer { positioned: true, ..old } && fx == still(),
        AttachmentDrawerInput::ToggleCollapsed => new == AttachmentDrawer { collapsed: !old.collapsed, ..old } && fx == DrawerEffects {
            apply_position: true,
            save_collapsed: Some(!old.collapsed),
            ..still()
        },
        AttachmentDrawerInput::ToggleListView => {
            &&& new == AttachmentDrawer { list_view: !old.list_view, order: new.order, ..old }
            &&& fx == DrawerEffects { rebuild: true, save_list_view: Some(!old.list_view), ..still() }
        },
        AttachmentDrawerInput::ToggleSortOrder => {
            &&& new == AttachmentDrawer { sort_desc: !old.sort_desc, order: new.order, ..old }
            &&& fx == DrawerEffects { rebuild: true, save_sort_desc: Some(!old.sort_desc), ..still() }
        },
        AttachmentDrawerInput::Open(i) => new == old && fx == DrawerEffects { open: at_display(old, i), ..still() },
        AttachmentDrawerInput::Download(i) => new == old && fx == DrawerEffects { download: at_display(old, i), ..still() },
        AttachmentDrawerInput::DoubleClick(i) => new == old && fx == match at_display(old, i) {
            Some(a) => if old.previewable@[a as int] {
                DrawerEffects { lightbox: Some(a), ..still() }
            } else {
                DrawerEffects { open: Some(a), ..still() }
            },
            None => still(),
        },
        AttachmentDrawerInput::Preview(a) => new == old && fx == DrawerEffects {
            lightbox: if a < old.names@.len() && old.previewable@[a as int] {
                Some(a)
            } else {
                None
            },
            ..still()
        },
    }
}

impl AttachmentDrawer {
    /// An empty drawer with the remembered layout.
    pub fn new(collapsed: bool, list_view: bool, sort_desc: bool, height: i32, thumb: i32) -> (d: AttachmentDrawer)
        ensures
            drawer_ok(d),
            d.names@.len() == 0,
            d.collapsed == collapsed && d.list_view == list_view && d.sort_desc == sort_desc,
            d.height == height,
            d.thumb == (if thumb < MIN_THUMB {
                MIN_THUMB
            } else if thumb > MAX_THUMB {
                MAX_THUMB
            } else {
                thumb
            }),
            !d.positioned,
    {
        let names: Vec<String> = Vec::new();
        let order = display_order(&names, list_view, sort_desc);
        AttachmentDrawer {
            names,
            previewable: Vec::new(),
            order,
            thumb: clamp_thumb(thumb),
            collapsed,
            list_view,
            sort_desc,
            height,
            positioned: false,
        }
    }

    fn reorder(&mut self)
        ensures
            reordered(*old(self), *final(self)),
            ordered(final(self).names@, final(self).list_view, final(self).sort_desc, final(self).order@),
    {
        self.order = display_order(&self.names, self.list_view, self.sort_desc);
    }

    fn at(&self, i: usize) -> (r: Option<usize>)
        ensures
            r == at_display(*self, i),
    {
        if i < self.order.len() && self.order[i] < self.names.len() {
            Some(self.order[i])
        } else {
            None
        }
    }

    /// Applies an input: the drawer keeps its invariant, and the state and
    /// effects are those [`drawer_next`] describes. The attachments and
    /// their preview flags come in pairs, and the divider's distance from
    /// the pane's bottom fits in an `i32`.
    pub fn handle(&mut self, e: AttachmentDrawerInput) -> (fx: DrawerEffects)
        requires
            drawer_ok(*old(self)),
            e matches AttachmentDrawerInput::SetItems { names, previewable } ==> names@.len() == previewable@.len(),
            e matches AttachmentDrawerInput::PositionChanged { total, position, .. } ==> i32::MIN <= total - position
                <= i32::MAX,
        ensures
            drawer_ok(*final(self)),
            drawer_next(*old(self), e, *final(self), fx),
    {
        match e {
            AttachmentDrawerInput::SetItems { names, previewable } => {
                let became_visible = self.names.len() == 0 && names.len() > 0;
                let first = became_visible && !self.positioned;
                self.names = names;
                self.previewable = previewable;
                self.reorder();
                DrawerEffects { rebuild: true, initial_position: first, ..still_exec() }
            },
            AttachmentDrawerInput::SetThumbSize(size) => {
                let s = clamp_thumb(size);
                if s != self.thumb {
                    self.thumb = s;
                    DrawerEffects { rebuild: true, ..still_exec() }
                } else {
                    still_exec()
                }
            },
            AttachmentDrawerInput::PositionChanged { adjusting, total, position } => {
                match dragged_height(adjusting, self.positioned, self.collapsed, total, position) {
                    Some(height) => {
                        self.height = height;
                    },
                    None => {},
                }
                still_exec()
            },
            AttachmentDrawerInput::Positioned => {
                self.positioned = true;
                still_exec()
            },
            AttachmentDrawerInput::ToggleCollapsed => {
                self.collapsed = !self.collapsed;
                DrawerEffects { apply_position: true, save_collapsed: Some(self.collapsed), ..still_exec() }
            },
            AttachmentDrawerInput::ToggleListView => {
                self.list_view = !self.list_view;
                self.reorder();
                DrawerEffects { rebuild: true, save_list_view: Some(self.list_view), ..still_exec() }
            },
            AttachmentDrawerInput::ToggleSortOrder => {
                self.sort_desc = !self.sort_desc;
                self.reorder();
                DrawerEffects { rebuild: true, save_sort_desc: Some(self.sort_desc), ..still_exec() }
            },
            AttachmentDrawerInput::Open(i) => {
                let open = self.at(i);
                DrawerEffects { open, ..still_exec() }
            },
            AttachmentDrawerInput::Download(i) => {
                let download = self.at(i);
                DrawerEffects { download, ..still_exec() }
            },
            AttachmentDrawerInput::DoubleClick(i) => match self.at(i) {
                Some(a) => {
                    if self.previewable[a] {
                        DrawerEffects { lightbox: Some(a), ..still_exec() }
                    } else {
                        DrawerEffects { open: Some(a), ..still_exec() }
                    }
                },
                None => still_exec(),
            },
            AttachmentDrawerInput::Preview(a) => {
                let lightbox = if a < self.names.len() && self.previewable[a] {
                    Some(a)
                } else {
                    None
                };
                DrawerEffects { lightbox, ..still_exec() }
            },
        }
    }
}

} // verus!

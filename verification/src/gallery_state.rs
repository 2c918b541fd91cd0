//! The attachments gallery as a state machine: what each input does to the
//! gallery's state, and what it asks of the window around it (rebuild the
//! view, remember a setting, open or save a file, show a message).

use vstd::prelude::*;
use crate::gallery::{
    apply_filter, clamp_thumb_width, column_sort, column_sort_of, index_of_sort, item_at, items_sorted, passing,
    sort_of_index, stepped, SortBy,
};
use crate::model::GalleryItem;
use crate::text::{lower, words};

verus! {

/// The gallery's state: every cached attachment, the positions shown (into
/// `all_items`, filtered and sorted), the search, the sort and filter, the
/// layout and the lightbox.
pub struct AttachmentsGallery {
    pub all_items: Vec<GalleryItem>,
    pub items: Vec<usize>,
    pub query: String,
    pub sort: SortBy,
    pub type_filter: u32,
    pub view_table: bool,
    pub thumb_width: i32,
    pub preview: Option<usize>,
    pub loading: bool,
}

/// What the gallery is told.
pub enum GalleryInput {
    /// The attachments arrived.
    SetItems(Vec<GalleryItem>),
    /// The search text changed.
    SetQuery(String),
    /// A row of the sort drop-down was picked.
    SetSort(u32),
    /// A column header of the table was clicked.
    SortColumn(u8),
    /// Grid or table.
    SetViewTable(bool),
    /// The size slider moved, to this (rounded) width.
    SetThumbWidth(i32),
    /// The slider has settled.
    ApplyThumbWidth,
    /// A row of the type drop-down was picked (0: every type).
    SetTypeFilter(u32),
    SetLoading(bool),
    /// An item was activated: show it in the lightbox.
    Activate(u32),
    Prev,
    Next,
    ClosePreview,
    /// A page rendered in the background; whether it is the one on show.
    PreviewRendered(bool),
    OpenCurrent,
    GoToCurrent,
    OpenItem(usize),
    DownloadItem(usize),
    GoToItem(usize),
    /// A double click: open the file, leaving the lightbox.
    OpenExternal(usize),
}

/// What the window around the gallery does after an input.
pub struct GalleryEffects {
    /// Repopulate the view that is showing.
    pub rebuild: bool,
    /// Work out the lightbox's picture again for its item.
    pub refresh_preview: bool,
    /// Drop the lightbox's picture.
    pub drop_picture: bool,
    /// Remember this sort row in the settings.
    pub save_sort: Option<u32>,
    /// Move the sort drop-down to this row.
    pub sort_row: Option<u32>,
    /// Remember the layout in the settings.
    pub save_table_view: Option<bool>,
    /// Start the slider's settle timer again.
    pub resize_timer: bool,
    /// Remember the thumbnail width in the settings.
    pub save_thumb_width: Option<i32>,
    /// Open this attachment (a position in `all_items`) with the desktop.
    pub open: Option<usize>,
    /// Offer to save this attachment.
    pub download: Option<usize>,
    /// Show the message this attachment came from.
    pub go_to: Option<usize>,
}

pub open spec fn no_effects() -> GalleryEffects {
    GalleryEffects {
        rebuild: false,
        refresh_preview: false,
        drop_picture: false,
        save_sort: None,
        sort_row: None,
        save_table_view: None,
        resize_timer: false,
        save_thumb_width: None,
        open: None,
        download: None,
        go_to: None,
    }
}

fn none() -> (r: GalleryEffects)
    ensures
        r == no_effects(),
{
    GalleryEffects {
        rebuild: false,
        refresh_preview: false,
        drop_picture: false,
        save_sort: None,
        sort_row: None,
        save_table_view: None,
        resize_timer: false,
        save_thumb_width: None,
        open: None,
        download: None,
        go_to: None,
    }
}

/// The shown positions are the attachments passing the search and the type
/// filter, sorted.
pub open spec fn shows(all: Seq<GalleryItem>, query: Seq<char>, type_filter: u32, sort: SortBy, items: Seq<usize>) -> bool {
    items_sorted(all, sort, passing(all, words(lower(query)), type_filter, all.len() as int), items)
}

/// The gallery's invariant: it shows what its search, filter and sort ask
/// for, and the lightbox, when open, is on a shown item.
pub open spec fn gallery_ok(g: AttachmentsGallery) -> bool {
    &&& shows(g.all_items@, g.query@, g.type_filter, g.sort, g.items@)
    &&& (g.preview matches Some(p) ==> p < g.items@.len())
}

/// The attachment at a display position, when it has its bytes: what can be
/// opened or saved.
pub open spec fn with_data(g: AttachmentsGallery, display: usize) -> Option<usize> {
    match item_at_spec(g, display) {
        Some(i) => if g.all_items@[i as int].data is Some {
            Some(i)
        } else {
            None
        },
        None => None,
    }
}

pub open spec fn item_at_spec(g: AttachmentsGallery, display: usize) -> Option<usize> {
    if display < g.items@.len() && g.items@[display as int] < g.all_items@.len() {
        Some(g.items@[display as int])
    } else {
        None
    }
}

/// The state after re-filtering: the same gallery with its shown positions
/// recomputed (the invariant pins them down).
pub open spec fn refiltered(old: AttachmentsGallery, new: AttachmentsGallery) -> bool {
    &&& new.all_items == old.all_items
    &&& new.view_table == old.view_table
    &&& new.thumb_width == old.thumb_width
    &&& new.loading == old.loading
}

/// What an input does: the state after it (`new`, which keeps the
/// invariant) and the effects it asks for.
pub open spec fn gallery_next(old: AttachmentsGallery, e: GalleryInput, new: AttachmentsGallery, fx: GalleryEffects) -> bool {
    match e {
        GalleryInput::SetItems(v) => {
            &&& new.all_items@ == v@
            &&& new.query == old.query && new.sort == old.sort && new.type_filter == old.type_filter
            &&& new.view_table == old.view_table && new.thumb_width == old.thumb_width
            &&& !new.loading && new.preview is None
            &&& fx == GalleryEffects { rebuild: true, drop_picture: true, ..no_effects() }
        },
        GalleryInput::SetQuery(q) => {
            &&& refiltered(old, new) && new.query@ == q@ && new.sort == old.sort && new.type_filter == old.type_filter
            &&& new.preview is None
            &&& fx == GalleryEffects { rebuild: true, ..no_effects() }
        },
        GalleryInput::SetSort(i) => if sort_of_index(i) == old.sort {
            new == old && fx == no_effects()
        } else {
            &&& refiltered(old, new) && new.query == old.query && new.type_filter == old.type_filter
            &&& new.sort == sort_of_index(i) && new.preview is None
            &&& fx == GalleryEffects { rebuild: true, save_sort: Some(i), ..no_effects() }
        },
        GalleryInput::SortColumn(col) => {
            let s = column_sort_of(col, old.sort);
            if s == old.sort {
                new == old && fx == GalleryEffects { sort_row: Some(index_of_sort(s)), ..no_effects() }
            } else {
                &&& refiltered(old, new) && new.query == old.query && new.type_filter == old.type_filter
                &&& new.sort == s && new.preview is None
                &&& fx == GalleryEffects {
                    rebuild: true,
                    save_sort: Some(index_of_sort(s)),
                    sort_row: Some(index_of_sort(s)),
                    ..no_effects()
                }
            }
        },
        GalleryInput::SetViewTable(t) => if t == old.view_table {
            new == old && fx == no_effects()
        } else {
            new == AttachmentsGallery { view_table: t, ..old } && fx == GalleryEffects {
                rebuild: true,
                save_table_view: Some(t),
                ..no_effects()
            }
        },
        GalleryInput::SetThumbWidth(w) => {
            let width = if w < 140 {
                140
            } else if w > 380 {
                380
            } else {
                w
            };
            if width == old.thumb_width {
                new == old && fx == no_effects()
            } else {
                new == AttachmentsGallery { thumb_width: width, ..old } && fx == GalleryEffects {
                    resize_timer: true,
                    ..no_effects()
                }
            }
        },
        GalleryInput::ApplyThumbWidth => new == old && fx == GalleryEffects {
            rebuild: !old.view_table,
            save_thumb_width: Some(old.thumb_width),
            ..no_effects()
        },
        GalleryInput::SetTypeFilter(b) => if b == old.type_filter {
            new == old && fx == no_effects()
        } else {
            &&& refiltered(old, new) && new.query == old.query && new.sort == old.sort
            &&& new.type_filter == b && new.preview is None
            &&& fx == GalleryEffects { rebuild: true, ..no_effects() }
        },
        GalleryInput::SetLoading(on) => new == AttachmentsGallery { loading: on, ..old } && fx == no_effects(),
        GalleryInput::Activate(i) => if (i as int) < old.items@.len() {
            new == AttachmentsGallery { preview: Some(i as usize), ..old } && fx == GalleryEffects {
                refresh_preview: true,
                ..no_effects()
            }
        } else {
            new == old && fx == no_effects()
        },
        GalleryInput::Prev => stepped_to(old, -1, new, fx),
        GalleryInput::Next => stepped_to(old, 1, new, fx),
        GalleryInput::ClosePreview => new == AttachmentsGallery { preview: None, ..old } && fx == GalleryEffects {
            drop_picture: true,
            ..no_effects()
        },
        GalleryInput::PreviewRendered(current) => new == old && fx == GalleryEffects {
            refresh_preview: current,
            ..no_effects()
        },
        GalleryInput::OpenCurrent => new == old && fx == GalleryEffects {
            open: match old.preview {
                Some(p) => with_data(old, p),
                None => None,
            },
            ..no_effects()
        },
        GalleryInput::GoToCurrent => match old.preview {
            Some(p) => went_to(old, p, new, fx),
            None => new == old && fx == no_effects(),
        },
        GalleryInput::OpenItem(i) => new == old && fx == GalleryEffects { open: with_data(old, i), ..no_effects() },
        GalleryInput::DownloadItem(i) => new == old && fx == GalleryEffects {
            download: with_data(old, i),
            ..no_effects()
        },
        GalleryInput::GoToItem(i) => went_to(old, i, new, fx),
        GalleryInput::OpenExternal(i) => new == AttachmentsGallery { preview: None, ..old } && fx == GalleryEffects {
            open: with_data(old, i),
            ..no_effects()
        },
    }
}

/// The lightbox moved by `delta`, wrapping; nothing when it is closed or
/// nothing is shown.
pub open spec fn stepped_to(old: AttachmentsGallery, delta: int, new: AttachmentsGallery, fx: GalleryEffects) -> bool {
    if old.items@.len() == 0 {
        new == old && fx == no_effects()
    } else {
        match old.preview {
            Some(p) => new == AttachmentsGallery {
                preview: Some(stepped(p as int, delta, old.items@.len() as int) as usize),
                ..old
            } && fx == GalleryEffects { refresh_preview: true, ..no_effects() },
            None => new == old && fx == no_effects(),
        }
    }
}

/// The message of the item at a display position is shown, leaving the
/// lightbox; nothing for a position with no item.
pub open spec fn went_to(old: AttachmentsGallery, display: usize, new: AttachmentsGallery, fx: GalleryEffects) -> bool {
    match item_at_spec(old, display) {
        Some(i) => new == AttachmentsGallery { preview: None, ..old } && fx == GalleryEffects { go_to: Some(i), ..no_effects() },
        None => new == old && fx == no_effects(),
    }
}

proof fn lemma_passing_len(items: Seq<GalleryItem>, tokens: Seq<Seq<char>>, type_filter: u32, n: int)
    requires
        0 <= n,
    ensures
        passing(items, tokens, type_filter, n).len() <= n,
    decreases n,
{
    if n > 0 {
        lemma_passing_len(items, tokens, type_filter, n - 1);
    }
}

impl AttachmentsGallery {
    /// An empty gallery with the remembered layout, sort and width.
    pub fn new(sort: SortBy, view_table: bool, thumb_width: i32) -> (g: AttachmentsGallery)
        ensures
            gallery_ok(g),
            g.all_items@.len() == 0,
            g.query@.len() == 0,
            g.sort == sort,
            g.type_filter == 0,
            g.view_table == view_table,
            g.thumb_width == clamp_thumb_width_spec(thumb_width),
            g.preview is None,
            g.loading,
    {
        let g = AttachmentsGallery {
            all_items: Vec::new(),
            items: Vec::new(),
            query: String::new(),
            sort,
            type_filter: 0,
            view_table,
            thumb_width: clamp_thumb_width(thumb_width),
            preview: None,
            loading: true,
        };
        assert(passing(g.all_items@, words(lower(g.query@)), 0, 0) =~= Seq::<usize>::empty());
        assert(g.items@ =~= Seq::<usize>::empty());
        g
    }

    fn refilter(&mut self)
        ensures
            shows(final(self).all_items@, final(self).query@, final(self).type_filter, final(self).sort, final(self).items@),
            final(self).items@.len() <= final(self).all_items@.len(),
            final(self).all_items == old(self).all_items,
            final(self).query == old(self).query,
            final(self).sort == old(self).sort,
            final(self).type_filter == old(self).type_filter,
            final(self).view_table == old(self).view_table,
            final(self).thumb_width == old(self).thumb_width,
            final(self).preview == old(self).preview,
            final(self).loading == old(self).loading,
    {
        let items = apply_filter(self.all_items.as_slice(), self.query.as_str(), self.type_filter, self.sort);
        proof {
            lemma_passing_len(
                self.all_items@,
                words(lower(self.query@)),
                self.type_filter,
                self.all_items@.len() as int,
            );
        }
        self.items = items;
    }

    fn data_at(&self, display: usize) -> (r: Option<usize>)
        ensures
            r == with_data(*self, display),
    {
        match item_at(&self.items, self.all_items.len(), display) {
            Some(i) => if self.all_items[i].data.is_some() {
                Some(i)
            } else {
                None
            },
            None => None,
        }
    }

    fn go_to(&mut self, display: usize) -> (fx: GalleryEffects)
        ensures
            went_to(*old(self), display, *final(self), fx),
    {
        match item_at(&self.items, self.all_items.len(), display) {
            Some(i) => {
                self.preview = None;
                GalleryEffects { go_to: Some(i), ..none() }
            },
            None => none(),
        }
    }

    fn step_by(&mut self, delta: i32) -> (fx: GalleryEffects)
        requires
            gallery_ok(*old(self)),
            delta == 1 || delta == -1,
        ensures
            stepped_to(*old(self), delta as int, *final(self), fx),
    {
        if self.items.len() == 0 {
            return none();
        }
        match self.preview {
            Some(p) => {
                proof {
                    let all = self.all_items@;
                    lemma_passing_len(all, words(lower(self.query@)), self.type_filter, all.len() as int);
                }
                let n = self.items.len();
                let next = if delta == 1 {
                    if p + 1 == n {
                        0
                    } else {
                        p + 1
                    }
                } else if p == 0 {
                    n - 1
                } else {
                    p - 1
                };
                proof {
                    let (pi, ni) = (p as int, n as int);
                    if delta == 1 {
                        if p + 1 == n {
                            assert((pi + 1) % ni == 0) by (nonlinear_arith)
                                requires
                                    pi + 1 == ni,
                                    ni > 0,
                            ;
                        } else {
                            assert((pi + 1) % ni == pi + 1) by (nonlinear_arith)
                                requires
                                    0 <= pi + 1 < ni,
                            ;
                        }
                    } else if p == 0 {
                        assert((pi - 1) % ni == ni - 1) by (nonlinear_arith)
                            requires
                                pi == 0,
                                ni > 0,
                        ;
                    } else {
                        assert((pi - 1) % ni == pi - 1) by (nonlinear_arith)
                            requires
                                0 <= pi - 1 < ni,
                        ;
                    }
                }
                self.preview = Some(next);
                GalleryEffects { refresh_preview: true, ..none() }
            },
            None => none(),
        }
    }

    /// Applies an input: the new state keeps the invariant, and the state and
    /// effects are those [`gallery_next`] describes.
    pub fn handle(&mut self, e: GalleryInput) -> (fx: GalleryEffects)
        requires
            gallery_ok(*old(self)),
        ensures
            gallery_ok(*final(self)),
            gallery_next(*old(self), e, *final(self), fx),
    {
        proof {
            lemma_passing_len(
                self.all_items@,
                words(lower(self.query@)),
                self.type_filter,
                self.all_items@.len() as int,
            );
        }
        match e {
            GalleryInput::SetItems(v) => {
                self.all_items = v;
                self.loading = false;
                self.preview = None;
                self.refilter();
                GalleryEffects { rebuild: true, drop_picture: true, ..none() }
            },
            GalleryInput::SetQuery(q) => {
                self.query = q;
                self.preview = None;
                self.refilter();
                GalleryEffects { rebuild: true, ..none() }
            },
            GalleryInput::SetSort(i) => {
                let sort = SortBy::from_index(i);
                if sort != self.sort {
                    self.sort = sort;
                    self.preview = None;
                    self.refilter();
                    GalleryEffects { rebuild: true, save_sort: Some(i), ..none() }
                } else {
                    none()
                }
            },
            GalleryInput::SortColumn(col) => {
                let sort = column_sort(col, self.sort);
                let row = sort.index();
                if sort != self.sort {
                    self.sort = sort;
                    self.preview = None;
                    self.refilter();
                    GalleryEffects { rebuild: true, save_sort: Some(row), sort_row: Some(row), ..none() }
                } else {
                    GalleryEffects { sort_row: Some(row), ..none() }
                }
            },
            GalleryInput::SetViewTable(t) => {
                if t != self.view_table {
                    self.view_table = t;
                    GalleryEffects { rebuild: true, save_table_view: Some(t), ..none() }
                } else {
                    none()
                }
            },
            GalleryInput::SetThumbWidth(w) => {
                let width = clamp_thumb_width(w);
                if width != self.thumb_width {
                    self.thumb_width = width;
                    GalleryEffects { resize_timer: true, ..none() }
                } else {
                    none()
                }
            },
            GalleryInput::ApplyThumbWidth => GalleryEffects {
                rebuild: !self.view_table,
                save_thumb_width: Some(self.thumb_width),
                ..none()
            },
            GalleryInput::SetTypeFilter(b) => {
                if b != self.type_filter {
                    self.type_filter = b;
                    self.preview = None;
                    self.refilter();
                    GalleryEffects { rebuild: true, ..none() }
                } else {
                    none()
                }
            },
            GalleryInput::SetLoading(on) => {
                self.loading = on;
                none()
            },
            GalleryInput::Activate(i) => {
                if (i as usize) < self.items.len() {
                    self.preview = Some(i as usize);
                    GalleryEffects { refresh_preview: true, ..none() }
                } else {
                    none()
                }
            },
            GalleryInput::Prev => self.step_by(-1),
            GalleryInput::Next => self.step_by(1),
            GalleryInput::ClosePreview => {
                self.preview = None;
                GalleryEffects { drop_picture: true, ..none() }
            },
            GalleryInput::PreviewRendered(current) => GalleryEffects { refresh_preview: current, ..none() },
            GalleryInput::OpenCurrent => {
                let open = match self.preview {
                    Some(p) => self.data_at(p),
                    None => None,
                };
                GalleryEffects { open, ..none() }
            },
            GalleryInput::GoToCurrent => match self.preview {
                Some(p) => self.go_to(p),
                None => none(),
            },
            GalleryInput::OpenItem(i) => {
                let open = self.data_at(i);
                GalleryEffects { open, ..none() }
            },
            GalleryInput::DownloadItem(i) => {
                let download = self.data_at(i);
                GalleryEffects { download, ..none() }
            },
            GalleryInput::GoToItem(i) => self.go_to(i),
            GalleryInput::OpenExternal(i) => {
                let open = self.data_at(i);
                self.preview = None;
                GalleryEffects { open, ..none() }
            },
        }
    }
}

pub open spec fn clamp_thumb_width_spec(w: i32) -> i32 {
    if w < 140 {
        140
    } else if w > 380 {
        380
    } else {
        w
    }
}

} // verus!

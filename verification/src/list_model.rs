//! The message list as a state machine: its settings, search, paging,
//! conversations and selection, what each input does to them, and what it
//! asks of the list widget and the window (rebuild the rows, move the
//! selection, open a message).

use vstd::prelude::*;
use crate::list::{load_more, searching, BulkAction, SearchScope, SortOrder, RENDER_CAP};
use crate::list_state::{
    after_removal, append_messages, append_needs_rebuild, first_removed, first_with_id, keys_without, new_arrivals,
    move_target, move_target_of, remove_messages, selection_changed, selection_step, set_flag, thread_open,
    toggle_thread, toggled_after, with_flag, without_ids, AfterRemoval, Flag,
};
use crate::model::Message;
use crate::plan::{
    convs_view, first_keys, group_keys, groups_ok, is_open, lemma_members_of, members_of, plan_list, planned,
    threads_view, toggled_view, ListPlan,
};
use crate::reader::{find_message, key_of, lemma_find_message};
use crate::text::trim;

verus! {

/// How the rows are built again.
#[derive(Debug, Clone, Copy, PartialEq, Eq, Structural)]
pub enum Rebuild {
    /// They stay as they are.
    No,
    /// From the top.
    Full,
    /// Keeping the scroll position (growing the list beneath the user).
    KeepingScroll,
}

/// The message list's state.
pub struct MessageList {
    /// The folder's indexed messages.
    pub all: Vec<Message>,
    /// Every folder's messages, for a search over all of them.
    pub search_pool: Vec<Message>,
    /// The rows on screen, in order.
    pub shown: Vec<Message>,
    pub query: String,
    pub scope: SearchScope,
    pub sort: SortOrder,
    pub threading: bool,
    pub thread_links: Vec<(u32, String, String)>,
    /// Whether conversations start open.
    pub default_expanded: bool,
    /// Conversations toggled away from the default.
    pub toggled: Vec<(u32, String)>,
    pub render_limit: usize,
    /// How many messages the last rebuild rendered (the page, counted
    /// before it is grouped into conversations), and how many matched.
    pub rendered_count: usize,
    pub total_matches: usize,
    pub index_complete: bool,
    pub gravatar: bool,
    pub avatars: bool,
    pub sender_logos: bool,
    pub show_recipient: bool,
    pub preview_lines: u32,
    pub colorize: bool,
    /// The message open in the reader.
    pub selected_id: Option<(u32, u32)>,
    /// Every selected row's key.
    pub selected_ids: Vec<(u32, u32)>,
    /// Selection changes still expected from a reader-driven selection.
    pub from_reader: u8,
    /// What the reader asked to have selected, as the rows show it.
    pub reader_keys: Vec<(u32, u32)>,
    /// What the reader asked to have selected, to be mirrored once the rows
    /// are built.
    pub reader_request: Vec<(u32, u32)>,
    /// The conversation of each message of a conversation with several, as
    /// the last rebuild grouped them.
    pub msg_thread: Vec<((u32, u32), (u32, String))>,
}

/// What the list is told (those inputs that are not about widgets alone).
pub enum MessageListInput {
    SetMessages(Vec<Message>),
    AppendMessages(Vec<Message>),
    SetLoading,
    ResetPaging,
    LoadMore,
    SetIndexComplete(bool),
    SetThreadLinks(Vec<(u32, String, String)>),
    SetThreading(bool),
    SetThreadsExpanded(bool),
    RefreshDates,
    SetSenderLogos(bool),
    SetAvatars(bool),
    SetGravatar(bool),
    SetShowRecipient(bool),
    ContactPhotosChanged,
    SetPreviewLines(u32),
    SetColorize(bool),
    DayChanged,
    Search(String),
    SetScope(SearchScope),
    SetSearchPool(Vec<Message>),
    SetSort(SortOrder),
    /// The widget's selection changed to these rows' keys.
    SelectionChanged(Vec<(u32, u32)>),
    ClearSelection,
    /// Select the message with this key and open it.
    SelectAndLoad((u32, u32)),
    ToggleThread((u32, String)),
    FinishCollapseThread((u32, String)),
    /// A row was activated (its position).
    RowActivated(usize),
    SetFlag { id: u32, flag: Flag, on: bool },
    Remove(Vec<u32>),
    /// The reader's selection: mirror whichever of these messages the list
    /// can show, opening the conversations of those hidden in a closed one.
    SelectFromReader(Vec<(u32, u32)>),
    /// Apply an action to every selected message.
    Bulk(BulkAction),
    /// Move the selection by `delta` rows from the first selected one
    /// (`current`), or from an end when none is.
    MoveSelection { delta: i32, current: Option<usize> },
}

/// What the widget and the window do after an input.
pub struct MessageListEffects {
    pub rebuild: Rebuild,
    /// Scroll back to the top.
    pub scroll_top: bool,
    /// Empty the search entry.
    pub clear_entry: bool,
    /// Tell the window a search started (`true`) or ended.
    pub search_active: Option<bool>,
    /// Arm the timer for the next midnight.
    pub midnight_timer: bool,
    /// Tell the reader which rows are selected.
    pub report_selection: bool,
    /// Open the message with this key in the reader.
    pub open: Option<(u32, u32)>,
    /// Select again the rows of `selected_ids`.
    pub reselect: bool,
    /// Unselect every row.
    pub unselect_all: bool,
    /// Select (and focus) the row at this position.
    pub select_row: Option<usize>,
    /// Nothing is left to show: clear the reader.
    pub selection_cleared: bool,
    /// Slide this conversation's replies shut, then finish collapsing it.
    pub start_collapse: Option<(u32, String)>,
    /// Insert this conversation's replies beneath its head.
    pub expand: Option<(u32, String)>,
    /// Drop this conversation's reply rows.
    pub collapse: Option<(u32, String)>,
    /// The row at this position was activated.
    pub activated: Option<usize>,
    /// Tell the row at this position its flag changed.
    pub row_flag: Option<usize>,
    /// Recompute the unread mark of this message's conversation.
    pub thread_unread_of: Option<u32>,
    /// Once the rows are built, select the reader's messages
    /// (`mirror_reader`).
    pub mirror_reader: bool,
    /// Hand the window this action on the messages of these rows.
    pub bulk: Option<(BulkAction, Vec<usize>)>,
}

pub open spec fn calm() -> MessageListEffects {
    MessageListEffects {
        rebuild: Rebuild::No,
        scroll_top: false,
        clear_entry: false,
        search_active: None,
        midnight_timer: false,
        report_selection: false,
        open: None,
        reselect: false,
        unselect_all: false,
        select_row: None,
        selection_cleared: false,
        start_collapse: None,
        expand: None,
        collapse: None,
        activated: None,
        row_flag: None,
        thread_unread_of: None,
        mirror_reader: false,
        bulk: None,
    }
}

fn calm_exec() -> (r: MessageListEffects)
    ensures
        r == calm(),
{
    MessageListEffects {
        rebuild: Rebuild::No,
        scroll_top: false,
        clear_entry: false,
        search_active: None,
        midnight_timer: false,
        report_selection: false,
        open: None,
        reselect: false,
        unselect_all: false,
        select_row: None,
        selection_cleared: false,
        start_collapse: None,
        expand: None,
        collapse: None,
        activated: None,
        row_flag: None,
        thread_unread_of: None,
        mirror_reader: false,
        bulk: None,
    }
}

pub open spec fn rebuilt(r: Rebuild) -> MessageListEffects {
    MessageListEffects { rebuild: r, ..calm() }
}

pub open spec fn links_view(v: Seq<(u32, String, String)>) -> Seq<(u32, Seq<char>, Seq<char>)> {
    Seq::new(v.len(), |i: int| (v[i].0, v[i].1@, v[i].2@))
}

/// A setting: when it changes, the rows are built again.
pub open spec fn setting(changed: bool, new: MessageList, changed_to: MessageList, old: MessageList, fx: MessageListEffects, how: Rebuild) -> bool {
    if changed {
        new == changed_to && fx == rebuilt(how)
    } else {
        new == old && fx == calm()
    }
}

/// Paging and search settings (see [`list_next`]).
pub open spec fn paging_next(old: MessageList, e: MessageListInput, new: MessageList, fx: MessageListEffects) -> bool {
    match e {
        MessageListInput::SetMessages(v) => {
            &&& new.all@ == v@
            &&& new == MessageList { all: new.all, ..old }
            &&& fx == rebuilt(Rebuild::KeepingScroll)
        },
        MessageListInput::AppendMessages(v) => {
            let added = new_arrivals(old.all@, v@, v@.len() as int);
            &&& new.all@ == old.all@ + added
            &&& new == MessageList { all: new.all, ..old }
            &&& fx == rebuilt(
                if added.len() > 0 && (old.query@.len() > 0 || old.sort != SortOrder::DateNewest || old.render_limit
                    > old.rendered_count) {
                    Rebuild::KeepingScroll
                } else {
                    Rebuild::No
                },
            )
        },
        MessageListInput::SetLoading => {
            &&& new.all@.len() == 0
            &&& new.query@.len() == 0
            &&& new == MessageList { all: new.all, query: new.query, render_limit: RENDER_CAP, ..old }
            &&& fx == MessageListEffects { rebuild: Rebuild::Full, clear_entry: old.query@.len() > 0, ..calm() }
        },
        MessageListInput::ResetPaging => {
            &&& new.query@.len() == 0
            &&& new == MessageList { query: new.query, render_limit: RENDER_CAP, ..old }
            &&& fx == MessageListEffects { scroll_top: true, clear_entry: old.query@.len() > 0, ..calm() }
        },
        MessageListInput::LoadMore => if old.rendered_count < old.total_matches || !old.index_complete {
            let n = if old.render_limit + RENDER_CAP > usize::MAX {
                usize::MAX as int
            } else {
                old.render_limit + RENDER_CAP
            };
            new == MessageList { render_limit: n as usize, ..old } && fx == rebuilt(Rebuild::KeepingScroll)
        } else {
            new == old && fx == calm()
        },
        MessageListInput::SetIndexComplete(c) => new == MessageList { index_complete: c, ..old } && fx == calm(),
        MessageListInput::Search(q) => {
            let was = trim(old.query@).len() > 0;
            let now = trim(q@).len() > 0;
            &&& new.query@ == q@
            &&& new == MessageList { query: new.query, render_limit: RENDER_CAP, ..old }
            &&& fx == MessageListEffects {
                rebuild: Rebuild::Full,
                search_active: if was != now {
                    Some(now)
                } else {
                    None
                },
                ..calm()
            }
        },
        MessageListInput::SetScope(s) => if s == old.scope {
            new == old && fx == calm()
        } else if trim(old.query@).len() > 0 {
            new == MessageList { scope: s, render_limit: RENDER_CAP, ..old } && fx == rebuilt(Rebuild::Full)
        } else {
            new == MessageList { scope: s, ..old } && fx == calm()
        },
        MessageListInput::SetSearchPool(pool) => {
            let used = trim(old.query@).len() > 0 && old.scope == SearchScope::AllFolders;
            &&& new.search_pool@ == pool@
            &&& new == MessageList {
                search_pool: new.search_pool,
                render_limit: if used {
                    RENDER_CAP
                } else {
                    old.render_limit
                },
                ..old
            }
            &&& fx == rebuilt(
                if used {
                    Rebuild::KeepingScroll
                } else {
                    Rebuild::No
                },
            )
        },
        MessageListInput::SetSort(o) => setting(o != old.sort, new, MessageList { sort: o, ..old }, old, fx, Rebuild::Full),
        _ => false,
    }
}

/// Display settings (see [`list_next`]).
pub open spec fn display_next(old: MessageList, e: MessageListInput, new: MessageList, fx: MessageListEffects) -> bool {
    match e {
        MessageListInput::SetThreadLinks(links) => if links_view(links@) == links_view(old.thread_links@) {
            new == old && fx == calm()
        } else {
            &&& links_view(new.thread_links@) == links_view(links@)
            &&& new == MessageList { thread_links: new.thread_links, ..old }
            &&& fx == rebuilt(
                if old.threading {
                    Rebuild::KeepingScroll
                } else {
                    Rebuild::No
                },
            )
        },
        MessageListInput::SetThreading(on) => setting(
            on != old.threading,
            new,
            MessageList { threading: on, ..old },
            old,
            fx,
            Rebuild::Full,
        ),
        MessageListInput::SetThreadsExpanded(on) => if on == old.default_expanded {
            new == old && fx == calm()
        } else {
            &&& new.toggled@.len() == 0
            &&& new == MessageList { default_expanded: on, toggled: new.toggled, ..old }
            &&& fx == rebuilt(Rebuild::Full)
        },
        MessageListInput::RefreshDates => new == old && fx == rebuilt(Rebuild::KeepingScroll),
        MessageListInput::SetSenderLogos(on) => setting(
            on != old.sender_logos,
            new,
            MessageList { sender_logos: on, ..old },
            old,
            fx,
            Rebuild::KeepingScroll,
        ),
        MessageListInput::SetAvatars(on) => setting(
            on != old.avatars,
            new,
            MessageList { avatars: on, ..old },
            old,
            fx,
            Rebuild::KeepingScroll,
        ),
        MessageListInput::SetGravatar(on) => setting(
            on != old.gravatar,
            new,
            MessageList { gravatar: on, ..old },
            old,
            fx,
            Rebuild::Full,
        ),
        MessageListInput::SetShowRecipient(on) => setting(
            on != old.show_recipient,
            new,
            MessageList { show_recipient: on, ..old },
            old,
            fx,
            Rebuild::Full,
        ),
        MessageListInput::ContactPhotosChanged => new == old && fx == rebuilt(
            if old.avatars {
                Rebuild::KeepingScroll
            } else {
                Rebuild::No
            },
        ),
        MessageListInput::SetPreviewLines(l) => {
            let lines: u32 = if l < 3 {
                l
            } else {
                3
            };
            setting(lines != old.preview_lines, new, MessageList { preview_lines: lines, ..old }, old, fx, Rebuild::Full)
        },
        MessageListInput::SetColorize(on) => setting(
            on != old.colorize,
            new,
            MessageList { colorize: on, ..old },
            old,
            fx,
            Rebuild::Full,
        ),
        MessageListInput::DayChanged => new == old && fx == MessageListEffects {
            rebuild: Rebuild::Full,
            midnight_timer: true,
            ..calm()
        },
        _ => false,
    }
}

/// The positions of the rows whose messages are among `keys`, in order.
pub open spec fn rows_with_keys(shown: Seq<Message>, keys: Seq<(u32, u32)>, n: int) -> Seq<usize>
    decreases n,
{
    if n <= 0 {
        seq![]
    } else {
        let r = rows_with_keys(shown, keys, n - 1);
        if keys.contains(key_of(shown[n - 1])) {
            r.push((n - 1) as usize)
        } else {
            r
        }
    }
}

/// The message keys of these rows.
pub open spec fn keys_at(shown: Seq<Message>, rows: Seq<usize>) -> Seq<(u32, u32)> {
    Seq::new(rows.len(), |i: int| key_of(shown[rows[i] as int]))
}

pub open spec fn members_view(v: Seq<((u32, u32), (u32, String))>) -> Seq<((u32, u32), (u32, Seq<char>))> {
    Seq::new(v.len(), |i: int| (v[i].0, (v[i].1.0, v[i].1.1@)))
}

/// The messages a rebuild draws from: every folder's during a search over
/// all folders (once that pool has arrived), else the folder's own.
pub open spec fn active_source(l: MessageList) -> Seq<Message> {
    if trim(l.query@).len() > 0 && l.scope == SearchScope::AllFolders && l.search_pool@.len() > 0 {
        l.search_pool@
    } else {
        l.all@
    }
}

/// Each message's conversation, for the first `n` conversations of a page
/// that hold several messages.
pub open spec fn thread_members(page: Seq<Message>, convs: Seq<((u32, Seq<char>), Seq<usize>)>, n: int) -> Seq<((u32, u32), (u32, Seq<char>))>
    decreases n,
{
    if n <= 0 {
        seq![]
    } else {
        let c = convs[n - 1];
        thread_members(page, convs, n - 1) + if c.1.len() > 1 {
            Seq::new(c.1.len(), |j: int| (key_of(page[c.1[j] as int]), c.0))
        } else {
            seq![]
        }
    }
}

/// The rows a plan shows, as messages of the source.
pub open spec fn shown_of(source: Seq<Message>, p: ListPlan) -> Seq<Message> {
    Seq::new(p.rows@.len(), |i: int| source[p.rows@[i].pos as int])
}

/// The conversation recorded for a message, first entry on.
pub open spec fn thread_of(members: Seq<((u32, u32), (u32, Seq<char>))>, k: (u32, u32), from: int) -> Option<(u32, Seq<char>)>
    decreases members.len() - from,
{
    if from < 0 || from >= members.len() {
        None
    } else if members[from].0 == k {
        Some(members[from].1)
    } else {
        thread_of(members, k, from + 1)
    }
}

/// What the reader asks for: its selection, or the viewed message when it
/// selects nothing.
pub open spec fn reader_wanted(keys: Seq<(u32, u32)>, viewed: Option<(u32, u32)>) -> Seq<(u32, u32)> {
    if keys.len() == 0 {
        match viewed {
            Some(k) => seq![k],
            None => seq![],
        }
    } else {
        keys
    }
}

/// The toggles after opening, one by one, the conversations of the first
/// `n` wanted messages that have no row (a reply in a closed conversation).
pub open spec fn opened_for(
    t: Seq<(u32, Seq<char>)>,
    shown: Seq<Message>,
    members: Seq<((u32, u32), (u32, Seq<char>))>,
    keys: Seq<(u32, u32)>,
    d: bool,
    n: int,
) -> Seq<(u32, Seq<char>)>
    decreases n,
{
    if n <= 0 {
        t
    } else {
        let r = opened_for(t, shown, members, keys, d, n - 1);
        let k = keys[n - 1];
        if find_message(shown, k, 0) is Some {
            r
        } else {
            match thread_of(members, k, 0) {
                Some(c) => if is_open(r, c, d) {
                    r
                } else {
                    toggled_after(r, c)
                },
                None => r,
            }
        }
    }
}

/// Whether any of the first `n` wanted messages has no row but a
/// conversation.
pub open spec fn any_hidden(
    shown: Seq<Message>,
    members: Seq<((u32, u32), (u32, Seq<char>))>,
    keys: Seq<(u32, u32)>,
    n: int,
) -> bool {
    exists|j: int|
        0 <= j < n && find_message(shown, #[trigger] keys[j], 0) is None && thread_of(members, keys[j], 0) is Some
}

/// Selection, conversations and rows (see [`list_next`]).
pub open spec fn rows_next(old: MessageList, e: MessageListInput, new: MessageList, fx: MessageListEffects) -> bool {
    match e {
        MessageListInput::SelectionChanged(keys) => {
            let step = selection_step(old.from_reader, old.reader_keys@, keys@, old.selected_id);
            let echo = old.from_reader > 0 && keys@ == old.reader_keys@;
            &&& new.selected_ids@ == keys@
            &&& new == MessageList {
                from_reader: step.0,
                selected_id: step.2,
                selected_ids: new.selected_ids,
                ..old
            }
            &&& fx == MessageListEffects {
                report_selection: step.1,
                open: match step.3 {
                    Some(k) => if find_message(old.shown@, k, 0) is Some {
                        Some(k)
                    } else {
                        None
                    },
                    None => None,
                },
                ..calm()
            }
        },
        MessageListInput::ClearSelection => {
            &&& new.selected_ids@.len() == 0
            &&& new == MessageList { selected_id: None, selected_ids: new.selected_ids, ..old }
            &&& fx == MessageListEffects { unselect_all: true, ..calm() }
        },
        MessageListInput::SelectAndLoad(k) => if find_message(old.shown@, k, 0) is Some {
            &&& new.selected_ids@ == seq![k]
            &&& new == MessageList { selected_id: Some(k), selected_ids: new.selected_ids, ..old }
            &&& fx == MessageListEffects { reselect: true, open: Some(k), ..calm() }
        } else {
            new == old && fx == calm()
        },
        MessageListInput::ToggleThread(key) => {
            let k = (key.0, key.1@);
            if is_open(toggled_view(old.toggled@), k, old.default_expanded) {
                new == old && fx == MessageListEffects { start_collapse: Some(key), ..calm() }
            } else {
                &&& toggled_view(new.toggled@) == toggled_after(toggled_view(old.toggled@), k)
                &&& new == MessageList { toggled: new.toggled, ..old }
                &&& fx == MessageListEffects { expand: Some(key), ..calm() }
            }
        },
        MessageListInput::FinishCollapseThread(key) => {
            &&& toggled_view(new.toggled@) == toggled_after(toggled_view(old.toggled@), (key.0, key.1@))
            &&& new == MessageList { toggled: new.toggled, ..old }
            &&& fx == MessageListEffects { collapse: Some(key), ..calm() }
        },
        MessageListInput::RowActivated(i) => new == old && fx == MessageListEffects {
            activated: if i < old.shown@.len() {
                Some(i)
            } else {
                None
            },
            ..calm()
        },
        MessageListInput::SetFlag { id, flag, on } => {
            &&& new.all@ == (match first_with_id(old.all@, id, 0) {
                Some(i) => old.all@.update(i, with_flag(old.all@[i], flag, on)),
                None => old.all@,
            })
            &&& new.shown@ == (match first_with_id(old.shown@, id, 0) {
                Some(i) => old.shown@.update(i, with_flag(old.shown@[i], flag, on)),
                None => old.shown@,
            })
            &&& new == MessageList { all: new.all, shown: new.shown, ..old }
            &&& fx == MessageListEffects {
                row_flag: match first_with_id(old.shown@, id, 0) {
                    Some(i) => Some(i as usize),
                    None => None,
                },
                thread_unread_of: if flag == Flag::Read {
                    Some(id)
                } else {
                    None
                },
                ..calm()
            }
        },
        MessageListInput::Remove(ids) => if ids@.len() == 0 {
            new == old && fx == calm()
        } else {
            let was_viewed = match old.selected_id {
                Some(k) => ids@.contains(k.1),
                None => false,
            };
            let after = after_removal(
                was_viewed,
                first_removed(old.shown@, ids@, 0),
                without_ids(old.shown@, ids@).len() as int,
            );
            &&& new.all@ == without_ids(old.all@, ids@)
            &&& new.shown@ == without_ids(old.shown@, ids@)
            &&& new.selected_ids@ == keys_without(old.selected_ids@, ids@)
            &&& new == MessageList {
                all: new.all,
                shown: new.shown,
                selected_ids: new.selected_ids,
                selected_id: if was_viewed {
                    None
                } else {
                    old.selected_id
                },
                ..old
            }
            &&& fx == MessageListEffects {
                select_row: match after {
                    AfterRemoval::Select(i) => Some(i),
                    _ => None,
                },
                selection_cleared: after == AfterRemoval::Clear,
                ..calm()
            }
        },
        MessageListInput::SelectFromReader(keys) => {
            let want = reader_wanted(keys@, old.selected_id);
            let mv = members_view(old.msg_thread@);
            &&& toggled_view(new.toggled@) == opened_for(
                toggled_view(old.toggled@),
                old.shown@,
                mv,
                want,
                old.default_expanded,
                want.len() as int,
            )
            &&& new.reader_request@ == want
            &&& new == MessageList { toggled: new.toggled, reader_request: new.reader_request, ..old }
            &&& fx == MessageListEffects {
                rebuild: if any_hidden(old.shown@, mv, want, want.len() as int) {
                    Rebuild::KeepingScroll
                } else {
                    Rebuild::No
                },
                mirror_reader: true,
                ..calm()
            }
        },
        MessageListInput::Bulk(action) => {
            let rows = rows_with_keys(old.shown@, old.selected_ids@, old.shown@.len() as int);
            &&& new.selected_ids@.len() == 0
            &&& new == MessageList { selected_id: None, selected_ids: new.selected_ids, ..old }
            &&& fx == MessageListEffects { bulk: fx.bulk, unselect_all: true, ..calm() }
            &&& if rows.len() > 0 {
                fx.bulk matches Some(b) && b.0 == action && b.1@ == rows
            } else {
                fx.bulk is None
            }
        },
        MessageListInput::MoveSelection { delta, current } => new == old && if old.shown@.len() <= i32::MAX {
            let cur = match current {
                Some(c) => if c < old.shown@.len() {
                    Some(c)
                } else {
                    None
                },
                None => None,
            };
            let target = move_target_of(cur, delta, old.shown@.len() as usize);
            fx == MessageListEffects { select_row: target, unselect_all: target is Some, ..calm() }
        } else {
            fx == calm()
        },
        _ => false,
    }
}

/// What an input does to the list and what it asks for.
pub open spec fn list_next(old: MessageList, e: MessageListInput, new: MessageList, fx: MessageListEffects) -> bool {
    match e {
        MessageListInput::SetMessages(_) | MessageListInput::AppendMessages(_) | MessageListInput::SetLoading | MessageListInput::ResetPaging
        | MessageListInput::LoadMore | MessageListInput::SetIndexComplete(_) | MessageListInput::Search(_) | MessageListInput::SetScope(_)
        | MessageListInput::SetSearchPool(_) | MessageListInput::SetSort(_) => paging_next(old, e, new, fx),
        MessageListInput::SetThreadLinks(_) | MessageListInput::SetThreading(_) | MessageListInput::SetThreadsExpanded(_)
        | MessageListInput::RefreshDates | MessageListInput::SetSenderLogos(_) | MessageListInput::SetAvatars(_) | MessageListInput::SetGravatar(_)
        | MessageListInput::SetShowRecipient(_) | MessageListInput::ContactPhotosChanged | MessageListInput::SetPreviewLines(_)
        | MessageListInput::SetColorize(_) | MessageListInput::DayChanged => display_next(old, e, new, fx),
        _ => rows_next(old, e, new, fx),
    }
}

/// Changing whether conversations start open opens or closes every
/// conversation accordingly: the toggles made under the old default are
/// forgotten.
pub proof fn law_new_default_applies_everywhere(
    old: MessageList,
    on: bool,
    new: MessageList,
    fx: MessageListEffects,
    k: (u32, Seq<char>),
)
    requires
        on != old.default_expanded,
        list_next(old, MessageListInput::SetThreadsExpanded(on), new, fx),
    ensures
        is_open(toggled_view(new.toggled@), k, new.default_expanded) == on,
{
    assert(toggled_view(new.toggled@) =~= Seq::<(u32, Seq<char>)>::empty());
}

fn same_links(a: &Vec<(u32, String, String)>, b: &Vec<(u32, String, String)>) -> (r: bool)
    ensures
        r == (links_view(a@) == links_view(b@)),
{
    if a.len() != b.len() {
        return false;
    }
    let mut i: usize = 0;
    while i < a.len()
        invariant
            i <= a.len(),
            a.len() == b.len(),
            forall|j: int| 0 <= j < i ==> links_view(a@)[j] == links_view(b@)[j],
        decreases a.len() - i,
    {
        let a1 = crate::text::chars_of(a[i].1.as_str());
        let b1 = crate::text::chars_of(b[i].1.as_str());
        let a2 = crate::text::chars_of(a[i].2.as_str());
        let b2 = crate::text::chars_of(b[i].2.as_str());
        if a[i].0 != b[i].0 || !crate::text::seq_eq(&a1, &b1) || !crate::text::seq_eq(&a2, &b2) {
            assert(links_view(a@)[i as int] != links_view(b@)[i as int]);
            return false;
        }
        i += 1;
    }
    assert(links_view(a@) =~= links_view(b@));
    true
}

fn keys_contain(keys: &Vec<(u32, u32)>, k: (u32, u32)) -> (r: bool)
    ensures
        r == keys@.contains(k),
{
    let mut i: usize = 0;
    while i < keys.len()
        invariant
            i <= keys@.len(),
            forall|x: int| 0 <= x < i ==> keys@[x] != k,
        decreases keys@.len() - i,
    {
        if keys[i].0 == k.0 && keys[i].1 == k.1 {
            assert(keys@[i as int] == k);
            return true;
        }
        i += 1;
    }
    false
}

fn shown_has(shown: &Vec<Message>, k: (u32, u32)) -> (r: bool)
    ensures
        r == (find_message(shown@, k, 0) is Some),
{
    let mut i: usize = 0;
    while i < shown.len()
        invariant
            i <= shown.len(),
            find_message(shown@, k, 0) == find_message(shown@, k, i as int),
        decreases shown.len() - i,
    {
        if shown[i].account_id == k.0 && shown[i].id == k.1 {
            return true;
        }
        i += 1;
    }
    false
}

/// The plan of `source` under the list's settings, its rows as messages,
/// and the conversation of each message of a conversation with several.
fn build_rows(source: &[Message], l: &MessageList) -> (r: (Vec<Message>, Vec<((u32, u32), (u32, String))>, ListPlan))
    ensures
        planned(
            source@,
            l.query@,
            l.sort,
            l.render_limit,
            l.threading,
            l.thread_links@,
            l.toggled@,
            l.default_expanded,
            r.2,
        ),
        r.0@ == shown_of(source@, r.2),
        members_view(r.1@) == thread_members(r.2.page@, convs_view(r.2.conversations@), r.2.conversations@.len() as int),
{
    let p = plan_list(
        source,
        l.query.as_str(),
        l.sort,
        l.render_limit,
        l.threading,
        l.thread_links.as_slice(),
        l.toggled.as_slice(),
        l.default_expanded,
    );
    let mut shown: Vec<Message> = Vec::new();
    let mut i: usize = 0;
    while i < p.rows.len()
        invariant
            i <= p.rows@.len(),
            forall|x: int| 0 <= x < p.rows@.len() ==> #[trigger] p.rows@[x].pos < source@.len(),
            shown@ == shown_of(source@, p).take(i as int),
        decreases p.rows@.len() - i,
    {
        shown.push(source[p.rows[i].pos].duplicate());
        assert(shown@ =~= shown_of(source@, p).take(i + 1));
        i += 1;
    }
    assert(shown_of(source@, p).take(p.rows@.len() as int) =~= shown_of(source@, p));
    let ghost cv = convs_view(p.conversations@);
    let mut members: Vec<((u32, u32), (u32, String))> = Vec::new();
    let mut c: usize = 0;
    let plen = p.page.len();
    proof {
        assert forall|g: int| 0 <= g < cv.len() implies forall|j: int|
            0 <= j < (#[trigger] cv[g]).1.len() ==> #[trigger] cv[g].1[j] < p.page@.len() by {
            lemma_members_in_page(p, g);
        }
    }
    while c < p.conversations.len()
        invariant
            c <= p.conversations@.len(),
            cv == convs_view(p.conversations@),
            forall|g: int| 0 <= g < cv.len() ==> forall|j: int|
                0 <= j < (#[trigger] cv[g]).1.len() ==> #[trigger] cv[g].1[j] < p.page@.len(),
            members_view(members@) == thread_members(p.page@, cv, c as int),
        decreases p.conversations@.len() - c,
    {
        let conv = &p.conversations[c];
        assert(cv[c as int] == ((conv.key.0, conv.key.1@), conv.members@));
        if conv.members.len() > 1 {
            let ghost before = members_view(members@);
            assert forall|x: int| 0 <= x < conv.members@.len() implies #[trigger] conv.members@[x] < p.page@.len() by {
                assert(cv[c as int].1[x] == conv.members@[x]);
            }
            let mut j: usize = 0;
            while j < conv.members.len()
                invariant
                    j <= conv.members@.len(),
                    cv[c as int] == ((conv.key.0, conv.key.1@), conv.members@),
                    forall|x: int| 0 <= x < conv.members@.len() ==> #[trigger] conv.members@[x] < p.page@.len(),
                    members_view(members@) == before + Seq::new(
                        j as nat,
                        |x: int| (key_of(p.page@[conv.members@[x] as int]), (conv.key.0, conv.key.1@)),
                    ),
                decreases conv.members@.len() - j,
            {
                let m = &p.page[conv.members[j]];
                let ghost mv0 = members_view(members@);
                let entry = ((m.account_id, m.id), (conv.key.0, conv.key.1.clone()));
                members.push(entry);
                assert(members_view(members@) =~= mv0.push((entry.0, (entry.1.0, entry.1.1@))));
                assert(key_of(p.page@[conv.members@[j as int] as int]) == entry.0);
                assert(members_view(members@) =~= before + Seq::new(
                    (j + 1) as nat,
                    |x: int| (key_of(p.page@[conv.members@[x] as int]), (conv.key.0, conv.key.1@)),
                ));
                j += 1;
            }
            assert(members_view(members@) =~= thread_members(p.page@, cv, c + 1));
        } else {
            assert(thread_members(p.page@, cv, c + 1) =~= thread_members(p.page@, cv, c as int));
        }
        c += 1;
    }
    (shown, members, p)
}

/// A plan's conversations hold positions of its page.
proof fn lemma_members_in_page(p: ListPlan, g: int)
    requires
        groups_ok(p.page@, group_keys(threads_view(&p.threads), p.page@), convs_view(p.conversations@)),
        0 <= g < p.conversations@.len(),
        p.page@.len() <= usize::MAX,
    ensures
        forall|j: int| 0 <= j < convs_view(p.conversations@)[g].1.len() ==> #[trigger] convs_view(p.conversations@)[g].1[j] < p.page@.len(),
{
    let ks = group_keys(threads_view(&p.threads), p.page@);
    let fk = first_keys(ks, ks.len() as int);
    let cv = convs_view(p.conversations@);
    assert(cv[g].0 == fk[g]);
    let mo = members_of(ks, fk[g], ks.len() as int);
    lemma_members_of(ks, fk[g], ks.len() as int);
    assert forall|j: int| 0 <= j < cv[g].1.len() implies #[trigger] cv[g].1[j] < p.page@.len() by {
        assert(cv[g].1.contains(cv[g].1[j]));
        assert(mo.contains(cv[g].1[j]));
        let k = choose|k: int| 0 <= k < mo.len() && mo[k] == cv[g].1[j];
        assert(mo[k] < ks.len());
    }
}

impl MessageList {
    /// An empty list with the remembered preferences.
    pub fn new(sort: SortOrder, threading: bool, default_expanded: bool, preview_lines: u32) -> (m: MessageList)
        ensures
            m.all@.len() == 0 && m.search_pool@.len() == 0 && m.shown@.len() == 0,
            m.query@.len() == 0,
            m.scope == SearchScope::ThisFolder,
            m.sort == sort,
            m.threading == threading,
            m.default_expanded == default_expanded,
            m.toggled@.len() == 0 && m.thread_links@.len() == 0,
            m.render_limit == RENDER_CAP,
            m.rendered_count == 0 && m.total_matches == 0,
            !m.index_complete,
            m.preview_lines == (if preview_lines < 3 {
                preview_lines
            } else {
                3
            }),
            m.selected_id is None && m.selected_ids@.len() == 0,
            m.from_reader == 0 && m.reader_keys@.len() == 0,
    {
        MessageList {
            all: Vec::new(),
            search_pool: Vec::new(),
            shown: Vec::new(),
            query: String::new(),
            scope: SearchScope::ThisFolder,
            sort,
            threading,
            thread_links: Vec::new(),
            default_expanded,
            toggled: Vec::new(),
            render_limit: RENDER_CAP,
            rendered_count: 0,
            total_matches: 0,
            index_complete: false,
            gravatar: false,
            avatars: true,
            sender_logos: false,
            show_recipient: false,
            preview_lines: if preview_lines < 3 {
                preview_lines
            } else {
                3
            },
            colorize: false,
            selected_id: None,
            selected_ids: Vec::new(),
            from_reader: 0,
            reader_keys: Vec::new(),
            reader_request: Vec::new(),
            msg_thread: Vec::new(),
        }
    }

    fn on_paging(&mut self, e: MessageListInput) -> (fx: MessageListEffects)
        requires
            e is SetMessages || e is AppendMessages || e is SetLoading || e is ResetPaging || e is LoadMore
                || e is SetIndexComplete || e is Search || e is SetScope || e is SetSearchPool || e is SetSort,
        ensures
            paging_next(*old(self), e, *final(self), fx),
    {
        match e {
            MessageListInput::SetMessages(v) => {
                self.all = v;
                MessageListEffects { rebuild: Rebuild::KeepingScroll, ..calm_exec() }
            },
            MessageListInput::AppendMessages(v) => {
                let added = append_messages(&mut self.all, v);
                let again = append_needs_rebuild(
                    added,
                    self.query.as_str(),
                    self.sort,
                    self.render_limit,
                    self.rendered_count,
                );
                MessageListEffects {
                    rebuild: if again {
                        Rebuild::KeepingScroll
                    } else {
                        Rebuild::No
                    },
                    ..calm_exec()
                }
            },
            MessageListInput::SetLoading => {
                let had = self.query.as_str().unicode_len() > 0;
                self.all = Vec::new();
                self.query = String::new();
                self.render_limit = RENDER_CAP;
                MessageListEffects { rebuild: Rebuild::Full, clear_entry: had, ..calm_exec() }
            },
            MessageListInput::ResetPaging => {
                let had = self.query.as_str().unicode_len() > 0;
                self.query = String::new();
                self.render_limit = RENDER_CAP;
                MessageListEffects { scroll_top: true, clear_entry: had, ..calm_exec() }
            },
            MessageListInput::LoadMore => {
                match load_more(self.render_limit, self.rendered_count, self.total_matches, self.index_complete) {
                    Some(n) => {
                        self.render_limit = n;
                        MessageListEffects { rebuild: Rebuild::KeepingScroll, ..calm_exec() }
                    },
                    None => calm_exec(),
                }
            },
            MessageListInput::SetIndexComplete(c) => {
                self.index_complete = c;
                calm_exec()
            },
            MessageListInput::Search(q) => {
                let was = searching(self.query.as_str());
                let now = searching(q.as_str());
                self.query = q;
                self.render_limit = RENDER_CAP;
                MessageListEffects {
                    rebuild: Rebuild::Full,
                    search_active: if was != now {
                        Some(now)
                    } else {
                        None
                    },
                    ..calm_exec()
                }
            },
            MessageListInput::SetScope(s) => {
                if s != self.scope {
                    self.scope = s;
                    if searching(self.query.as_str()) {
                        self.render_limit = RENDER_CAP;
                        return MessageListEffects { rebuild: Rebuild::Full, ..calm_exec() };
                    }
                }
                calm_exec()
            },
            MessageListInput::SetSearchPool(pool) => {
                self.search_pool = pool;
                if searching(self.query.as_str()) && self.scope == SearchScope::AllFolders {
                    self.render_limit = RENDER_CAP;
                    MessageListEffects { rebuild: Rebuild::KeepingScroll, ..calm_exec() }
                } else {
                    calm_exec()
                }
            },
            MessageListInput::SetSort(o) => {
                if o != self.sort {
                    self.sort = o;
                    MessageListEffects { rebuild: Rebuild::Full, ..calm_exec() }
                } else {
                    calm_exec()
                }
            },
            _ => calm_exec(),
        }
    }

    fn on_display(&mut self, e: MessageListInput) -> (fx: MessageListEffects)
        requires
            e is SetThreadLinks || e is SetThreading || e is SetThreadsExpanded || e is RefreshDates
                || e is SetSenderLogos || e is SetAvatars || e is SetGravatar || e is SetShowRecipient
                || e is ContactPhotosChanged || e is SetPreviewLines || e is SetColorize || e is DayChanged,
        ensures
            display_next(*old(self), e, *final(self), fx),
    {
        match e {
            MessageListInput::SetThreadLinks(links) => {
                if !same_links(&links, &self.thread_links) {
                    self.thread_links = links;
                    MessageListEffects {
                        rebuild: if self.threading {
                            Rebuild::KeepingScroll
                        } else {
                            Rebuild::No
                        },
                        ..calm_exec()
                    }
                } else {
                    calm_exec()
                }
            },
            MessageListInput::SetThreading(on) => {
                if on != self.threading {
                    self.threading = on;
                    MessageListEffects { rebuild: Rebuild::Full, ..calm_exec() }
                } else {
                    calm_exec()
                }
            },
            MessageListInput::SetThreadsExpanded(on) => {
                if on != self.default_expanded {
                    self.default_expanded = on;
                    self.toggled = Vec::new();
                    MessageListEffects { rebuild: Rebuild::Full, ..calm_exec() }
                } else {
                    calm_exec()
                }
            },
            MessageListInput::RefreshDates => MessageListEffects { rebuild: Rebuild::KeepingScroll, ..calm_exec() },
            MessageListInput::SetSenderLogos(on) => {
                if on != self.sender_logos {
                    self.sender_logos = on;
                    MessageListEffects { rebuild: Rebuild::KeepingScroll, ..calm_exec() }
                } else {
                    calm_exec()
                }
            },
            MessageListInput::SetAvatars(on) => {
                if on != self.avatars {
                    self.avatars = on;
                    MessageListEffects { rebuild: Rebuild::KeepingScroll, ..calm_exec() }
                } else {
                    calm_exec()
                }
            },
            MessageListInput::SetGravatar(on) => {
                if on != self.gravatar {
                    self.gravatar = on;
                    MessageListEffects { rebuild: Rebuild::Full, ..calm_exec() }
                } else {
                    calm_exec()
                }
            },
            MessageListInput::SetShowRecipient(on) => {
                if on != self.show_recipient {
                    self.show_recipient = on;
                    MessageListEffects { rebuild: Rebuild::Full, ..calm_exec() }
                } else {
                    calm_exec()
                }
            },
            MessageListInput::ContactPhotosChanged => MessageListEffects {
                rebuild: if self.avatars {
                    Rebuild::KeepingScroll
                } else {
                    Rebuild::No
                },
                ..calm_exec()
            },
            MessageListInput::SetPreviewLines(l) => {
                let lines: u32 = if l < 3 {
                    l
                } else {
                    3
                };
                if lines != self.preview_lines {
                    self.preview_lines = lines;
                    MessageListEffects { rebuild: Rebuild::Full, ..calm_exec() }
                } else {
                    calm_exec()
                }
            },
            MessageListInput::SetColorize(on) => {
                if on != self.colorize {
                    self.colorize = on;
                    MessageListEffects { rebuild: Rebuild::Full, ..calm_exec() }
                } else {
                    calm_exec()
                }
            },
            MessageListInput::DayChanged => MessageListEffects { rebuild: Rebuild::Full, midnight_timer: true, ..calm_exec() },
            _ => calm_exec(),
        }
    }

    fn on_rows(&mut self, e: MessageListInput) -> (fx: MessageListEffects)
        requires
            e is SelectionChanged || e is ClearSelection || e is SelectAndLoad || e is ToggleThread
                || e is FinishCollapseThread || e is RowActivated || e is SetFlag || e is Remove
                || e is SelectFromReader || e is Bulk || e is MoveSelection,
        ensures
            rows_next(*old(self), e, *final(self), fx),
    {
        match e {
            MessageListInput::SelectionChanged(keys) => {
                let step = selection_changed(self.from_reader, &self.reader_keys, &keys, self.selected_id);
                let open = match step.open {
                    Some(k) => if shown_has(&self.shown, k) {
                        Some(k)
                    } else {
                        None
                    },
                    None => None,
                };
                self.from_reader = step.from_reader;
                self.selected_id = step.selected_id;
                self.selected_ids = keys;
                MessageListEffects { report_selection: step.report, open, ..calm_exec() }
            },
            MessageListInput::ClearSelection => {
                self.selected_id = None;
                self.selected_ids = Vec::new();
                MessageListEffects { unselect_all: true, ..calm_exec() }
            },
            MessageListInput::SelectAndLoad(k) => {
                if shown_has(&self.shown, k) {
                    self.selected_id = Some(k);
                    let mut ids: Vec<(u32, u32)> = Vec::new();
                    ids.push(k);
                    self.selected_ids = ids;
                    MessageListEffects { reselect: true, open: Some(k), ..calm_exec() }
                } else {
                    calm_exec()
                }
            },
            MessageListInput::ToggleThread(key) => {
                if thread_open(self.toggled.as_slice(), &key, self.default_expanded) {
                    MessageListEffects { start_collapse: Some(key), ..calm_exec() }
                } else {
                    let k2 = (key.0, key.1.clone());
                    toggle_thread(&mut self.toggled, k2);
                    MessageListEffects { expand: Some(key), ..calm_exec() }
                }
            },
            MessageListInput::FinishCollapseThread(key) => {
                let k2 = (key.0, key.1.clone());
                toggle_thread(&mut self.toggled, k2);
                MessageListEffects { collapse: Some(key), ..calm_exec() }
            },
            MessageListInput::RowActivated(i) => MessageListEffects {
                activated: if i < self.shown.len() {
                    Some(i)
                } else {
                    None
                },
                ..calm_exec()
            },
            MessageListInput::SetFlag { id, flag, on } => {
                set_flag(&mut self.all, id, flag, on);
                let row = set_flag(&mut self.shown, id, flag, on);
                MessageListEffects {
                    row_flag: row,
                    thread_unread_of: if flag == Flag::Read {
                        Some(id)
                    } else {
                        None
                    },
                    ..calm_exec()
                }
            },
            MessageListInput::Remove(ids) => {
                if ids.len() == 0 {
                    return calm_exec();
                }
                let after = remove_messages(
                    &mut self.all,
                    &mut self.shown,
                    &mut self.selected_id,
                    &mut self.selected_ids,
                    &ids,
                );
                MessageListEffects {
                    select_row: match after {
                        AfterRemoval::Select(i) => Some(i),
                        _ => None,
                    },
                    selection_cleared: after == AfterRemoval::Clear,
                    ..calm_exec()
                }
            },
            MessageListInput::SelectFromReader(keys) => self.select_from_reader(keys),
            MessageListInput::Bulk(action) => {
                let rows = self.selected_rows();
                self.selected_id = None;
                self.selected_ids = Vec::new();
                let bulk = if rows.len() > 0 {
                    Some((action, rows))
                } else {
                    None
                };
                MessageListEffects { bulk, unselect_all: true, ..calm_exec() }
            },
            MessageListInput::MoveSelection { delta, current } => {
                let n = self.shown.len();
                if n > 2147483647 {
                    return calm_exec();
                }
                let cur = match current {
                    Some(c) => if c < n {
                        Some(c)
                    } else {
                        None
                    },
                    None => None,
                };
                let target = move_target(cur, delta, n);
                MessageListEffects { select_row: target, unselect_all: target.is_some(), ..calm_exec() }
            },
            _ => calm_exec(),
        }
    }

    /// The rows whose messages are selected, in order.
    fn selected_rows(&self) -> (r: Vec<usize>)
        ensures
            r@ == rows_with_keys(self.shown@, self.selected_ids@, self.shown@.len() as int),
    {
        let mut r: Vec<usize> = Vec::new();
        let mut i: usize = 0;
        while i < self.shown.len()
            invariant
                i <= self.shown@.len(),
                r@ == rows_with_keys(self.shown@, self.selected_ids@, i as int),
            decreases self.shown@.len() - i,
        {
            let k = (self.shown[i].account_id, self.shown[i].id);
            if keys_contain(&self.selected_ids, k) {
                r.push(i);
            }
            i += 1;
        }
        r
    }

    fn select_from_reader(&mut self, keys: Vec<(u32, u32)>) -> (fx: MessageListEffects)
        ensures
            rows_next(*old(self), MessageListInput::SelectFromReader(keys), *final(self), fx),
    {
        let want: Vec<(u32, u32)> = if keys.len() == 0 {
            match self.selected_id {
                Some(k) => vec![k],
                None => Vec::new(),
            }
        } else {
            keys
        };
        let ghost old_self = *self;
        let ghost mv = members_view(self.msg_thread@);
        let mut hidden = false;
        let mut j: usize = 0;
        while j < want.len()
            invariant
                j <= want@.len(),
                want@ == reader_wanted(keys@, old_self.selected_id),
                mv == members_view(self.msg_thread@),
                *self == (MessageList { toggled: self.toggled, ..old_self }),
                toggled_view(self.toggled@) == opened_for(
                    toggled_view(old_self.toggled@),
                    old_self.shown@,
                    mv,
                    want@,
                    old_self.default_expanded,
                    j as int,
                ),
                hidden == any_hidden(old_self.shown@, mv, want@, j as int),
            decreases want@.len() - j,
        {
            let k = want[j];
            if !shown_has(&self.shown, k) {
                match self.thread_of_exec(k) {
                    Some(c) => {
                        hidden = true;
                        if !thread_open(self.toggled.as_slice(), &c, self.default_expanded) {
                            toggle_thread(&mut self.toggled, c);
                        }
                    },
                    None => {},
                }
            }
            proof {
                assert forall|x: int| 0 <= x < j + 1 && find_message(old_self.shown@, #[trigger] want@[x], 0) is None
                    && thread_of(mv, want@[x], 0) is Some implies x < j || (x == j && hidden) by {}
            }
            j += 1;
        }
        self.reader_request = want;
        MessageListEffects {
            rebuild: if hidden {
                Rebuild::KeepingScroll
            } else {
                Rebuild::No
            },
            mirror_reader: true,
            ..calm_exec()
        }
    }

    fn thread_of_exec(&self, k: (u32, u32)) -> (r: Option<(u32, String)>)
        ensures
            match r {
                Some(c) => thread_of(members_view(self.msg_thread@), k, 0) == Some((c.0, c.1@)),
                None => thread_of(members_view(self.msg_thread@), k, 0) is None,
            },
    {
        let ghost mv = members_view(self.msg_thread@);
        let mut i: usize = 0;
        while i < self.msg_thread.len()
            invariant
                i <= self.msg_thread@.len(),
                mv == members_view(self.msg_thread@),
                thread_of(mv, k, 0) == thread_of(mv, k, i as int),
            decreases self.msg_thread@.len() - i,
        {
            let e = &self.msg_thread[i];
            if e.0.0 == k.0 && e.0.1 == k.1 {
                return Some((e.1.0, e.1.1.clone()));
            }
            i += 1;
        }
        None
    }

    /// Mirrors the reader's request on the rows now built: the rows of the
    /// wanted messages, in order, to select; their keys become what the
    /// coming selection changes are recognised by.
    pub fn mirror_reader(&mut self) -> (rows: Vec<usize>)
        ensures
            rows@ == rows_with_keys(old(self).shown@, old(self).reader_request@, old(self).shown@.len() as int),
            final(self).reader_keys@ == keys_at(old(self).shown@, rows@),
            *final(self) == (MessageList { reader_keys: final(self).reader_keys, from_reader: 8, ..*old(self) }),
    {
        let mut rows: Vec<usize> = Vec::new();
        let mut ks: Vec<(u32, u32)> = Vec::new();
        let mut i: usize = 0;
        while i < self.shown.len()
            invariant
                i <= self.shown@.len(),
                rows@ == rows_with_keys(self.shown@, self.reader_request@, i as int),
                ks@ == keys_at(self.shown@, rows@),
                forall|x: int| 0 <= x < rows@.len() ==> #[trigger] rows@[x] < i,
            decreases self.shown@.len() - i,
        {
            let k = (self.shown[i].account_id, self.shown[i].id);
            if keys_contain(&self.reader_request, k) {
                rows.push(i);
                ks.push(k);
                assert(ks@ =~= keys_at(self.shown@, rows@));
            }
            i += 1;
        }
        self.reader_keys = ks;
        self.from_reader = 8;
        rows
    }

    /// Records each message's conversation among those with several
    /// messages, as the last rebuild grouped them.
    pub fn set_thread_members(&mut self, members: Vec<((u32, u32), (u32, String))>)
        ensures
            *final(self) == (MessageList { msg_thread: members, ..*old(self) }),
    {
        self.msg_thread = members;
    }

    /// Applies an input; the state and effects are those [`list_next`]
    /// describes.
    pub fn handle(&mut self, e: MessageListInput) -> (fx: MessageListEffects)
        ensures
            list_next(*old(self), e, *final(self), fx),
    {
        match &e {
            MessageListInput::SetMessages(_) | MessageListInput::AppendMessages(_) | MessageListInput::SetLoading
            | MessageListInput::ResetPaging | MessageListInput::LoadMore | MessageListInput::SetIndexComplete(_) | MessageListInput::Search(_)
            | MessageListInput::SetScope(_) | MessageListInput::SetSearchPool(_) | MessageListInput::SetSort(_) => self.on_paging(e),
            MessageListInput::SetThreadLinks(_) | MessageListInput::SetThreading(_) | MessageListInput::SetThreadsExpanded(_)
            | MessageListInput::RefreshDates | MessageListInput::SetSenderLogos(_) | MessageListInput::SetAvatars(_)
            | MessageListInput::SetGravatar(_) | MessageListInput::SetShowRecipient(_) | MessageListInput::ContactPhotosChanged
            | MessageListInput::SetPreviewLines(_) | MessageListInput::SetColorize(_) | MessageListInput::DayChanged => self.on_display(e),
            _ => self.on_rows(e),
        }
    }

    /// Records what a rebuild rendered: the rows, how many messages the
    /// page held, and how many matched.
    pub fn set_rendered(&mut self, shown: Vec<Message>, rendered: usize, total: usize)
        ensures
            final(self).shown@ == shown@,
            *final(self) == (MessageList { shown: final(self).shown, rendered_count: rendered, total_matches: total, ..*old(self) }),
    {
        self.shown = shown;
        self.rendered_count = rendered;
        self.total_matches = total;
    }

    /// Builds the rows again from the list's own state: the plan of its
    /// active source, whose rows become the shown messages, whose page size
    /// the rendered count and whose match count the total; the conversations
    /// of several messages are recorded for the reader's selections. The
    /// plan goes back for the widget to draw.
    pub fn rebuild(&mut self) -> (p: ListPlan)
        ensures
            planned(
                active_source(*old(self)),
                old(self).query@,
                old(self).sort,
                old(self).render_limit,
                old(self).threading,
                old(self).thread_links@,
                old(self).toggled@,
                old(self).default_expanded,
                p,
            ),
            final(self).shown@ == shown_of(active_source(*old(self)), p),
            members_view(final(self).msg_thread@) == thread_members(
                p.page@,
                convs_view(p.conversations@),
                p.conversations@.len() as int,
            ),
            *final(self) == (MessageList {
                shown: final(self).shown,
                rendered_count: p.page@.len() as usize,
                total_matches: p.total,
                msg_thread: final(self).msg_thread,
                ..*old(self)
            }),
    {
        let pool = searching(self.query.as_str()) && self.scope == SearchScope::AllFolders
            && self.search_pool.len() > 0;
        let (shown, members, p) = if pool {
            build_rows(self.search_pool.as_slice(), self)
        } else {
            build_rows(self.all.as_slice(), self)
        };
        self.shown = shown;
        self.msg_thread = members;
        self.rendered_count = p.page.len();
        self.total_matches = p.total;
        p
    }
}

} // verus!

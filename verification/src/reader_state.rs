//! The reader as a state machine: what each input does to the reader's state
//! (the message and conversation on show, marks, frame heights, the card
//! selection, remote content) and what it asks of the web view and the
//! window around it.

use vstd::prelude::*;
use crate::model::{Message, RowAction};
use crate::reader::{
    blocked, find_message, heights_after, key_of, mark_seen, marked, record_height, remote_blocked, select_cards,
    selection_after, suppress_autoread, SelectMode,
};

verus! {

/// What the reader holds.
pub struct MessageView {
    /// The message the header, avatar and sender check are about.
    pub current: Option<Message>,
    /// The conversation shown, or the one message.
    pub thread: Vec<Message>,
    /// Labels of conversation messages from another folder, by key.
    pub folder_labels: Vec<((u32, u32), String)>,
    /// Messages deliberately marked unread: scrolling does not read them.
    pub no_autoread: Vec<(u32, u32)>,
    /// Remembered frame heights, by key.
    pub frame_heights: Vec<((u32, u32), u32)>,
    /// The cards outlined as selected.
    pub selected_cards: Vec<(u32, u32)>,
    pub remote_allowed: bool,
    /// Remote content is present and held back.
    pub blocked: bool,
    /// The body is still being fetched.
    pub loading: bool,
    /// The conversation was already assembled: swap it in without a cover.
    pub instant: bool,
    /// The web view has painted the current document.
    pub webview_ready: bool,
    /// The content theme: `None` follows the system.
    pub content_dark: Option<bool>,
    pub avatars: bool,
    pub sender_logos: bool,
    pub gravatar: bool,
    pub dim_banner: bool,
    pub show_banner: bool,
    pub account_name: Option<String>,
}

/// What the reader is told.
pub enum MessageViewInput {
    SetAvatars(bool),
    SetSenderLogos(bool),
    SetBannerStyle { dim: bool, show: bool },
    /// Show a conversation (or one message); `primary` is the message the
    /// user selected.
    Show {
        thread: Vec<Message>,
        allow_remote: bool,
        gravatar: bool,
        account_name: Option<String>,
        loading: bool,
        primary: Option<Message>,
        instant: bool,
        folder_labels: Vec<((u32, u32), String)>,
    },
    LoadRemoteOnce,
    AllowSenderAlways,
    ComposeSender,
    ThemeChanged,
    Print,
    PrintPreview,
    SetContentTheme(Option<bool>),
    Rendered,
    OpenHeader { account_id: u32, id: u32 },
    SuppressAutoRead { account_id: u32, id: u32 },
    CardClicked { account_id: u32, id: u32, mode: SelectMode },
    SetSelectedCards(Vec<(u32, u32)>),
    FrameSized { account_id: u32, id: u32, height: u32 },
    MarkSeen { account_id: u32, id: u32 },
    CardAction { action: RowAction, account_id: u32, id: u32 },
}

/// What the web view and the window do after an input.
pub struct MessageViewEffects {
    /// Forget the previous message's sender check.
    pub clear_sender_check: bool,
    /// Hide the link preview.
    pub hide_link_preview: bool,
    /// Load the sender's picture again.
    pub load_avatar: bool,
    /// Paint the view's ground for the current theme.
    pub repaint_ground: bool,
    /// Render the document (unless it is already on screen).
    pub render: bool,
    /// Always allow remote content from the current sender.
    pub allow_sender: bool,
    /// Write to the current sender.
    pub compose_to_sender: bool,
    pub print: bool,
    pub print_preview: bool,
    /// Outline the selected cards in the document on screen.
    pub apply_selection: bool,
    /// Tell the list which cards are selected.
    pub report_selection: bool,
    /// Tell the list this message has been read.
    pub mark_seen: Option<(u32, u32)>,
    /// Run an action on this message of the thread (its position).
    pub card_action: Option<(RowAction, usize)>,
    /// Open this message of the thread (its position) in its own window.
    pub open_window: Option<usize>,
}

pub open spec fn quiet() -> MessageViewEffects {
    MessageViewEffects {
        clear_sender_check: false,
        hide_link_preview: false,
        load_avatar: false,
        repaint_ground: false,
        render: false,
        allow_sender: false,
        compose_to_sender: false,
        print: false,
        print_preview: false,
        apply_selection: false,
        report_selection: false,
        mark_seen: None,
        card_action: None,
        open_window: None,
    }
}

fn quiet_exec() -> (r: MessageViewEffects)
    ensures
        r == quiet(),
{
    MessageViewEffects {
        clear_sender_check: false,
        hide_link_preview: false,
        load_avatar: false,
        repaint_ground: false,
        render: false,
        allow_sender: false,
        compose_to_sender: false,
        print: false,
        print_preview: false,
        apply_selection: false,
        report_selection: false,
        mark_seen: None,
        card_action: None,
        open_window: None,
    }
}

/// The cards of a conversation in the order shown.
pub open spec fn card_order(thread: Seq<Message>) -> Seq<(u32, u32)> {
    Seq::new(thread.len(), |i: int| key_of(thread[i]))
}

/// The message a `Show` puts in the header: the one selected, else the
/// first of the thread.
pub open spec fn shown_of(thread: Seq<Message>, primary: Option<Message>) -> Option<Message> {
    match primary {
        Some(p) => Some(p),
        None => if thread.len() > 0 {
            Some(thread[0])
        } else {
            None
        },
    }
}

pub open spec fn same_key(a: Option<Message>, b: Option<Message>) -> bool {
    match (a, b) {
        (Some(x), Some(y)) => x.id == y.id && x.account_id == y.account_id,
        _ => false,
    }
}

/// Whether the document is drawn again after a theme change.
pub open spec fn rerender(r: MessageView) -> bool {
    r.current is Some && !r.loading
}

/// What showing a conversation does (see [`reader_next`]).
pub open spec fn show_next(
    old: MessageView,
    thread: Seq<Message>,
    allow_remote: bool,
    gravatar: bool,
    account_name: Option<String>,
    loading: bool,
    primary: Option<Message>,
    instant: bool,
    folder_labels: Seq<((u32, u32), String)>,
    new: MessageView,
    fx: MessageViewEffects,
) -> bool {
    let shown = shown_of(thread, primary);
    let same = same_key(old.current, shown);
    &&& new.current == shown
    &&& new.thread@ == thread
    &&& new.folder_labels@ == folder_labels
    &&& new.no_autoread@ == (if same {
        old.no_autoread@
    } else {
        seq![]
    })
    &&& new.frame_heights == old.frame_heights
    &&& new.selected_cards == old.selected_cards
    &&& new.remote_allowed == allow_remote
    &&& new.blocked == blocked(thread, allow_remote)
    &&& new.loading == loading && new.instant == instant && new.gravatar == gravatar
    &&& new.account_name == account_name
    &&& new.webview_ready == old.webview_ready && new.content_dark == old.content_dark
    &&& new.avatars == old.avatars && new.sender_logos == old.sender_logos
    &&& new.dim_banner == old.dim_banner && new.show_banner == old.show_banner
    &&& fx == MessageViewEffects {
        clear_sender_check: !same,
        hide_link_preview: true,
        load_avatar: true,
        repaint_ground: true,
        render: !loading,
        ..quiet()
    }
}

/// What an input does to the reader and what it asks for.
pub open spec fn reader_next(old: MessageView, e: MessageViewInput, new: MessageView, fx: MessageViewEffects) -> bool {
    match e {
        MessageViewInput::SetAvatars(on) => new == MessageView { avatars: on, ..old } && fx == quiet(),
        MessageViewInput::SetSenderLogos(on) => new == MessageView { sender_logos: on, ..old } && fx == MessageViewEffects {
            load_avatar: true,
            ..quiet()
        },
        MessageViewInput::SetBannerStyle { dim, show } => new == MessageView { dim_banner: dim, show_banner: show, ..old }
            && fx == quiet(),
        MessageViewInput::Show { thread, allow_remote, gravatar, account_name, loading, primary, instant, folder_labels } => show_next(
            old,
            thread@,
            allow_remote,
            gravatar,
            account_name,
            loading,
            primary,
            instant,
            folder_labels@,
            new,
            fx,
        ),
        MessageViewInput::LoadRemoteOnce => new == MessageView { remote_allowed: true, blocked: false, ..old } && fx
            == MessageViewEffects { render: true, ..quiet() },
        MessageViewInput::AllowSenderAlways => new == MessageView { remote_allowed: true, blocked: false, ..old } && fx
            == MessageViewEffects { render: true, allow_sender: old.current is Some, ..quiet() },
        MessageViewInput::ComposeSender => new == old && fx == MessageViewEffects {
            compose_to_sender: match old.current {
                Some(m) => m.from_addr@.len() > 0,
                None => false,
            },
            ..quiet()
        },
        MessageViewInput::ThemeChanged => new == old && fx == MessageViewEffects {
            repaint_ground: true,
            render: rerender(old),
            ..quiet()
        },
        MessageViewInput::Print => new == old && fx == MessageViewEffects { print: true, ..quiet() },
        MessageViewInput::PrintPreview => new == old && fx == MessageViewEffects { print_preview: true, ..quiet() },
        MessageViewInput::SetContentTheme(o) => if o == old.content_dark {
            new == old && fx == quiet()
        } else {
            new == MessageView { content_dark: o, ..old } && fx == MessageViewEffects {
                repaint_ground: true,
                render: rerender(old),
                ..quiet()
            }
        },
        MessageViewInput::Rendered => new == MessageView { webview_ready: true, ..old } && fx == quiet(),
        MessageViewInput::OpenHeader { account_id, id } => new == old && fx == MessageViewEffects {
            open_window: match find_message(old.thread@, (account_id, id), 0) {
                Some(i) => Some(i as usize),
                None => None,
            },
            ..quiet()
        },
        MessageViewInput::SuppressAutoRead { account_id, id } => {
            let key = (account_id, id);
            &&& new.thread@ == marked(old.thread@, key, true)
            &&& new.no_autoread@ == (if old.no_autoread@.contains(key) {
                old.no_autoread@
            } else {
                old.no_autoread@.push(key)
            })
            &&& new == MessageView { thread: new.thread, no_autoread: new.no_autoread, ..old }
            &&& fx == MessageViewEffects { render: !old.loading, ..quiet() }
        },
        MessageViewInput::CardClicked { account_id, id, mode } => match selection_after(
            card_order(old.thread@),
            old.selected_cards@,
            (account_id, id),
            mode,
        ) {
            Some(keys) => {
                &&& new.selected_cards@ == keys
                &&& new == MessageView { selected_cards: new.selected_cards, ..old }
                &&& fx == MessageViewEffects { apply_selection: true, report_selection: true, ..quiet() }
            },
            None => new == old && fx == quiet(),
        },
        MessageViewInput::SetSelectedCards(keys) => if keys@ == old.selected_cards@ {
            new == old && fx == quiet()
        } else {
            &&& new.selected_cards@ == keys@
            &&& new == MessageView { selected_cards: new.selected_cards, ..old }
            &&& fx == MessageViewEffects { apply_selection: true, ..quiet() }
        },
        MessageViewInput::FrameSized { account_id, id, height } => {
            &&& new.frame_heights@ == heights_after(old.frame_heights@, (account_id, id), height)
            &&& new == MessageView { frame_heights: new.frame_heights, ..old }
            &&& fx == quiet()
        },
        MessageViewInput::MarkSeen { account_id, id } => {
            let key = (account_id, id);
            let found = exists|i: int|
                0 <= i < old.thread@.len() && key_of(old.thread@[i]) == key && #[trigger] old.thread@[i].unread;
            &&& new.thread@ == marked(old.thread@, key, false)
            &&& new == MessageView { thread: new.thread, ..old }
            &&& fx == MessageViewEffects {
                mark_seen: if found {
                    Some(key)
                } else {
                    None
                },
                ..quiet()
            }
        },
        MessageViewInput::CardAction { action, account_id, id } => new == old && fx == MessageViewEffects {
            card_action: match find_message(old.thread@, (account_id, id), 0) {
                Some(i) => Some((action, i as usize)),
                None => None,
            },
            ..quiet()
        },
    }
}

fn card_order_exec(thread: &Vec<Message>) -> (r: Vec<(u32, u32)>)
    ensures
        r@ == card_order(thread@),
{
    let mut v: Vec<(u32, u32)> = Vec::new();
    let mut i: usize = 0;
    while i < thread.len()
        invariant
            i <= thread.len(),
            v@ == card_order(thread@).take(i as int),
        decreases thread.len() - i,
    {
        v.push((thread[i].account_id, thread[i].id));
        assert(v@ =~= card_order(thread@).take(i + 1));
        i += 1;
    }
    assert(card_order(thread@).take(thread@.len() as int) =~= card_order(thread@));
    v
}

fn find_exec(thread: &Vec<Message>, key: (u32, u32)) -> (r: Option<usize>)
    ensures
        r == (match find_message(thread@, key, 0) {
            Some(i) => Some(i as usize),
            None => None,
        }),
{
    let mut i: usize = 0;
    while i < thread.len()
        invariant
            i <= thread.len(),
            find_message(thread@, key, 0) == find_message(thread@, key, i as int),
        decreases thread.len() - i,
    {
        if thread[i].account_id == key.0 && thread[i].id == key.1 {
            return Some(i);
        }
        i += 1;
    }
    None
}

fn same_keys(a: &Vec<(u32, u32)>, b: &Vec<(u32, u32)>) -> (r: bool)
    ensures
        r == (a@ == b@),
{
    if a.len() != b.len() {
        return false;
    }
    let mut i: usize = 0;
    while i < a.len()
        invariant
            i <= a.len(),
            a.len() == b.len(),
            forall|j: int| 0 <= j < i ==> a@[j] == b@[j],
        decreases a.len() - i,
    {
        if a[i].0 != b[i].0 || a[i].1 != b[i].1 {
            return false;
        }
        i += 1;
    }
    assert(a@ =~= b@);
    true
}

impl MessageView {
    /// A reader showing nothing, with the remembered preferences.
    pub fn new(avatars: bool, sender_logos: bool, content_dark: Option<bool>) -> (r: MessageView)
        ensures
            r.current is None,
            r.thread@.len() == 0,
            r.folder_labels@.len() == 0,
            r.no_autoread@.len() == 0,
            r.frame_heights@.len() == 0,
            r.selected_cards@.len() == 0,
            !r.remote_allowed && !r.blocked && !r.loading && !r.instant && !r.webview_ready,
            r.content_dark == content_dark,
            r.avatars == avatars,
            r.sender_logos == sender_logos,
            !r.gravatar,
            !r.dim_banner,
            r.show_banner,
            r.account_name is None,
    {
        MessageView {
            current: None,
            thread: Vec::new(),
            folder_labels: Vec::new(),
            no_autoread: Vec::new(),
            frame_heights: Vec::new(),
            selected_cards: Vec::new(),
            remote_allowed: false,
            blocked: false,
            loading: false,
            instant: false,
            webview_ready: false,
            content_dark,
            avatars,
            sender_logos,
            gravatar: false,
            dim_banner: false,
            show_banner: true,
            account_name: None,
        }
    }

    fn show(
        &mut self,
        thread: Vec<Message>,
        allow_remote: bool,
        gravatar: bool,
        account_name: Option<String>,
        loading: bool,
        primary: Option<Message>,
        instant: bool,
        folder_labels: Vec<((u32, u32), String)>,
    ) -> (fx: MessageViewEffects)
        ensures
            show_next(
                *old(self),
                thread@,
                allow_remote,
                gravatar,
                account_name,
                loading,
                primary,
                instant,
                folder_labels@,
                *final(self),
                fx,
            ),
    {
        let shown = match primary {
            Some(p) => Some(p),
            None => if thread.len() > 0 {
                Some(thread[0].duplicate())
            } else {
                None
            },
        };
        let same = match (&self.current, &shown) {
            (Some(a), Some(b)) => a.id == b.id && a.account_id == b.account_id,
            _ => false,
        };
        self.current = shown;
        if !same {
            self.no_autoread = Vec::new();
        }
        let is_blocked = remote_blocked(thread.as_slice(), allow_remote);
        self.thread = thread;
        self.folder_labels = folder_labels;
        self.gravatar = gravatar;
        self.account_name = account_name;
        self.loading = loading;
        self.instant = instant;
        self.remote_allowed = allow_remote;
        self.blocked = is_blocked;
        MessageViewEffects {
            clear_sender_check: !same,
            hide_link_preview: true,
            load_avatar: true,
            repaint_ground: true,
            render: !loading,
            ..quiet_exec()
        }
    }

    fn handle_prefs(&mut self, e: MessageViewInput) -> (fx: MessageViewEffects)
        requires
            e is SetAvatars ||
            e is SetSenderLogos ||
            e is SetBannerStyle ||
            e is ThemeChanged ||
            e is SetContentTheme ||
            e is Rendered ||
            e is Print ||
            e is PrintPreview,
        ensures
            reader_next(*old(self), e, *final(self), fx),
    {
        match e {
            MessageViewInput::SetAvatars(on) => {
                self.avatars = on;
                quiet_exec()
            },
            MessageViewInput::SetSenderLogos(on) => {
                self.sender_logos = on;
                MessageViewEffects { load_avatar: true, ..quiet_exec() }
            },
            MessageViewInput::SetBannerStyle { dim, show } => {
                self.dim_banner = dim;
                self.show_banner = show;
                quiet_exec()
            },
            MessageViewInput::ThemeChanged => {
                let again = self.current.is_some() && !self.loading;
                MessageViewEffects { repaint_ground: true, render: again, ..quiet_exec() }
            },
            MessageViewInput::SetContentTheme(o) => {
                if o != self.content_dark {
                    let again = self.current.is_some() && !self.loading;
                    self.content_dark = o;
                    MessageViewEffects { repaint_ground: true, render: again, ..quiet_exec() }
                } else {
                    quiet_exec()
                }
            },
            MessageViewInput::Rendered => {
                self.webview_ready = true;
                quiet_exec()
            },
            MessageViewInput::Print => MessageViewEffects { print: true, ..quiet_exec() },
            MessageViewInput::PrintPreview => MessageViewEffects { print_preview: true, ..quiet_exec() },
            _ => quiet_exec(),
        }
    }

    fn handle_sender(&mut self, e: MessageViewInput) -> (fx: MessageViewEffects)
        requires
            e is LoadRemoteOnce || e is AllowSenderAlways || e is ComposeSender,
        ensures
            reader_next(*old(self), e, *final(self), fx),
    {
        match e {
            MessageViewInput::LoadRemoteOnce => {
                self.remote_allowed = true;
                self.blocked = false;
                MessageViewEffects { render: true, ..quiet_exec() }
            },
            MessageViewInput::AllowSenderAlways => {
                let allow = self.current.is_some();
                self.remote_allowed = true;
                self.blocked = false;
                MessageViewEffects { render: true, allow_sender: allow, ..quiet_exec() }
            },
            MessageViewInput::ComposeSender => {
                let compose = match &self.current {
                    Some(m) => m.from_addr.as_str().unicode_len() > 0,
                    None => false,
                };
                MessageViewEffects { compose_to_sender: compose, ..quiet_exec() }
            },
            _ => quiet_exec(),
        }
    }

    fn handle_show(&mut self, e: MessageViewInput) -> (fx: MessageViewEffects)
        requires
            e is Show,
        ensures
            reader_next(*old(self), e, *final(self), fx),
    {
        match e {
            MessageViewInput::Show { thread, allow_remote, gravatar, account_name, loading, primary, instant, folder_labels } => self.show(
                thread,
                allow_remote,
                gravatar,
                account_name,
                loading,
                primary,
                instant,
                folder_labels,
            ),
            _ => quiet_exec(),
        }
    }

    fn handle_cards(&mut self, e: MessageViewInput) -> (fx: MessageViewEffects)
        requires
            e is CardClicked ||
            e is SetSelectedCards ||
            e is OpenHeader ||
            e is CardAction,
        ensures
            reader_next(*old(self), e, *final(self), fx),
    {
        match e {
            MessageViewInput::CardClicked { account_id, id, mode } => {
                let order = card_order_exec(&self.thread);
                match select_cards(order.as_slice(), self.selected_cards.as_slice(), (account_id, id), mode) {
                    Some(keys) => {
                        self.selected_cards = keys;
                        MessageViewEffects { apply_selection: true, report_selection: true, ..quiet_exec() }
                    },
                    None => quiet_exec(),
                }
            },
            MessageViewInput::SetSelectedCards(keys) => {
                if !same_keys(&keys, &self.selected_cards) {
                    self.selected_cards = keys;
                    MessageViewEffects { apply_selection: true, ..quiet_exec() }
                } else {
                    quiet_exec()
                }
            },
            MessageViewInput::OpenHeader { account_id, id } => {
                let at = find_exec(&self.thread, (account_id, id));
                MessageViewEffects { open_window: at, ..quiet_exec() }
            },
            MessageViewInput::CardAction { action, account_id, id } => {
                let at = find_exec(&self.thread, (account_id, id));
                let card_action = match at {
                    Some(i) => Some((action, i)),
                    None => None,
                };
                MessageViewEffects { card_action, ..quiet_exec() }
            },
            _ => quiet_exec(),
        }
    }

    fn handle_marks(&mut self, e: MessageViewInput) -> (fx: MessageViewEffects)
        requires
            e is SuppressAutoRead || e is FrameSized || e is MarkSeen,
        ensures
            reader_next(*old(self), e, *final(self), fx),
    {
        match e {
            MessageViewInput::SuppressAutoRead { account_id, id } => {
                suppress_autoread(&mut self.thread, &mut self.no_autoread, (account_id, id));
                MessageViewEffects { render: !self.loading, ..quiet_exec() }
            },
            MessageViewInput::FrameSized { account_id, id, height } => {
                record_height(&mut self.frame_heights, (account_id, id), height);
                quiet_exec()
            },
            MessageViewInput::MarkSeen { account_id, id } => {
                let found = mark_seen(&mut self.thread, (account_id, id));
                MessageViewEffects {
                    mark_seen: if found {
                        Some((account_id, id))
                    } else {
                        None
                    },
                    ..quiet_exec()
                }
            },
            _ => quiet_exec(),
        }
    }

    /// Applies an input; the state and effects are those [`reader_next`]
    /// describes.
    pub fn handle(&mut self, e: MessageViewInput) -> (fx: MessageViewEffects)
        ensures
            reader_next(*old(self), e, *final(self), fx),
    {
        match &e {
            MessageViewInput::SetAvatars(..) => self.handle_prefs(e),
            MessageViewInput::SetSenderLogos(..) => self.handle_prefs(e),
            MessageViewInput::SetBannerStyle { .. } => self.handle_prefs(e),
            MessageViewInput::ThemeChanged => self.handle_prefs(e),
            MessageViewInput::SetContentTheme(..) => self.handle_prefs(e),
            MessageViewInput::Rendered => self.handle_prefs(e),
            MessageViewInput::Print => self.handle_prefs(e),
            MessageViewInput::PrintPreview => self.handle_prefs(e),
            MessageViewInput::LoadRemoteOnce => self.handle_sender(e),
            MessageViewInput::AllowSenderAlways => self.handle_sender(e),
            MessageViewInput::ComposeSender => self.handle_sender(e),
            MessageViewInput::Show { .. } => self.handle_show(e),
            MessageViewInput::CardClicked { .. } => self.handle_cards(e),
            MessageViewInput::SetSelectedCards(..) => self.handle_cards(e),
            MessageViewInput::OpenHeader { .. } => self.handle_cards(e),
            MessageViewInput::CardAction { .. } => self.handle_cards(e),
            MessageViewInput::SuppressAutoRead { .. } => self.handle_marks(e),
            MessageViewInput::FrameSized { .. } => self.handle_marks(e),
            MessageViewInput::MarkSeen { .. } => self.handle_marks(e),
        }
    }
}

} // verus!

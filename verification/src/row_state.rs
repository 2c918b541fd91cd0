//! One row of the message list as a state machine: its message's flags, its
//! action palette, its place in a conversation, and what each input asks of
//! the list.

use vstd::prelude::*;
use crate::list::{
    chevron_classes, content_css, display_unread, face_email, face_email_of, face_name, face_name_of, name_line,
    name_line_of, names, ring_classes, row_css, sender_classes, subject_classes,
};
use crate::list_state::{palette_after, palette_step, with_flag, Countdown, Flag, PaletteEvent};
use crate::model::{Message, RowAction};

verus! {

/// A row's state.
pub struct MessageRow {
    pub msg: Message,
    /// A Sent folder: the row names who the message went to.
    pub show_recipient: bool,
    pub avatars: bool,
    pub ring_class: Option<String>,
    pub row_hovered: bool,
    pub palette_open: bool,
    /// The palette opens when the row is hovered.
    pub palette_hover: bool,
    /// How many messages the row's conversation holds (0 on a reply).
    pub thread_count: usize,
    pub is_thread_child: bool,
    pub thread_expanded: bool,
    pub thread_key: Option<(u32, String)>,
    pub thread_unread: bool,
    /// The row is slid open.
    pub revealed: bool,
}

/// What a row is told.
pub enum MessageRowInput {
    SetRead(bool),
    SetStarred(bool),
    SetHasAttachment(bool),
    SetRowHover(bool),
    TogglePalette,
    PaletteEnter,
    PaletteLeave,
    CollapsePalette,
    Action(RowAction),
    ToggleThreadClicked,
    SetThreadUnread(bool),
    SetRevealed(bool),
    SetThreadExpanded(bool),
}

/// What the row asks for after an input.
pub struct RowEffects {
    /// What happens to the palette's collapse countdown.
    pub countdown: Countdown,
    /// Run this action on the row's message.
    pub action: Option<RowAction>,
    /// Open or close the row's conversation.
    pub toggle_thread: bool,
}

pub open spec fn no_row_effects() -> RowEffects {
    RowEffects { countdown: Countdown::Keep, action: None, toggle_thread: false }
}

/// A palette input's state and countdown (see [`palette_after`]).
pub open spec fn paletted(old: MessageRow, e: PaletteEvent, new: MessageRow, fx: RowEffects) -> bool {
    let (h, o, c) = palette_after(old.row_hovered, old.palette_open, old.palette_hover, e);
    new == MessageRow { row_hovered: h, palette_open: o, ..old } && fx == RowEffects { countdown: c, ..no_row_effects() }
}

/// What an input does to the row and what it asks for.
pub open spec fn row_next(old: MessageRow, e: MessageRowInput, new: MessageRow, fx: RowEffects) -> bool {
    match e {
        MessageRowInput::SetRead(read) => new == MessageRow { msg: with_flag(old.msg, Flag::Read, read), ..old } && fx
            == no_row_effects(),
        MessageRowInput::SetStarred(on) => new == MessageRow { msg: with_flag(old.msg, Flag::Starred, on), ..old }
            && fx == no_row_effects(),
        MessageRowInput::SetHasAttachment(on) => new == MessageRow {
            msg: with_flag(old.msg, Flag::HasAttachment, on),
            ..old
        } && fx == no_row_effects(),
        MessageRowInput::SetRowHover(over) => paletted(old, PaletteEvent::RowHover(over), new, fx),
        MessageRowInput::TogglePalette => paletted(old, PaletteEvent::Toggle, new, fx),
        MessageRowInput::PaletteEnter => paletted(old, PaletteEvent::Enter, new, fx),
        MessageRowInput::PaletteLeave => paletted(old, PaletteEvent::Leave, new, fx),
        MessageRowInput::CollapsePalette => paletted(old, PaletteEvent::Collapse, new, fx),
        MessageRowInput::Action(a) => new == old && fx == RowEffects { action: Some(a), ..no_row_effects() },
        MessageRowInput::ToggleThreadClicked => new == old && fx == RowEffects {
            toggle_thread: old.thread_key is Some,
            ..no_row_effects()
        },
        MessageRowInput::SetThreadUnread(u) => new == MessageRow { thread_unread: u, ..old } && fx == no_row_effects(),
        MessageRowInput::SetRevealed(r) => new == MessageRow { revealed: r, ..old } && fx == no_row_effects(),
        MessageRowInput::SetThreadExpanded(x) => new == MessageRow { thread_expanded: x, ..old } && fx
            == no_row_effects(),
    }
}

impl MessageRow {
    fn palette(&mut self, e: PaletteEvent) -> (fx: RowEffects)
        ensures
            paletted(*old(self), e, *final(self), fx),
    {
        let (h, o, c) = palette_step(self.row_hovered, self.palette_open, self.palette_hover, e);
        self.row_hovered = h;
        self.palette_open = o;
        RowEffects { countdown: c, action: None, toggle_thread: false }
    }

    /// Applies an input; the state and effects are those [`row_next`]
    /// describes.
    pub fn update(&mut self, e: MessageRowInput) -> (fx: RowEffects)
        ensures
            row_next(*old(self), e, *final(self), fx),
    {
        let quiet = RowEffects { countdown: Countdown::Keep, action: None, toggle_thread: false };
        match e {
            MessageRowInput::SetRead(read) => {
                self.msg.unread = !read;
                quiet
            },
            MessageRowInput::SetStarred(on) => {
                self.msg.starred = on;
                quiet
            },
            MessageRowInput::SetHasAttachment(on) => {
                self.msg.has_attachment = on;
                quiet
            },
            MessageRowInput::SetRowHover(over) => self.palette(PaletteEvent::RowHover(over)),
            MessageRowInput::TogglePalette => self.palette(PaletteEvent::Toggle),
            MessageRowInput::PaletteEnter => self.palette(PaletteEvent::Enter),
            MessageRowInput::PaletteLeave => self.palette(PaletteEvent::Leave),
            MessageRowInput::CollapsePalette => self.palette(PaletteEvent::Collapse),
            MessageRowInput::Action(a) => RowEffects { action: Some(a), ..quiet },
            MessageRowInput::ToggleThreadClicked => RowEffects { toggle_thread: self.thread_key.is_some(), ..quiet },
            MessageRowInput::SetThreadUnread(u) => {
                self.thread_unread = u;
                quiet
            },
            MessageRowInput::SetRevealed(r) => {
                self.revealed = r;
                quiet
            },
            MessageRowInput::SetThreadExpanded(x) => {
                self.thread_expanded = x;
                quiet
            },
        }
    }

    /// The name line: the sender, or in a Sent folder who it went to.
    pub fn name_line(&self) -> (r: String)
        ensures
            r@ == name_line_of(self.msg, self.show_recipient),
    {
        name_line(&self.msg, self.show_recipient)
    }

    /// The name the avatar's initials and face lookups key on.
    pub fn face_name(&self) -> (r: String)
        ensures
            r@ == face_name_of(self.msg, self.show_recipient),
    {
        face_name(&self.msg, self.show_recipient)
    }

    /// The address face lookups run against.
    pub fn face_email(&self) -> (r: String)
        ensures
            r@ == face_email_of(self.msg, self.show_recipient),
    {
        face_email(&self.msg, self.show_recipient)
    }

    /// The palette toggle's classes: revealed while the row is hovered or
    /// the palette open.
    pub fn chevron_classes(&self) -> (r: Vec<&'static str>)
        ensures
            names(r@) == seq!["flat"@, "palette-toggle"@] + (if self.row_hovered || self.palette_open {
                seq!["revealed"@]
            } else {
                seq![]
            }),
    {
        chevron_classes(self.row_hovered, self.palette_open)
    }

    /// The avatar ring's class, when the account has a colour.
    pub fn ring_classes(&self) -> (r: Vec<String>)
        ensures
            match self.ring_class {
                Some(c) => r@.len() == 1 && r@[0]@ == c@,
                None => r@.len() == 0,
            },
    {
        ring_classes(&self.ring_class)
    }

    /// The row's classes: unread, unread conversation, reply.
    pub fn row_css(&self) -> (r: Vec<&'static str>)
        ensures
            names(r@) == (if self.msg.unread {
                seq!["message-unread"@]
            } else {
                seq![]
            }) + (if self.thread_unread {
                seq!["thread-unread"@]
            } else {
                seq![]
            }) + (if self.is_thread_child {
                seq!["thread-child"@]
            } else {
                seq![]
            }),
    {
        row_css(&self.msg, self.thread_unread, self.is_thread_child)
    }

    /// The content box's classes: narrower without the avatar.
    pub fn content_css(&self) -> (r: Vec<&'static str>)
        ensures
            names(r@) == (if self.avatars {
                seq!["message-row"@]
            } else {
                seq!["message-row"@, "no-avatar"@]
            }),
    {
        content_css(self.avatars)
    }

    /// Whether the row is drawn unread: the message, or a collapsed
    /// conversation with an unread message.
    pub fn display_unread(&self) -> (r: bool)
        ensures
            r == (self.msg.unread || self.thread_unread),
    {
        display_unread(&self.msg, self.thread_unread)
    }

    pub fn sender_classes(&self) -> (r: Vec<&'static str>)
        ensures
            names(r@) == seq!["message-sender"@] + (if self.msg.unread || self.thread_unread {
                seq!["unread"@]
            } else {
                seq![]
            }),
    {
        sender_classes(&self.msg, self.thread_unread)
    }

    pub fn subject_classes(&self) -> (r: Vec<&'static str>)
        ensures
            names(r@) == seq!["message-subject"@] + (if self.msg.unread || self.thread_unread {
                seq!["unread"@]
            } else {
                seq![]
            }),
    {
        subject_classes(&self.msg, self.thread_unread)
    }
}

} // verus!

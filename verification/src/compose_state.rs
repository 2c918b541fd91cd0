//! The compose window as a state machine: its layout, whether anything was
//! edited, its attachments and the recipient completion, and what each input
//! asks of the window and its editor.

use vstd::prelude::*;
use crate::compose::{completion_move, current_token, fields_visible, ranked, ranked_matches, token_of, Field, Suggestion};
use crate::text::{trim, unicode_lower};

verus! {

/// The compose window's state.
pub struct Compose {
    /// A reply opened inline without its field rows.
    pub compact: bool,
    pub windowed: bool,
    /// A field other than the body was edited.
    pub fields_dirty: bool,
    /// The files to attach.
    pub attachments: Vec<String>,
    /// The field the completion list is attached to.
    pub completion_field: Option<Field>,
    /// The suggestions shown, as positions among the known ones.
    pub completion_rows: Vec<usize>,
    pub completion_selected: usize,
    pub completion_open: bool,
}

/// What the compose window is told. A suggestion or acceptance comes with
/// the field's text and every known recipient suggestion; the window keeps
/// those that match what is typed.
pub enum ComposeInput {
    Cancel,
    ToggleWindowed,
    SetWindowed(bool),
    MarkFieldsDirty,
    SaveDraftIfDirty,
    AddAttachments(Vec<String>),
    RemoveAttachment(usize),
    Suggest { field: Field, text: String, suggestions: Vec<Suggestion> },
    CompletionMove(i32),
    CompletionAccept { text: String, suggestions: Vec<Suggestion> },
    CompletionClose,
    /// Send, with the To field's text.
    Send { to: String },
}

/// What the window does after an input.
pub struct ComposeEffects {
    /// Close the compose window.
    pub close: bool,
    /// Move it between the reader and a window of its own.
    pub toggle_window: bool,
    /// Show or hide the field rows.
    pub fields_visible: Option<bool>,
    /// Save the draft.
    pub save_draft: bool,
    /// Ask the editor whether the body was edited, saving only then.
    pub check_body: bool,
    /// Rebuild the attachment chips.
    pub rebuild_attachments: bool,
    /// Show the completion list (the rows in `completion_rows`).
    pub show_completion: bool,
    /// Hide it.
    pub hide_completion: bool,
    /// Highlight this row of the list.
    pub select_row: Option<usize>,
    /// Complete the field with this suggestion (its position among those
    /// offered).
    pub accept: Option<usize>,
    /// Mark the To field as needing a recipient.
    pub to_error: bool,
    /// Take the editor's content and send.
    pub send: bool,
}

pub open spec fn idle() -> ComposeEffects {
    ComposeEffects {
        close: false,
        toggle_window: false,
        fields_visible: None,
        save_draft: false,
        check_body: false,
        rebuild_attachments: false,
        show_completion: false,
        hide_completion: false,
        select_row: None,
        accept: None,
        to_error: false,
        send: false,
    }
}

fn idle_exec() -> (r: ComposeEffects)
    ensures
        r == idle(),
{
    ComposeEffects {
        close: false,
        toggle_window: false,
        fields_visible: None,
        save_draft: false,
        check_body: false,
        rebuild_attachments: false,
        show_completion: false,
        hide_completion: false,
        select_row: None,
        accept: None,
        to_error: false,
        send: false,
    }
}

/// The window's invariant: at most eight suggestions are shown, and one of
/// them is highlighted when there are any.
pub open spec fn compose_ok(c: Compose) -> bool {
    &&& c.completion_rows@.len() <= 8
    &&& c.completion_selected <= c.completion_rows@.len()
}

/// The suggestions ranked for what is typed in `text` (see [`ranked`]).
pub open spec fn ranked_for(suggestions: Seq<Suggestion>, text: Seq<char>, rows: Seq<usize>) -> bool {
    exists|sorted: Seq<usize>| #[trigger] ranked(suggestions, unicode_lower(token_of(text)), sorted, rows)
}

/// What a suggestion request does (see [`compose_next`]).
pub open spec fn suggested(
    old: Compose,
    field: Field,
    text: Seq<char>,
    suggestions: Seq<Suggestion>,
    new: Compose,
    fx: ComposeEffects,
) -> bool {
    if token_of(text).len() == 0 {
        new == Compose { completion_open: false, ..old } && fx == ComposeEffects { hide_completion: true, ..idle() }
    } else {
        exists|rows: Seq<usize>|
            #![trigger ranked_for(suggestions, text, rows)]
            ranked_for(suggestions, text, rows) && if rows.len() == 0 {
                new == Compose { completion_open: false, ..old } && fx == ComposeEffects {
                    hide_completion: true,
                    ..idle()
                }
            } else {
                &&& new.completion_rows@ == rows
                &&& new == Compose {
                    completion_field: Some(field),
                    completion_rows: new.completion_rows,
                    completion_selected: 0,
                    completion_open: true,
                    ..old
                }
                &&& fx == ComposeEffects { show_completion: true, select_row: Some(0), ..idle() }
            }
    }
}

/// What accepting the highlighted suggestion does (see [`compose_next`]).
pub open spec fn accepted(old: Compose, text: Seq<char>, suggestions: Seq<Suggestion>, new: Compose, fx: ComposeEffects) -> bool {
    match old.completion_field {
        None => new == old && fx == idle(),
        Some(_) => {
            &&& new == Compose { completion_open: false, ..old }
            &&& if token_of(text).len() == 0 {
                fx == ComposeEffects { hide_completion: true, ..idle() }
            } else {
                exists|rows: Seq<usize>|
                    #![trigger ranked_for(suggestions, text, rows)]
                    ranked_for(suggestions, text, rows) && fx == ComposeEffects {
                        hide_completion: true,
                        accept: if old.completion_selected < rows.len() {
                            Some(rows[old.completion_selected as int])
                        } else {
                            None
                        },
                        ..idle()
                    }
            }
        },
    }
}

/// What an input does to the window and what it asks for.
pub open spec fn compose_next(old: Compose, e: ComposeInput, new: Compose, fx: ComposeEffects) -> bool {
    match e {
        ComposeInput::Cancel => new == old && fx == ComposeEffects { close: true, ..idle() },
        ComposeInput::ToggleWindowed => new == old && fx == ComposeEffects { toggle_window: true, ..idle() },
        ComposeInput::SetWindowed(w) => new == Compose { windowed: w, ..old } && fx == ComposeEffects {
            fields_visible: Some(!(old.compact && !w)),
            ..idle()
        },
        ComposeInput::MarkFieldsDirty => new == Compose { fields_dirty: true, ..old } && fx == idle(),
        ComposeInput::SaveDraftIfDirty => new == old && fx == ComposeEffects {
            save_draft: old.fields_dirty,
            check_body: !old.fields_dirty,
            ..idle()
        },
        ComposeInput::AddAttachments(paths) => {
            &&& new.attachments@ == old.attachments@ + paths@
            &&& new == Compose { attachments: new.attachments, ..old }
            &&& fx == ComposeEffects { rebuild_attachments: true, ..idle() }
        },
        ComposeInput::RemoveAttachment(i) => if i < old.attachments@.len() {
            &&& new.attachments@ == old.attachments@.remove(i as int)
            &&& new == Compose { attachments: new.attachments, ..old }
            &&& fx == ComposeEffects { rebuild_attachments: true, ..idle() }
        } else {
            new == old && fx == idle()
        },
        ComposeInput::Suggest { field, text, suggestions } => suggested(old, field, text@, suggestions@, new, fx),
        ComposeInput::CompletionMove(delta) => {
            let count = old.completion_rows@.len();
            if count == 0 {
                new == old && fx == idle()
            } else {
                let s = old.completion_selected + delta;
                let n = if s < 0 {
                    0
                } else if s > count - 1 {
                    count - 1
                } else {
                    s
                };
                new == Compose { completion_selected: n as usize, ..old } && fx == ComposeEffects {
                    select_row: Some(n as usize),
                    ..idle()
                }
            }
        },
        ComposeInput::CompletionAccept { text, suggestions } => accepted(old, text@, suggestions@, new, fx),
        ComposeInput::CompletionClose => new == Compose { completion_open: false, ..old } && fx == ComposeEffects {
            hide_completion: true,
            ..idle()
        },
        ComposeInput::Send { to } => new == old && if trim(to@).len() == 0 {
            fx == ComposeEffects { to_error: true, ..idle() }
        } else {
            fx == ComposeEffects { send: true, ..idle() }
        },
    }
}

proof fn lemma_ranked_len(suggestions: Seq<Suggestion>, text: Seq<char>, rows: Seq<usize>)
    requires
        ranked_for(suggestions, text, rows),
    ensures
        rows.len() <= 8,
{
    let sorted = choose|sorted: Seq<usize>| #[trigger] ranked(suggestions, unicode_lower(token_of(text)), sorted, rows);
    assert(ranked(suggestions, unicode_lower(token_of(text)), sorted, rows));
}

impl Compose {
    /// A compose window with nothing attached or suggested.
    pub fn new(compact: bool, windowed: bool) -> (c: Compose)
        ensures
            compose_ok(c),
            c.compact == compact && c.windowed == windowed,
            !c.fields_dirty,
            c.attachments@.len() == 0,
            c.completion_field is None && c.completion_rows@.len() == 0 && !c.completion_open,
    {
        Compose {
            compact,
            windowed,
            fields_dirty: false,
            attachments: Vec::new(),
            completion_field: None,
            completion_rows: Vec::new(),
            completion_selected: 0,
            completion_open: false,
        }
    }

    fn suggest(&mut self, field: Field, text: String, suggestions: Vec<Suggestion>) -> (fx: ComposeEffects)
        requires
            compose_ok(*old(self)),
        ensures
            compose_ok(*final(self)),
            suggested(*old(self), field, text@, suggestions@, *final(self), fx),
    {
        let token = current_token(text.as_str());
        if token.as_str().unicode_len() == 0 {
            self.completion_open = false;
            return ComposeEffects { hide_completion: true, ..idle_exec() };
        }
        let rows = ranked_matches(suggestions.as_slice(), token.as_str());
        proof {
            assert(ranked_for(suggestions@, text@, rows@));
            lemma_ranked_len(suggestions@, text@, rows@);
        }
        if rows.len() == 0 {
            self.completion_open = false;
            return ComposeEffects { hide_completion: true, ..idle_exec() };
        }
        self.completion_field = Some(field);
        self.completion_rows = rows;
        self.completion_selected = 0;
        self.completion_open = true;
        ComposeEffects { show_completion: true, select_row: Some(0), ..idle_exec() }
    }

    fn accept(&mut self, text: String, suggestions: Vec<Suggestion>) -> (fx: ComposeEffects)
        requires
            compose_ok(*old(self)),
        ensures
            compose_ok(*final(self)),
            accepted(*old(self), text@, suggestions@, *final(self), fx),
    {
        if self.completion_field.is_none() {
            return idle_exec();
        }
        self.completion_open = false;
        let token = current_token(text.as_str());
        if token.as_str().unicode_len() == 0 {
            return ComposeEffects { hide_completion: true, ..idle_exec() };
        }
        let rows = ranked_matches(suggestions.as_slice(), token.as_str());
        proof {
            assert(ranked_for(suggestions@, text@, rows@));
        }
        let accept = if self.completion_selected < rows.len() {
            Some(rows[self.completion_selected])
        } else {
            None
        };
        ComposeEffects { hide_completion: true, accept, ..idle_exec() }
    }

    /// Applies an input: the window keeps its invariant, and the state and
    /// effects are those [`compose_next`] describes.
    pub fn update(&mut self, e: ComposeInput) -> (fx: ComposeEffects)
        requires
            compose_ok(*old(self)),
        ensures
            compose_ok(*final(self)),
            compose_next(*old(self), e, *final(self), fx),
    {
        match e {
            ComposeInput::Cancel => ComposeEffects { close: true, ..idle_exec() },
            ComposeInput::ToggleWindowed => ComposeEffects { toggle_window: true, ..idle_exec() },
            ComposeInput::SetWindowed(w) => {
                self.windowed = w;
                let visible = fields_visible(self.compact, w);
                ComposeEffects { fields_visible: Some(visible), ..idle_exec() }
            },
            ComposeInput::MarkFieldsDirty => {
                self.fields_dirty = true;
                idle_exec()
            },
            ComposeInput::SaveDraftIfDirty => ComposeEffects {
                save_draft: self.fields_dirty,
                check_body: !self.fields_dirty,
                ..idle_exec()
            },
            ComposeInput::AddAttachments(paths) => {
                let mut paths = paths;
                self.attachments.append(&mut paths);
                ComposeEffects { rebuild_attachments: true, ..idle_exec() }
            },
            ComposeInput::RemoveAttachment(i) => {
                if i < self.attachments.len() {
                    self.attachments.remove(i);
                    ComposeEffects { rebuild_attachments: true, ..idle_exec() }
                } else {
                    idle_exec()
                }
            },
            ComposeInput::Suggest { field, text, suggestions } => self.suggest(field, text, suggestions),
            ComposeInput::CompletionMove(delta) => {
                let count = self.completion_rows.len();
                if count == 0 {
                    return idle_exec();
                }
                match completion_move(self.completion_selected, delta, count) {
                    Some(n) => {
                        self.completion_selected = n;
                        ComposeEffects { select_row: Some(n), ..idle_exec() }
                    },
                    None => idle_exec(),
                }
            },
            ComposeInput::CompletionAccept { text, suggestions } => self.accept(text, suggestions),
            ComposeInput::CompletionClose => {
                self.completion_open = false;
                ComposeEffects { hide_completion: true, ..idle_exec() }
            },
            ComposeInput::Send { to } => {
                if crate::compose::can_send(to.as_str()) {
                    ComposeEffects { send: true, ..idle_exec() }
                } else {
                    ComposeEffects { to_error: true, ..idle_exec() }
                }
            },
        }
    }
}

} // verus!

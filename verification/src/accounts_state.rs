//! The account settings as a state machine: the accounts' order and
//! switches, the editor (adding, editing, saving and removing an account,
//! its aliases, its label that follows the address), and the sender
//! allow-list and blocklist; what each input changes and what it asks of the
//! window.

use vstd::prelude::*;
use crate::accounts::{
    alias_address, alias_address_of, alias_check, alias_check_of, alias_identity, AliasCheck, label_follows, list_views, move_item, new_list_entry, remove_list_entry, signature_empty,
    signature_is_empty,
};
use crate::list_state::drop_first_of;
use crate::text::{trim, trim_str, unicode_lower};

verus! {

/// How an account reaches its servers; for an account imported from GNOME
/// Online Accounts, GNOME owns all of it.
pub struct Connection {
    /// Browser sign-in (OAuth) rather than a password.
    pub oauth: bool,
    /// The OAuth client, empty without OAuth settings.
    pub client_id: String,
    pub imap_host: String,
    pub imap_port: u16,
    pub smtp_host: String,
    pub smtp_port: u16,
    pub username: String,
    pub password: String,
    /// Sending signs in with its own credentials.
    pub smtp_separate: bool,
    pub smtp_username: String,
    pub smtp_password: String,
}

/// An account.
pub struct AccountEntry {
    pub email: String,
    pub enabled: bool,
    /// Imported from GNOME Online Accounts.
    pub goa: bool,
    /// The display name.
    pub name: String,
    pub connection: Connection,
    /// The refresh token of a fresh browser sign-in; empty to keep the one
    /// already stored.
    pub oauth_refresh: String,
    /// The send-as aliases.
    pub aliases: Vec<Alias>,
    /// The emoji shown beside the account.
    pub emoji: Option<String>,
    /// The signature, as HTML; none when the editor holds nothing visible.
    pub signature: Option<String>,
}

/// A send-as alias: its identity (`Name <address>` or the bare address)
/// and, when it sends through a server of its own, that server's host,
/// port, user and password (empty host, user and password otherwise).
pub struct Alias {
    pub identity: String,
    pub smtp_host: String,
    pub smtp_port: u16,
    pub smtp_username: String,
    pub smtp_password: String,
}

/// What the alias dialog's fields say when Save is pressed (name, address,
/// host and user trimmed).
pub struct AliasForm {
    pub name: String,
    pub address: String,
    pub own_smtp: bool,
    pub host: String,
    /// The port field's text.
    pub port: String,
    pub user: String,
    pub password: String,
    /// The editor's (trimmed) account address.
    pub account_email: String,
}

/// What the editor's fields say when Save is pressed.
pub struct AccountForm {
    pub name: String,
    pub email: String,
    pub connection: Connection,
}

/// The settings' state.
pub struct AccountsWindow {
    pub accounts: Vec<AccountEntry>,
    /// Senders whose remote content loads.
    pub sender_addrs: Vec<String>,
    /// Senders whose mail is deleted on arrival.
    pub blacklist_addrs: Vec<String>,
    /// The address the editor's label last mirrored.
    pub label_synced: String,
    /// The account the editor is on; none while adding one.
    pub editing: Option<usize>,
    /// The aliases as the editor has them, saved with the account.
    pub alias_edits: Vec<Alias>,
    /// The alias the dialog edits; none while it adds one.
    pub alias_editing: Option<usize>,
    /// The alias dialog is up.
    pub alias_dialog: bool,
    /// The emoji the editor has chosen.
    pub emoji: Option<String>,
    /// The refresh token of a browser sign-in not yet saved.
    pub pending_refresh: Option<String>,
    /// The editor page is showing.
    pub editor_open: bool,
}

/// What the settings are told.
pub enum AccountsInput {
    MoveRow { from: usize, to: usize },
    ToggleEnabled { index: usize, enabled: bool },
    AddSenderText(String),
    RemoveSenderRow(String),
    AddBlacklistText(String),
    RemoveBlacklistRow(String),
    /// The editor's address changed; with the address field's text and the
    /// label field's text.
    EmailChanged { email: String, label: String },
    /// Open the editor on a new account.
    AddAccount,
    /// Open the editor on the account at this position.
    EditAccount(usize),
    /// Open the editor on the account with this address, leaving another
    /// account's editor first if one is up.
    EditAccountByEmail(String),
    /// "Remove Account" was clicked: ask first.
    RemoveCurrent,
    /// The removal was confirmed.
    ConfirmRemove,
    /// Take the alias at this position off the list being edited.
    AliasRemove(usize),
    /// Open the alias dialog on a new alias.
    AliasAdd,
    /// Open the alias dialog on the alias at this position.
    AliasEdit(usize),
    /// The alias dialog's Save.
    AliasDialogSave(AliasForm),
    /// The alias dialog closed; `replaced` when another dialog is up by now.
    AliasDialogClosed { replaced: bool },
    /// Switch the account being edited on or off.
    ToggleCurrentEnabled(bool),
    /// Choose an emoji for the account being edited.
    SetEmoji(String),
    ClearEmoji,
    /// A browser sign-in finished with this refresh token.
    SignedIn(String),
    /// Save, with the signature editor's HTML and the form's fields.
    SaveWithSig { sig_html: String, form: AccountForm },
}

/// What the window does after an input.
pub struct AccountsEffects {
    /// Rebuild the account list and report the new order.
    pub reordered: bool,
    /// Report that this account was switched on or off.
    pub enabled_changed: Option<usize>,
    /// Take this account (imported from GNOME) out of Vireo.
    pub unimport: Option<usize>,
    /// The last entry of the allow-list (or blocklist) was added.
    pub sender_added: bool,
    pub blacklist_added: bool,
    /// The entry at this position was removed.
    pub sender_removed: Option<usize>,
    pub blacklist_removed: Option<usize>,
    /// Put the address into the label field.
    pub mirror_label: bool,
    /// Fill the editor for the account being edited (or empty it for a new
    /// one) and show it.
    pub show_editor: bool,
    /// Leave the editor page (before showing another account's editor, or
    /// after a save or a removal).
    pub pop_editor: bool,
    /// Ask whether to remove the account at this position.
    pub confirm_remove: Option<usize>,
    /// The account with this address was removed; offer the imports anew.
    pub removed: Option<String>,
    /// The account now at this position was saved; report it with the
    /// address it had before (none for a new account).
    pub saved: Option<usize>,
    pub saved_original: Option<String>,
    /// The form is incomplete: mark the server field.
    pub save_refused: bool,
    /// OAuth needs a client and a sign-in before saving: say so.
    pub oauth_missing: bool,
    /// Show the alias list anew.
    pub aliases_changed: bool,
    /// Say that the sign-in succeeded.
    pub signed_in: bool,
    /// Open the alias dialog, on the alias being edited or an empty one.
    pub alias_dialog: bool,
    /// The alias dialog's fields that are wrong; the dialog stays.
    pub alias_errors: Option<AliasCheck>,
    /// Close the alias dialog.
    pub close_alias_dialog: bool,
    /// Show the chosen emoji (or none).
    pub emoji_changed: bool,
}

pub open spec fn unchanged_fx() -> AccountsEffects {
    AccountsEffects {
        reordered: false,
        enabled_changed: None,
        unimport: None,
        sender_added: false,
        blacklist_added: false,
        sender_removed: None,
        blacklist_removed: None,
        mirror_label: false,
        show_editor: false,
        pop_editor: false,
        confirm_remove: None,
        removed: None,
        saved: None,
        saved_original: None,
        save_refused: false,
        oauth_missing: false,
        aliases_changed: false,
        signed_in: false,
        alias_dialog: false,
        alias_errors: None,
        close_alias_dialog: false,
        emoji_changed: false,
    }
}

fn unchanged_exec() -> (r: AccountsEffects)
    ensures
        r == unchanged_fx(),
{
    AccountsEffects {
        reordered: false,
        enabled_changed: None,
        unimport: None,
        sender_added: false,
        blacklist_added: false,
        sender_removed: None,
        blacklist_removed: None,
        mirror_label: false,
        show_editor: false,
        pop_editor: false,
        confirm_remove: None,
        removed: None,
        saved: None,
        saved_original: None,
        save_refused: false,
        oauth_missing: false,
        aliases_changed: false,
        signed_in: false,
        alias_dialog: false,
        alias_errors: None,
        close_alias_dialog: false,
        emoji_changed: false,
    }
}

// ---------------------------------------------------------------------------
// Saving
// ---------------------------------------------------------------------------

/// The account being edited, if the editor is on one that exists.
pub open spec fn edited(old: AccountsWindow) -> Option<AccountEntry> {
    match old.editing {
        Some(i) => if i < old.accounts@.len() {
            Some(old.accounts@[i as int])
        } else {
            None
        },
        None => None,
    }
}

/// Whether a save makes a native account: not one imported from GNOME.
pub open spec fn native_save(old: AccountsWindow) -> bool {
    match edited(old) {
        Some(o) => !o.goa,
        None => true,
    }
}

/// The user name a native account is saved with: under OAuth a blank one
/// defaults to the address.
pub open spec fn saved_username(form: AccountForm) -> Seq<char> {
    if form.connection.oauth && trim(form.connection.username@).len() == 0 {
        form.email@
    } else {
        form.connection.username@
    }
}

/// A native OAuth account without a client, or without a sign-in (a fresh
/// one, or the account's own from before).
pub open spec fn oauth_unready(old: AccountsWindow, form: AccountForm) -> bool {
    &&& native_save(old)
    &&& form.connection.oauth
    &&& !(trim(form.connection.client_id@).len() > 0 && (old.pending_refresh is Some || match edited(
        old,
    ) {
        Some(o) => o.connection.oauth,
        None => false,
    }))
}

/// Whether a save goes through: always for an imported account; a native
/// one needs a server, a user name, a password unless it signs in with
/// OAuth (and then a client and a sign-in), and sending credentials of its
/// own when it sends separately.
pub open spec fn save_ok(old: AccountsWindow, form: AccountForm) -> bool {
    let f = form.connection;
    !native_save(old) || {
        &&& f.imap_host@.len() > 0
        &&& saved_username(form).len() > 0
        &&& (f.oauth || f.password@.len() > 0)
        &&& !oauth_unready(old, form)
        &&& (f.smtp_separate ==> f.smtp_username@.len() > 0 && f.smtp_password@.len() > 0)
    }
}

/// The connection a native account is saved with: as the form says, with
/// the user name as `saved_username` gives it, and no OAuth client without
/// OAuth.
pub open spec fn native_connection(form: AccountForm, c: Connection) -> bool {
    let f = form.connection;
    &&& c.oauth == f.oauth
    &&& c.client_id@ == (if f.oauth {
        f.client_id@
    } else {
        Seq::<char>::empty()
    })
    &&& c.username@ == saved_username(form)
    &&& c.imap_host == f.imap_host && c.imap_port == f.imap_port
    &&& c.smtp_host == f.smtp_host && c.smtp_port == f.smtp_port
    &&& c.password == f.password && c.smtp_separate == f.smtp_separate
    &&& c.smtp_username == f.smtp_username && c.smtp_password == f.smtp_password
}

/// The account a save makes of the form. Editing keeps the account's switch
/// and its import; an imported account keeps its address and its whole
/// connection, which GNOME owns. A native account signs in as the provider
/// dropdown says, and under OAuth takes along a fresh sign-in's token. The
/// aliases are the editor's; the signature is kept unless the editor holds
/// nothing visible.
pub open spec fn saved_account(old: AccountsWindow, sig_html: Seq<char>, form: AccountForm, acc: AccountEntry) -> bool {
    &&& acc.enabled == (match edited(old) {
        Some(o) => o.enabled,
        None => true,
    })
    &&& acc.goa == !native_save(old)
    &&& acc.name == form.name
    &&& acc.aliases@ == old.alias_edits@
    &&& acc.emoji == old.emoji
    &&& (if signature_empty(trim(sig_html)) {
        acc.signature is None
    } else {
        acc.signature matches Some(sg) && sg@ == sig_html
    })
    &&& match edited(old) {
        Some(o) if o.goa => acc.email == o.email && acc.connection == o.connection
            && acc.oauth_refresh@ == Seq::<char>::empty(),
        _ => {
            &&& acc.email == form.email
            &&& native_connection(form, acc.connection)
            &&& acc.oauth_refresh@ == (match old.pending_refresh {
                Some(rt) => if form.connection.oauth {
                    rt@
                } else {
                    Seq::<char>::empty()
                },
                None => Seq::<char>::empty(),
            })
        },
    }
}

/// The accounts after a save: the edited one replaced, else the new one
/// added at the end; and where the saved one now stands.
pub open spec fn stored(old: AccountsWindow, acc: AccountEntry, new: Seq<AccountEntry>, at: usize) -> bool {
    match edited(old) {
        Some(_) => new == old.accounts@.update(old.editing->0 as int, acc) && at == old.editing->0,
        None => new == old.accounts@.push(acc) && at == old.accounts@.len(),
    }
}

/// The addresses of the first `n` aliases, leaving out the one at `skip`.
pub open spec fn other_addresses(v: Seq<Alias>, skip: Option<usize>, n: int) -> Seq<Seq<char>>
    decreases n,
{
    if n <= 0 {
        seq![]
    } else {
        let r = other_addresses(v, skip, n - 1);
        if skip == Some((n - 1) as usize) {
            r
        } else {
            r.push(alias_address(v[n - 1].identity@))
        }
    }
}

/// Some field of the alias dialog is wrong.
pub open spec fn alias_refused(c: AliasCheck) -> bool {
    c.address || c.host || c.user || c.password
}

/// What the alias dialog's checks say of its fields.
pub open spec fn alias_form_check(old: AccountsWindow, f: AliasForm) -> AliasCheck {
    alias_check_of(
        f.address@,
        f.account_email@,
        other_addresses(old.alias_edits@, old.alias_editing, old.alias_edits@.len() as int),
        f.own_smtp,
        f.host@,
        f.user@,
        f.password@,
    )
}

/// The port an alias is saved with: the field's number, else 587.
pub open spec fn alias_port(text: Seq<char>) -> u16 {
    match crate::reader::parse_u32(text) {
        Some(v) => if v <= 65535 {
            v as u16
        } else {
            587
        },
        None => 587,
    }
}

/// The alias the dialog saves: its identity from the name and address, and
/// its own server only when it has one.
pub open spec fn saved_alias(f: AliasForm, a: Alias) -> bool {
    let own = |x: Seq<char>| if f.own_smtp {
        x
    } else {
        Seq::<char>::empty()
    };
    &&& a.identity@ == (if f.name@.len() == 0 {
        f.address@
    } else {
        f.name@ + " <"@ + f.address@ + ">"@
    })
    &&& a.smtp_host@ == own(f.host@)
    &&& a.smtp_port == alias_port(f.port@)
    &&& a.smtp_username@ == own(f.user@)
    &&& a.smtp_password@ == own(f.password@)
}

/// The first account at or after `k` with this address.
pub open spec fn account_with_email(accs: Seq<AccountEntry>, email: Seq<char>, k: int) -> Option<usize>
    decreases accs.len() - k,
{
    if k < 0 || k >= accs.len() {
        None
    } else if accs[k].email@ == email {
        Some(k as usize)
    } else {
        account_with_email(accs, email, k + 1)
    }
}

/// The editor opened on account `i`: its aliases and its address (which
/// the label mirrors) loaded, no sign-in pending.
pub open spec fn editor_opened(old: AccountsWindow, i: usize, new: AccountsWindow) -> bool {
    let acc = old.accounts@[i as int];
    &&& new.alias_edits@ == acc.aliases@
    &&& new == AccountsWindow {
        editing: Some(i),
        alias_edits: new.alias_edits,
        alias_dialog: false,
        emoji: acc.emoji,
        label_synced: acc.email,
        pending_refresh: None,
        editor_open: true,
        ..old
    }
}

/// A list after an entry typed as `text` is added: its trimmed, lower-cased
/// form, unless blank or listed already.
pub open spec fn list_added(listed: Seq<String>, text: Seq<char>, new: Seq<String>, added: bool) -> bool {
    let a = unicode_lower(trim(text));
    if a.len() > 0 && !list_views(listed).contains(a) {
        added && list_views(new) == list_views(listed).push(a)
    } else {
        !added && new == listed
    }
}

/// Where an address stands in a list, first occurrence.
pub open spec fn list_position(listed: Seq<String>, addr: Seq<char>, r: Option<usize>) -> bool {
    match r {
        Some(i) => i < listed.len() && listed[i as int]@ == addr && forall|k: int|
            0 <= k < i ==> listed[k]@ != addr,
        None => !list_views(listed).contains(addr),
    }
}

/// What an input does to the settings and what it asks for.
pub open spec fn accounts_next(old: AccountsWindow, e: AccountsInput, new: AccountsWindow, fx: AccountsEffects) -> bool {
    match e {
        AccountsInput::MoveRow { from, to } => if from < old.accounts@.len() {
            &&& new.accounts@ == old.accounts@.remove(from as int).insert(
                (if to < old.accounts@.len() - 1 {
                    to as int
                } else {
                    old.accounts@.len() - 1
                }),
                old.accounts@[from as int],
            )
            &&& new == AccountsWindow { accounts: new.accounts, ..old }
            &&& fx == AccountsEffects { reordered: true, ..unchanged_fx() }
        } else {
            new == old && fx == unchanged_fx()
        },
        AccountsInput::ToggleEnabled { index, enabled } => if index < old.accounts@.len() {
            let acc = old.accounts@[index as int];
            if !enabled && acc.goa {
                new == old && fx == AccountsEffects { unimport: Some(index), ..unchanged_fx() }
            } else if acc.enabled != enabled {
                &&& new.accounts@ == old.accounts@.update(index as int, AccountEntry { enabled, ..acc })
                &&& new == AccountsWindow { accounts: new.accounts, ..old }
                &&& fx == AccountsEffects { enabled_changed: Some(index), ..unchanged_fx() }
            } else {
                new == old && fx == unchanged_fx()
            }
        } else {
            new == old && fx == unchanged_fx()
        },
        AccountsInput::AddSenderText(text) => {
            &&& list_added(old.sender_addrs@, text@, new.sender_addrs@, fx.sender_added)
            &&& new == AccountsWindow { sender_addrs: new.sender_addrs, ..old }
            &&& fx == AccountsEffects { sender_added: fx.sender_added, ..unchanged_fx() }
        },
        AccountsInput::AddBlacklistText(text) => {
            &&& list_added(old.blacklist_addrs@, text@, new.blacklist_addrs@, fx.blacklist_added)
            &&& new == AccountsWindow { blacklist_addrs: new.blacklist_addrs, ..old }
            &&& fx == AccountsEffects { blacklist_added: fx.blacklist_added, ..unchanged_fx() }
        },
        AccountsInput::RemoveSenderRow(addr) => {
            &&& list_views(new.sender_addrs@) == drop_first_of(list_views(old.sender_addrs@), addr@)
            &&& list_position(old.sender_addrs@, addr@, fx.sender_removed)
            &&& new == AccountsWindow { sender_addrs: new.sender_addrs, ..old }
            &&& fx == AccountsEffects { sender_removed: fx.sender_removed, ..unchanged_fx() }
        },
        AccountsInput::RemoveBlacklistRow(addr) => {
            &&& list_views(new.blacklist_addrs@) == drop_first_of(list_views(old.blacklist_addrs@), addr@)
            &&& list_position(old.blacklist_addrs@, addr@, fx.blacklist_removed)
            &&& new == AccountsWindow { blacklist_addrs: new.blacklist_addrs, ..old }
            &&& fx == AccountsEffects { blacklist_removed: fx.blacklist_removed, ..unchanged_fx() }
        },
        AccountsInput::EmailChanged { email, label } => {
            &&& new.label_synced@ == trim(email@)
            &&& new == AccountsWindow { label_synced: new.label_synced, ..old }
            &&& fx == AccountsEffects {
                mirror_label: label@.len() == 0 || label@ == old.label_synced@,
                ..unchanged_fx()
            }
        },
        AccountsInput::AddAccount => {
            &&& new.label_synced@ == Seq::<char>::empty()
            &&& new.alias_edits@.len() == 0
            &&& new == AccountsWindow {
                editing: None,
                label_synced: new.label_synced,
                alias_edits: new.alias_edits,
                alias_dialog: false,
                emoji: None,
                pending_refresh: None,
                editor_open: true,
                ..old
            }
            &&& fx == AccountsEffects { show_editor: true, aliases_changed: true, ..unchanged_fx() }
        },
        AccountsInput::EditAccount(i) => if i < old.accounts@.len() {
            editor_opened(old, i, new) && fx == AccountsEffects {
                show_editor: true,
                aliases_changed: true,
                ..unchanged_fx()
            }
        } else {
            new == old && fx == unchanged_fx()
        },
        AccountsInput::EditAccountByEmail(email) => match account_with_email(old.accounts@, email@, 0) {
            Some(i) => if old.editor_open && old.editing == Some(i) {
                new == old && fx == unchanged_fx()
            } else {
                editor_opened(old, i, new) && fx == AccountsEffects {
                    show_editor: true,
                    aliases_changed: true,
                    pop_editor: old.editor_open,
                    ..unchanged_fx()
                }
            },
            None => new == old && fx == unchanged_fx(),
        },
        AccountsInput::RemoveCurrent => new == old && fx == match edited(old) {
            Some(_) => AccountsEffects { confirm_remove: old.editing, ..unchanged_fx() },
            None => unchanged_fx(),
        },
        AccountsInput::ConfirmRemove => match edited(old) {
            Some(acc) => {
                &&& new.accounts@ == old.accounts@.remove(old.editing->0 as int)
                &&& new == AccountsWindow { accounts: new.accounts, editor_open: false, ..old }
                &&& fx == AccountsEffects { removed: Some(acc.email), pop_editor: true, ..unchanged_fx() }
            },
            None => new == AccountsWindow { editor_open: false, ..old } && fx == AccountsEffects {
                pop_editor: true,
                ..unchanged_fx()
            },
        },
        AccountsInput::AliasRemove(i) => if i < old.alias_edits@.len() {
            &&& new.alias_edits@ == old.alias_edits@.remove(i as int)
            &&& new == AccountsWindow { alias_edits: new.alias_edits, ..old }
            &&& fx == AccountsEffects { aliases_changed: true, ..unchanged_fx() }
        } else {
            new == old && fx == unchanged_fx()
        },
        AccountsInput::AliasAdd => {
            &&& new == AccountsWindow { alias_editing: None, alias_dialog: true, ..old }
            &&& fx == AccountsEffects { alias_dialog: true, ..unchanged_fx() }
        },
        AccountsInput::AliasEdit(i) => if i < old.alias_edits@.len() {
            &&& new == AccountsWindow { alias_editing: Some(i), alias_dialog: true, ..old }
            &&& fx == AccountsEffects { alias_dialog: true, ..unchanged_fx() }
        } else {
            new == old && fx == unchanged_fx()
        },
        AccountsInput::AliasDialogSave(f) => if !old.alias_dialog {
            new == old && fx == unchanged_fx()
        } else if alias_refused(alias_form_check(old, f)) {
            new == old && fx == AccountsEffects { alias_errors: Some(alias_form_check(old, f)), ..unchanged_fx() }
        } else {
            let len = old.alias_edits@.len();
            &&& match old.alias_editing {
                Some(i) if i < len => {
                    &&& new.alias_edits@.len() == len
                    &&& new.alias_edits@ == old.alias_edits@.update(i as int, new.alias_edits@[i as int])
                    &&& saved_alias(f, new.alias_edits@[i as int])
                },
                _ => {
                    &&& new.alias_edits@.len() == len + 1
                    &&& new.alias_edits@.drop_last() == old.alias_edits@
                    &&& saved_alias(f, new.alias_edits@.last())
                },
            }
            &&& new == AccountsWindow {
                alias_edits: new.alias_edits,
                alias_editing: None,
                alias_dialog: false,
                ..old
            }
            &&& fx == AccountsEffects { aliases_changed: true, close_alias_dialog: true, ..unchanged_fx() }
        },
        AccountsInput::AliasDialogClosed { replaced } => fx == unchanged_fx() && if replaced {
            new == old
        } else {
            new == AccountsWindow { alias_dialog: false, alias_editing: None, ..old }
        },
        AccountsInput::ToggleCurrentEnabled(enabled) => match edited(old) {
            Some(acc) => {
                let i = old.editing->0;
                if !enabled && acc.goa {
                    &&& new.accounts@ == old.accounts@.remove(i as int)
                    &&& new == AccountsWindow { accounts: new.accounts, editor_open: false, ..old }
                    &&& fx == AccountsEffects { removed: Some(acc.email), pop_editor: true, ..unchanged_fx() }
                } else if acc.enabled != enabled {
                    &&& new.accounts@ == old.accounts@.update(i as int, AccountEntry { enabled, ..acc })
                    &&& new == AccountsWindow { accounts: new.accounts, ..old }
                    &&& fx == AccountsEffects { enabled_changed: Some(i), ..unchanged_fx() }
                } else {
                    new == old && fx == unchanged_fx()
                }
            },
            None => new == old && fx == unchanged_fx(),
        },
        AccountsInput::SetEmoji(text) => {
            &&& new == AccountsWindow { emoji: Some(text), ..old }
            &&& fx == AccountsEffects { emoji_changed: true, ..unchanged_fx() }
        },
        AccountsInput::ClearEmoji => {
            &&& new == AccountsWindow { emoji: None, ..old }
            &&& fx == AccountsEffects { emoji_changed: true, ..unchanged_fx() }
        },
        AccountsInput::SignedIn(token) => {
            &&& new == AccountsWindow { pending_refresh: Some(token), ..old }
            &&& fx == AccountsEffects { signed_in: true, ..unchanged_fx() }
        },
        AccountsInput::SaveWithSig { sig_html, form } => if save_ok(old, form) {
            &&& fx.saved matches Some(at) && at < new.accounts@.len() && saved_account(
                old,
                sig_html@,
                form,
                new.accounts@[at as int],
            ) && stored(old, new.accounts@[at as int], new.accounts@, at)
            &&& new == AccountsWindow { accounts: new.accounts, pending_refresh: None, editor_open: false, ..old }
            &&& fx == AccountsEffects {
                saved: fx.saved,
                saved_original: match edited(old) {
                    Some(o) => Some(o.email),
                    None => None,
                },
                pop_editor: true,
                ..unchanged_fx()
            }
        } else {
            new == old && fx == AccountsEffects {
                save_refused: true,
                oauth_missing: oauth_unready(old, form),
                ..unchanged_fx()
            }
        },
    }
}

fn add_entry(listed: &mut Vec<String>, text: &str) -> (added: bool)
    ensures
        list_added(old(listed)@, text@, final(listed)@, added),
{
    match new_list_entry(text, listed) {
        Some(a) => {
            let ghost before = listed@;
            proof {
                assert(!list_views(before).contains(a@)) by {
                    if list_views(before).contains(a@) {
                        let k = choose|k: int| 0 <= k < list_views(before).len() && list_views(before)[k] == a@;
                        assert(before[k]@ == a@);
                    }
                }
            }
            listed.push(a);
            assert(list_views(listed@) =~= list_views(before).push(unicode_lower(trim(text@))));
            true
        },
        None => {
            proof {
                let a = unicode_lower(trim(text@));
                if a.len() > 0 {
                    let k = choose|k: int| 0 <= k < listed@.len() && (#[trigger] listed@[k])@ == a;
                    assert(list_views(listed@)[k] == a);
                }
            }
            false
        },
    }
}

fn copy_alias(a: &Alias) -> (r: Alias)
    ensures
        r == *a,
{
    Alias {
        identity: a.identity.clone(),
        smtp_host: a.smtp_host.clone(),
        smtp_port: a.smtp_port,
        smtp_username: a.smtp_username.clone(),
        smtp_password: a.smtp_password.clone(),
    }
}

fn copy_emoji(e: &Option<String>) -> (r: Option<String>)
    ensures
        r == *e,
{
    match e {
        Some(t) => Some(t.clone()),
        None => None,
    }
}

fn copy_aliases(v: &Vec<Alias>) -> (r: Vec<Alias>)
    ensures
        r@ == v@,
{
    let mut r: Vec<Alias> = Vec::new();
    let mut i: usize = 0;
    while i < v.len()
        invariant
            i <= v@.len(),
            r@ == v@.take(i as int),
        decreases v@.len() - i,
    {
        r.push(copy_alias(&v[i]));
        assert(r@ =~= v@.take(i + 1));
        i += 1;
    }
    assert(v@.take(v@.len() as int) =~= v@);
    r
}

fn copy_connection(c: &Connection) -> (r: Connection)
    ensures
        r == *c,
{
    Connection {
        oauth: c.oauth,
        client_id: c.client_id.clone(),
        imap_host: c.imap_host.clone(),
        imap_port: c.imap_port,
        smtp_host: c.smtp_host.clone(),
        smtp_port: c.smtp_port,
        username: c.username.clone(),
        password: c.password.clone(),
        smtp_separate: c.smtp_separate,
        smtp_username: c.smtp_username.clone(),
        smtp_password: c.smtp_password.clone(),
    }
}

fn blank(s: &str) -> (r: bool)
    ensures
        r == (trim(s@).len() == 0),
{
    let c = crate::text::chars_of(s);
    let t = crate::text::trim_chars(&c);
    t.len() == 0
}

fn filled(s: &String) -> (r: bool)
    ensures
        r == (s@.len() > 0),
{
    let c = crate::text::chars_of(s.as_str());
    c.len() > 0
}

fn find_account(accs: &Vec<AccountEntry>, email: &str) -> (r: Option<usize>)
    ensures
        r == account_with_email(accs@, email@, 0),
{
    let e = crate::text::chars_of(email);
    let mut k: usize = 0;
    while k < accs.len()
        invariant
            k <= accs@.len(),
            e@ == email@,
            account_with_email(accs@, email@, 0) == account_with_email(accs@, email@, k as int),
        decreases accs@.len() - k,
    {
        let a = crate::text::chars_of(accs[k].email.as_str());
        if crate::text::seq_eq(&a, &e) {
            return Some(k);
        }
        k += 1;
    }
    None
}

impl AccountsWindow {
    /// Applies an input; the state and effects are those [`accounts_next`]
    /// describes.
    pub fn update(&mut self, e: AccountsInput) -> (fx: AccountsEffects)
        ensures
            accounts_next(*old(self), e, *final(self), fx),
    {
        match &e {
            AccountsInput::AliasAdd | AccountsInput::AliasEdit(_) | AccountsInput::AliasDialogSave(_)
            | AccountsInput::AliasDialogClosed { .. } | AccountsInput::ToggleCurrentEnabled(_)
            | AccountsInput::SetEmoji(_) | AccountsInput::ClearEmoji => self.on_editor(e),
            AccountsInput::SignedIn(_) | AccountsInput::SaveWithSig { .. } => self.on_account(e),
            _ => self.on_lists(e),
        }
    }

    /// The list, the sender lists, and opening, leaving and removing in the
    /// editor (see [`accounts_next`]).
    fn on_lists(&mut self, e: AccountsInput) -> (fx: AccountsEffects)
        requires
            !(e is AliasAdd || e is AliasEdit || e is AliasDialogSave || e is AliasDialogClosed
                || e is ToggleCurrentEnabled || e is SetEmoji || e is ClearEmoji || e is SignedIn
                || e is SaveWithSig),
        ensures
            accounts_next(*old(self), e, *final(self), fx),
    {
        match e {
            AccountsInput::MoveRow { from, to } => {
                if from < self.accounts.len() {
                    move_item(&mut self.accounts, from, to);
                    AccountsEffects { reordered: true, ..unchanged_exec() }
                } else {
                    unchanged_exec()
                }
            },
            AccountsInput::ToggleEnabled { index, enabled } => {
                if index < self.accounts.len() {
                    if !enabled && self.accounts[index].goa {
                        return AccountsEffects { unimport: Some(index), ..unchanged_exec() };
                    }
                    if self.accounts[index].enabled != enabled {
                        let ghost before = self.accounts@;
                        self.accounts[index].enabled = enabled;
                        assert(self.accounts@ =~= before.update(
                            index as int,
                            AccountEntry { enabled, ..before[index as int] },
                        ));
                        return AccountsEffects { enabled_changed: Some(index), ..unchanged_exec() };
                    }
                }
                unchanged_exec()
            },
            AccountsInput::AddSenderText(text) => {
                let added = add_entry(&mut self.sender_addrs, text.as_str());
                AccountsEffects { sender_added: added, ..unchanged_exec() }
            },
            AccountsInput::AddBlacklistText(text) => {
                let added = add_entry(&mut self.blacklist_addrs, text.as_str());
                AccountsEffects { blacklist_added: added, ..unchanged_exec() }
            },
            AccountsInput::RemoveSenderRow(addr) => {
                let at = remove_list_entry(&mut self.sender_addrs, addr.as_str());
                AccountsEffects { sender_removed: at, ..unchanged_exec() }
            },
            AccountsInput::RemoveBlacklistRow(addr) => {
                let at = remove_list_entry(&mut self.blacklist_addrs, addr.as_str());
                AccountsEffects { blacklist_removed: at, ..unchanged_exec() }
            },
            AccountsInput::EmailChanged { email, label } => {
                let trimmed = trim_str(email.as_str());
                let mirror = label_follows(label.as_str(), self.label_synced.as_str());
                self.label_synced = trimmed;
                AccountsEffects { mirror_label: mirror, ..unchanged_exec() }
            },
            AccountsInput::AddAccount => {
                self.editing = None;
                self.label_synced = String::new();
                self.alias_edits = Vec::new();
                self.alias_dialog = false;
                self.emoji = None;
                self.pending_refresh = None;
                self.editor_open = true;
                AccountsEffects { show_editor: true, aliases_changed: true, ..unchanged_exec() }
            },
            AccountsInput::EditAccount(i) => {
                if i < self.accounts.len() {
                    self.open_editor(i);
                    AccountsEffects { show_editor: true, aliases_changed: true, ..unchanged_exec() }
                } else {
                    unchanged_exec()
                }
            },
            AccountsInput::EditAccountByEmail(email) => {
                match find_account(&self.accounts, email.as_str()) {
                    Some(i) => {
                        let count = self.accounts.len();
                        proof {
                            assert(self.accounts@.len() == count);
                            lemma_account_with_email(self.accounts@, email@, 0);
                        }
                        let same = match self.editing {
                            Some(j) => j == i,
                            None => false,
                        };
                        if self.editor_open && same {
                            return unchanged_exec();
                        }
                        let pop = self.editor_open;
                        self.open_editor(i);
                        AccountsEffects {
                            show_editor: true,
                            aliases_changed: true,
                            pop_editor: pop,
                            ..unchanged_exec()
                        }
                    },
                    None => unchanged_exec(),
                }
            },
            AccountsInput::RemoveCurrent => {
                match self.editing {
                    Some(i) => {
                        if i < self.accounts.len() {
                            return AccountsEffects { confirm_remove: Some(i), ..unchanged_exec() };
                        }
                    },
                    None => {},
                }
                unchanged_exec()
            },
            AccountsInput::ConfirmRemove => {
                self.editor_open = false;
                match self.editing {
                    Some(i) => {
                        if i < self.accounts.len() {
                            let email = self.accounts[i].email.clone();
                            self.accounts.remove(i);
                            return AccountsEffects { removed: Some(email), pop_editor: true, ..unchanged_exec() };
                        }
                    },
                    None => {},
                }
                AccountsEffects { pop_editor: true, ..unchanged_exec() }
            },
            AccountsInput::AliasRemove(i) => {
                if i < self.alias_edits.len() {
                    self.alias_edits.remove(i);
                    AccountsEffects { aliases_changed: true, ..unchanged_exec() }
                } else {
                    unchanged_exec()
                }
            },
            _ => unchanged_exec(),
        }
    }

    /// The editor's aliases, switch and emoji (see [`accounts_next`]).
    fn on_editor(&mut self, e: AccountsInput) -> (fx: AccountsEffects)
        requires
            e is AliasAdd || e is AliasEdit || e is AliasDialogSave || e is AliasDialogClosed
                || e is ToggleCurrentEnabled || e is SetEmoji || e is ClearEmoji,
        ensures
            accounts_next(*old(self), e, *final(self), fx),
    {
        match e {
            AccountsInput::AliasAdd => {
                self.alias_editing = None;
                self.alias_dialog = true;
                AccountsEffects { alias_dialog: true, ..unchanged_exec() }
            },
            AccountsInput::AliasEdit(i) => {
                if i < self.alias_edits.len() {
                    self.alias_editing = Some(i);
                    self.alias_dialog = true;
                    AccountsEffects { alias_dialog: true, ..unchanged_exec() }
                } else {
                    unchanged_exec()
                }
            },
            AccountsInput::AliasDialogSave(f) => self.save_alias(f),
            AccountsInput::AliasDialogClosed { replaced } => {
                if !replaced {
                    self.alias_dialog = false;
                    self.alias_editing = None;
                }
                unchanged_exec()
            },
            AccountsInput::ToggleCurrentEnabled(enabled) => {
                match self.editing {
                    Some(i) => {
                        if i < self.accounts.len() {
                            if !enabled && self.accounts[i].goa {
                                let email = self.accounts[i].email.clone();
                                self.accounts.remove(i);
                                self.editor_open = false;
                                return AccountsEffects { removed: Some(email), pop_editor: true, ..unchanged_exec() };
                            }
                            if self.accounts[i].enabled != enabled {
                                let ghost before = self.accounts@;
                                self.accounts[i].enabled = enabled;
                                assert(self.accounts@ =~= before.update(
                                    i as int,
                                    AccountEntry { enabled, ..before[i as int] },
                                ));
                                return AccountsEffects { enabled_changed: Some(i), ..unchanged_exec() };
                            }
                        }
                    },
                    None => {},
                }
                unchanged_exec()
            },
            AccountsInput::SetEmoji(text) => {
                self.emoji = Some(text);
                AccountsEffects { emoji_changed: true, ..unchanged_exec() }
            },
            AccountsInput::ClearEmoji => {
                self.emoji = None;
                AccountsEffects { emoji_changed: true, ..unchanged_exec() }
            },
            _ => unchanged_exec(),
        }
    }

    fn on_account(&mut self, e: AccountsInput) -> (fx: AccountsEffects)
        requires
            e is SignedIn || e is SaveWithSig,
        ensures
            accounts_next(*old(self), e, *final(self), fx),
    {
        match e {
            AccountsInput::SignedIn(token) => {
                self.pending_refresh = Some(token);
                AccountsEffects { signed_in: true, ..unchanged_exec() }
            },
            AccountsInput::SaveWithSig { sig_html, form } => self.save(sig_html, form),
            _ => unchanged_exec(),
        }
    }

    /// The addresses of the other aliases than the one the dialog edits.
    fn other_alias_addresses(&self) -> (r: Vec<String>)
        ensures
            r@.map_values(|a: String| a@) == other_addresses(
                self.alias_edits@,
                self.alias_editing,
                self.alias_edits@.len() as int,
            ),
    {
        let mut r: Vec<String> = Vec::new();
        let mut i: usize = 0;
        while i < self.alias_edits.len()
            invariant
                i <= self.alias_edits@.len(),
                r@.map_values(|a: String| a@) == other_addresses(self.alias_edits@, self.alias_editing, i as int),
            decreases self.alias_edits@.len() - i,
        {
            let skip = match self.alias_editing {
                Some(j) => j == i,
                None => false,
            };
            if !skip {
                let ghost before = r@;
                let a = alias_address_of(self.alias_edits[i].identity.as_str());
                r.push(a);
                assert(r@.map_values(|a: String| a@) =~= before.map_values(|a: String| a@).push(
                    alias_address(self.alias_edits@[i as int].identity@),
                ));
            }
            i += 1;
        }
        r
    }

    fn save_alias(&mut self, f: AliasForm) -> (fx: AccountsEffects)
        ensures
            accounts_next(*old(self), AccountsInput::AliasDialogSave(f), *final(self), fx),
    {
        if !self.alias_dialog {
            return unchanged_exec();
        }
        let ghost old_self = *self;
        let ghost fv = f;
        let others = self.other_alias_addresses();
        let check = alias_check(
            f.address.as_str(),
            f.account_email.as_str(),
            &others,
            f.own_smtp,
            f.host.as_str(),
            f.user.as_str(),
            f.password.as_str(),
        );
        assert(check == alias_form_check(old_self, fv));
        if check.address || check.host || check.user || check.password {
            return AccountsEffects { alias_errors: Some(check), ..unchanged_exec() };
        }
        let identity = alias_identity(f.name.as_str(), f.address.as_str());
        let pc = crate::text::chars_of(f.port.as_str());
        let port: u16 = match crate::reader::parse_u32_chars(&pc) {
            Some(v) => if v <= 65535 {
                v as u16
            } else {
                587
            },
            None => 587,
        };
        let AliasForm { name, address, own_smtp, host, port: _, user, password, account_email } = f;
        let alias = Alias {
            identity,
            smtp_host: if own_smtp {
                host
            } else {
                String::new()
            },
            smtp_port: port,
            smtp_username: if own_smtp {
                user
            } else {
                String::new()
            },
            smtp_password: if own_smtp {
                password
            } else {
                String::new()
            },
        };
        assert(saved_alias(fv, alias));
        let n = self.alias_edits.len();
        match self.alias_editing {
            Some(i) => {
                if i < n {
                    self.alias_edits.set(i, alias);
                    assert(self.alias_edits@[i as int] == alias);
                    assert(self.alias_edits@ == old_self.alias_edits@.update(i as int, self.alias_edits@[i as int]));
                } else {
                    self.alias_edits.push(alias);
                    assert(self.alias_edits@.drop_last() =~= old_self.alias_edits@);
                }
            },
            None => {
                self.alias_edits.push(alias);
                assert(self.alias_edits@.drop_last() =~= old_self.alias_edits@);
            },
        }
        self.alias_editing = None;
        self.alias_dialog = false;
        AccountsEffects { aliases_changed: true, close_alias_dialog: true, ..unchanged_exec() }
    }

    fn open_editor(&mut self, i: usize)
        requires
            i < old(self).accounts@.len(),
        ensures
            editor_opened(*old(self), i, *final(self)),
    {
        let aliases = copy_aliases(&self.accounts[i].aliases);
        let email = self.accounts[i].email.clone();
        let emoji = copy_emoji(&self.accounts[i].emoji);
        self.editing = Some(i);
        self.alias_edits = aliases;
        self.alias_dialog = false;
        self.emoji = emoji;
        self.label_synced = email;
        self.pending_refresh = None;
        self.editor_open = true;
    }

    fn save(&mut self, sig_html: String, form: AccountForm) -> (fx: AccountsEffects)
        ensures
            accounts_next(*old(self), AccountsInput::SaveWithSig { sig_html: sig_html, form: form }, *final(self), fx),
    {
        let ghost old_self = *self;
        let ghost form_v = form;
        let orig: Option<usize> = match self.editing {
            Some(i) => if i < self.accounts.len() {
                Some(i)
            } else {
                None
            },
            None => None,
        };
        let from_goa = match orig {
            Some(i) => self.accounts[i].goa,
            None => false,
        };
        let orig_oauth = match orig {
            Some(i) => self.accounts[i].connection.oauth,
            None => false,
        };
        let AccountForm { name, email, connection } = form;
        let Connection {
            oauth,
            client_id,
            imap_host,
            imap_port,
            smtp_host,
            smtp_port,
            username,
            password,
            smtp_separate,
            smtp_username,
            smtp_password,
        } = connection;
        let email_as_user = oauth && blank(username.as_str());
        let unready = !from_goa && oauth && !(!blank(client_id.as_str()) && (self.pending_refresh.is_some()
            || orig_oauth));
        let user_ok = if email_as_user {
            filled(&email)
        } else {
            filled(&username)
        };
        let ok = from_goa || (filled(&imap_host) && user_ok && (oauth || filled(&password)) && !unready && (
        !smtp_separate || (filled(&smtp_username) && filled(&smtp_password))));
        assert(ok == save_ok(old_self, form_v));
        assert(unready == oauth_unready(old_self, form_v));
        if !ok {
            return AccountsEffects { save_refused: true, oauth_missing: unready, ..unchanged_exec() };
        }
        let enabled = match orig {
            Some(i) => self.accounts[i].enabled,
            None => true,
        };
        let sig_trimmed = trim_str(sig_html.as_str());
        let signature = if signature_is_empty(sig_trimmed.as_str()) {
            None
        } else {
            Some(sig_html)
        };
        let aliases = copy_aliases(&self.alias_edits);
        let emoji = copy_emoji(&self.emoji);
        let original_email = match orig {
            Some(i) => Some(self.accounts[i].email.clone()),
            None => None,
        };
        let acc = match orig {
            Some(i) if from_goa => AccountEntry {
                email: self.accounts[i].email.clone(),
                enabled,
                goa: true,
                name,
                connection: copy_connection(&self.accounts[i].connection),
                oauth_refresh: String::new(),
                aliases,
                emoji,
                signature,
            },
            _ => {
                let refresh = if oauth {
                    match &self.pending_refresh {
                        Some(rt) => rt.clone(),
                        None => String::new(),
                    }
                } else {
                    String::new()
                };
                let user = if email_as_user {
                    email.clone()
                } else {
                    username
                };
                let client = if oauth {
                    client_id
                } else {
                    String::new()
                };
                AccountEntry {
                    email,
                    enabled,
                    goa: false,
                    name,
                    connection: Connection {
                        oauth,
                        client_id: client,
                        imap_host,
                        imap_port,
                        smtp_host,
                        smtp_port,
                        username: user,
                        password,
                        smtp_separate,
                        smtp_username,
                        smtp_password,
                    },
                    oauth_refresh: refresh,
                    aliases,
                    emoji,
                    signature,
                }
            },
        };
        assert(saved_account(old_self, sig_html@, form_v, acc));
        let at = match orig {
            Some(i) => {
                self.accounts.set(i, acc);
                i
            },
            None => {
                let n = self.accounts.len();
                self.accounts.push(acc);
                n
            },
        };
        self.pending_refresh = None;
        self.editor_open = false;
        AccountsEffects { saved: Some(at), saved_original: original_email, pop_editor: true, ..unchanged_exec() }
    }
}

/// What `account_with_email` finds carries the address, at a position in
/// the list.
proof fn lemma_account_with_email(accs: Seq<AccountEntry>, email: Seq<char>, k: int)
    requires
        0 <= k,
        accs.len() <= usize::MAX,
    ensures
        account_with_email(accs, email, k) matches Some(i) ==> k <= i < accs.len() && accs[i as int].email@ == email,
    decreases accs.len() - k,
{
    if k < accs.len() && accs[k].email@ != email {
        lemma_account_with_email(accs, email, k + 1);
    }
}

} // verus!

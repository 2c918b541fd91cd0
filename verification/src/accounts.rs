//! The accounts panel's rules: the provider table and how an account maps
//! onto it, what the editor shows for each kind of sign-in, and what a form
//! must hold before it is saved.

use vstd::prelude::*;
use crate::list::is_text;
use crate::reader::{parse_u32, parse_u32_chars};
use crate::text::{
    chars_of, contains, contains_exec, eq_ci, eq_ci_chars, lower, lower_chars, push_all, push_str,
    string_of, to_lowercase, trim, trim_chars, unicode_lower,
};

verus! {

/// How an account signs in, chosen with the provider dropdown.
#[derive(Debug, Clone, Copy, PartialEq, Eq, Structural)]
pub enum ProviderKind {
    /// Manual IMAP/POP3 with a password ("Other (IMAP/POP3)…").
    Manual,
    /// A known IMAP provider: a password, with its servers filled in.
    Preset,
    /// Google OAuth (browser sign-in).
    Google,
    /// Microsoft OAuth.
    Microsoft,
    /// OAuth against a provider the user enters ("Custom (OAuth)…").
    CustomOAuth,
}

/// One entry of the provider dropdown: the sign-in method and, for a preset,
/// the servers to fill in; `hint` is the row's subtitle.
#[derive(Debug, Clone, Copy)]
pub struct Provider {
    pub label: &'static str,
    pub kind: ProviderKind,
    pub imap_host: &'static str,
    pub imap_port: u16,
    pub smtp_host: &'static str,
    pub smtp_port: u16,
    pub hint: &'static str,
}

pub const APP_PW: &'static str = "Requires an app-specific password (not your normal login password).";

/// How many entries the dropdown has.
pub const PROVIDER_COUNT: u32 = 13;

/// The dropdown, in display order: OAuth first, then the app-password IMAP
/// providers, then the two manual entries.
pub open spec fn provider_entry(i: u32) -> Provider {
    if i == 0 {
        Provider { label: "Google (Gmail) — sign in", kind: ProviderKind::Google, imap_host: "", imap_port: 0, smtp_host: "", smtp_port: 0, hint: "Sign in with your browser — no password needed." }
    } else if i == 1 {
        Provider { label: "Microsoft 365 / Outlook", kind: ProviderKind::Microsoft, imap_host: "", imap_port: 0, smtp_host: "", smtp_port: 0, hint: "Sign in through GNOME Online Accounts." }
    } else if i == 2 {
        Provider { label: "iCloud", kind: ProviderKind::Preset, imap_host: "imap.mail.me.com", imap_port: 993, smtp_host: "smtp.mail.me.com", smtp_port: 587, hint: APP_PW }
    } else if i == 3 {
        Provider { label: "Yahoo Mail", kind: ProviderKind::Preset, imap_host: "imap.mail.yahoo.com", imap_port: 993, smtp_host: "smtp.mail.yahoo.com", smtp_port: 465, hint: APP_PW }
    } else if i == 4 {
        Provider { label: "Proton Mail (Bridge)", kind: ProviderKind::Preset, imap_host: "127.0.0.1", imap_port: 1143, smtp_host: "127.0.0.1", smtp_port: 1025, hint: "Requires Proton Mail Bridge running locally." }
    } else if i == 5 {
        Provider { label: "Fastmail", kind: ProviderKind::Preset, imap_host: "imap.fastmail.com", imap_port: 993, smtp_host: "smtp.fastmail.com", smtp_port: 465, hint: APP_PW }
    } else if i == 6 {
        Provider { label: "AOL Mail", kind: ProviderKind::Preset, imap_host: "imap.aol.com", imap_port: 993, smtp_host: "smtp.aol.com", smtp_port: 465, hint: APP_PW }
    } else if i == 7 {
        Provider { label: "Zoho Mail", kind: ProviderKind::Preset, imap_host: "imap.zoho.com", imap_port: 993, smtp_host: "smtp.zoho.com", smtp_port: 465, hint: "" }
    } else if i == 8 {
        Provider { label: "GMX", kind: ProviderKind::Preset, imap_host: "imap.gmx.com", imap_port: 993, smtp_host: "mail.gmx.com", smtp_port: 587, hint: "Enable POP/IMAP access in GMX settings first." }
    } else if i == 9 {
        Provider { label: "Yandex Mail", kind: ProviderKind::Preset, imap_host: "imap.yandex.com", imap_port: 993, smtp_host: "smtp.yandex.com", smtp_port: 465, hint: APP_PW }
    } else if i == 10 {
        Provider { label: "Mail.com", kind: ProviderKind::Preset, imap_host: "imap.mail.com", imap_port: 993, smtp_host: "smtp.mail.com", smtp_port: 587, hint: "" }
    } else if i == 11 {
        Provider { label: "Custom (OAuth)…", kind: ProviderKind::CustomOAuth, imap_host: "", imap_port: 0, smtp_host: "", smtp_port: 0, hint: "Enter your provider's OAuth endpoints, then sign in." }
    } else {
        Provider { label: "Other (IMAP/POP3)…", kind: ProviderKind::Manual, imap_host: "", imap_port: 0, smtp_host: "", smtp_port: 0, hint: "Enter your server details manually." }
    }
}

/// The entry at a dropdown index.
fn entry(i: u32) -> (r: Provider)
    ensures
        r == provider_entry(i),
{
    if i == 0 {
        Provider { label: "Google (Gmail) — sign in", kind: ProviderKind::Google, imap_host: "", imap_port: 0, smtp_host: "", smtp_port: 0, hint: "Sign in with your browser — no password needed." }
    } else if i == 1 {
        Provider { label: "Microsoft 365 / Outlook", kind: ProviderKind::Microsoft, imap_host: "", imap_port: 0, smtp_host: "", smtp_port: 0, hint: "Sign in through GNOME Online Accounts." }
    } else if i == 2 {
        Provider { label: "iCloud", kind: ProviderKind::Preset, imap_host: "imap.mail.me.com", imap_port: 993, smtp_host: "smtp.mail.me.com", smtp_port: 587, hint: APP_PW }
    } else if i == 3 {
        Provider { label: "Yahoo Mail", kind: ProviderKind::Preset, imap_host: "imap.mail.yahoo.com", imap_port: 993, smtp_host: "smtp.mail.yahoo.com", smtp_port: 465, hint: APP_PW }
    } else if i == 4 {
        Provider { label: "Proton Mail (Bridge)", kind: ProviderKind::Preset, imap_host: "127.0.0.1", imap_port: 1143, smtp_host: "127.0.0.1", smtp_port: 1025, hint: "Requires Proton Mail Bridge running locally." }
    } else if i == 5 {
        Provider { label: "Fastmail", kind: ProviderKind::Preset, imap_host: "imap.fastmail.com", imap_port: 993, smtp_host: "smtp.fastmail.com", smtp_port: 465, hint: APP_PW }
    } else if i == 6 {
        Provider { label: "AOL Mail", kind: ProviderKind::Preset, imap_host: "imap.aol.com", imap_port: 993, smtp_host: "smtp.aol.com", smtp_port: 465, hint: APP_PW }
    } else if i == 7 {
        Provider { label: "Zoho Mail", kind: ProviderKind::Preset, imap_host: "imap.zoho.com", imap_port: 993, smtp_host: "smtp.zoho.com", smtp_port: 465, hint: "" }
    } else if i == 8 {
        Provider { label: "GMX", kind: ProviderKind::Preset, imap_host: "imap.gmx.com", imap_port: 993, smtp_host: "mail.gmx.com", smtp_port: 587, hint: "Enable POP/IMAP access in GMX settings first." }
    } else if i == 9 {
        Provider { label: "Yandex Mail", kind: ProviderKind::Preset, imap_host: "imap.yandex.com", imap_port: 993, smtp_host: "smtp.yandex.com", smtp_port: 465, hint: APP_PW }
    } else if i == 10 {
        Provider { label: "Mail.com", kind: ProviderKind::Preset, imap_host: "imap.mail.com", imap_port: 993, smtp_host: "smtp.mail.com", smtp_port: 587, hint: "" }
    } else if i == 11 {
        Provider { label: "Custom (OAuth)…", kind: ProviderKind::CustomOAuth, imap_host: "", imap_port: 0, smtp_host: "", smtp_port: 0, hint: "Enter your provider's OAuth endpoints, then sign in." }
    } else {
        Provider { label: "Other (IMAP/POP3)…", kind: ProviderKind::Manual, imap_host: "", imap_port: 0, smtp_host: "", smtp_port: 0, hint: "Enter your server details manually." }
    }
}

/// The dropdown's entries, in order.
pub fn providers() -> (r: Vec<Provider>)
    ensures
        r@.len() == PROVIDER_COUNT,
        forall|i: int| 0 <= i < PROVIDER_COUNT ==> #[trigger] r@[i] == provider_entry(i as u32),
{
    let mut v: Vec<Provider> = Vec::new();
    let mut i: u32 = 0;
    while i < PROVIDER_COUNT
        invariant
            i <= PROVIDER_COUNT,
            v@.len() == i,
            forall|j: int| 0 <= j < i ==> #[trigger] v@[j] == provider_entry(j as u32),
        decreases PROVIDER_COUNT - i,
    {
        v.push(entry(i));
        i += 1;
    }
    v
}

impl Provider {
    /// Password sign-in: the manual entry and the presets.
    pub fn is_password(&self) -> (r: bool)
        ensures
            r == (self.kind == ProviderKind::Manual || self.kind == ProviderKind::Preset),
    {
        match self.kind {
            ProviderKind::Manual | ProviderKind::Preset => true,
            _ => false,
        }
    }

    pub fn is_oauth(&self) -> (r: bool)
        ensures
            r == !(self.kind == ProviderKind::Manual || self.kind == ProviderKind::Preset),
    {
        !self.is_password()
    }

    /// The built-in OAuth preset's key, for Google and Microsoft.
    pub fn oauth_name(&self) -> (r: Option<&'static str>)
        ensures
            match r {
                Some(n) => (self.kind == ProviderKind::Google && n@ == "google"@) || (self.kind
                    == ProviderKind::Microsoft && n@ == "microsoft"@),
                None => self.kind != ProviderKind::Google && self.kind != ProviderKind::Microsoft,
            },
    {
        match self.kind {
            ProviderKind::Google => Some("google"),
            ProviderKind::Microsoft => Some("microsoft"),
            _ => None,
        }
    }

    pub fn wizard_password_provider(&self) -> (r: bool)
        ensures
            r == (self.kind == ProviderKind::Manual || self.kind == ProviderKind::Preset),
    {
        self.is_password()
    }

    pub fn wizard_label(&self) -> (r: &'static str)
        ensures
            r == self.label,
    {
        self.label
    }

    pub fn wizard_servers(&self) -> (r: (&'static str, u16, &'static str, u16))
        ensures
            r == (self.imap_host, self.imap_port, self.smtp_host, self.smtp_port),
    {
        (self.imap_host, self.imap_port, self.smtp_host, self.smtp_port)
    }

    pub fn wizard_hint(&self) -> (r: &'static str)
        ensures
            r == self.hint,
    {
        self.hint
    }
}

/// The dropdown index of the manual "Other (IMAP/POP3)…" entry, the default.
pub open spec fn manual_spec() -> u32 {
    12
}

pub fn manual_index() -> (r: u32)
    ensures
        r == manual_spec(),
        provider_entry(r).kind == ProviderKind::Manual,
        forall|i: u32| i < r ==> provider_entry(i).kind != ProviderKind::Manual,
{
    12
}

/// The entry at a dropdown index, the manual one past the end.
pub fn provider_at(idx: u32) -> (r: Provider)
    ensures
        r == provider_entry(if idx < PROVIDER_COUNT {
            idx
        } else {
            manual_spec()
        }),
{
    if idx < PROVIDER_COUNT {
        entry(idx)
    } else {
        entry(manual_index())
    }
}

/// The first index at or after `from` whose entry is of the kind.
pub open spec fn first_of_kind(kind: ProviderKind, from: u32) -> Option<u32>
    decreases PROVIDER_COUNT - from,
{
    if from >= PROVIDER_COUNT {
        None
    } else if provider_entry(from).kind == kind {
        Some(from)
    } else {
        first_of_kind(kind, (from + 1) as u32)
    }
}

/// The index of the first entry of a kind, the manual one if none.
pub fn kind_index(kind: ProviderKind) -> (r: u32)
    ensures
        r == (match first_of_kind(kind, 0) {
            Some(i) => i,
            None => manual_spec(),
        }),
{
    let mut i: u32 = 0;
    while i < PROVIDER_COUNT
        invariant
            i <= PROVIDER_COUNT,
            first_of_kind(kind, 0) == first_of_kind(kind, i),
        decreases PROVIDER_COUNT - i,
    {
        if entry(i).kind == kind {
            return i;
        }
        i += 1;
    }
    manual_index()
}

/// The first preset at or after `from` whose incoming server is `host`,
/// whatever the case.
pub open spec fn preset_for(host: Seq<char>, from: u32) -> Option<u32>
    decreases PROVIDER_COUNT - from,
{
    if from >= PROVIDER_COUNT {
        None
    } else if provider_entry(from).kind == ProviderKind::Preset && eq_ci(provider_entry(from).imap_host@, host) {
        Some(from)
    } else {
        preset_for(host, (from + 1) as u32)
    }
}

/// The preset whose incoming server matches the (trimmed, case-folded)
/// host, else the manual entry.
pub open spec fn preset_index_spec(host: Seq<char>) -> u32 {
    let h = lower(trim(host));
    if h.len() == 0 {
        manual_spec()
    } else {
        match preset_for(h, 0) {
            Some(i) => i,
            None => manual_spec(),
        }
    }
}

pub fn preset_index_for_host(host: &str) -> (r: u32)
    ensures
        r == preset_index_spec(host@),
{
    let c = chars_of(host);
    let t = trim_chars(&c);
    let h = lower_chars(&t);
    if h.len() == 0 {
        return manual_index();
    }
    let mut i: u32 = 0;
    while i < PROVIDER_COUNT
        invariant
            i <= PROVIDER_COUNT,
            h@ == lower(trim(host@)),
            h@.len() > 0,
            preset_for(h@, 0) == preset_for(h@, i),
        decreases PROVIDER_COUNT - i,
    {
        let p = entry(i);
        if p.kind == ProviderKind::Preset {
            let ih = chars_of(p.imap_host);
            if eq_ci_chars(&ih, &h) {
                assert(provider_entry(i).kind == ProviderKind::Preset);
                assert(eq_ci(provider_entry(i).imap_host@, h@));
                assert(preset_for(h@, i) == Some(i));
                return i;
            }
        }
        i += 1;
    }
    manual_index()
}

/// The dropdown index for an existing account: a native OAuth account by
/// its token endpoint (Google, Microsoft, else custom), any other by its
/// incoming server.
pub open spec fn account_provider_spec(goa: bool, oauth: bool, token_url: Option<Seq<char>>, imap_host: Seq<char>) -> u32 {
    if !goa && oauth {
        let kind = match token_url {
            Some(t) => if contains(t, "googleapis"@) {
                ProviderKind::Google
            } else if contains(t, "microsoftonline"@) {
                ProviderKind::Microsoft
            } else {
                ProviderKind::CustomOAuth
            },
            None => ProviderKind::CustomOAuth,
        };
        match first_of_kind(kind, 0) {
            Some(i) => i,
            None => manual_spec(),
        }
    } else {
        preset_index_spec(imap_host)
    }
}

pub fn provider_index_for_account(goa: bool, oauth: bool, token_url: Option<&str>, imap_host: &str) -> (r: u32)
    ensures
        r == account_provider_spec(
            goa,
            oauth,
            match token_url {
                Some(t) => Some(t@),
                None => None,
            },
            imap_host@,
        ),
{
    if !goa && oauth {
        let kind = match token_url {
            Some(t) => {
                let c = chars_of(t);
                if contains_exec(&c, &chars_of("googleapis")) {
                    ProviderKind::Google
                } else if contains_exec(&c, &chars_of("microsoftonline")) {
                    ProviderKind::Microsoft
                } else {
                    ProviderKind::CustomOAuth
                }
            },
            None => ProviderKind::CustomOAuth,
        };
        return kind_index(kind);
    }
    preset_index_for_host(imap_host)
}

/// Every preset names both of its servers and their ports, and the manual
/// entry is the only one of its kind.
pub proof fn law_provider_table()
    ensures
        forall|i: u32|
            i < PROVIDER_COUNT && #[trigger] provider_entry(i).kind == ProviderKind::Manual ==> i == manual_spec(),
        forall|i: u32|
            i < PROVIDER_COUNT && #[trigger] provider_entry(i).kind == ProviderKind::Preset ==> provider_entry(i).imap_host@.len()
                > 0 && provider_entry(i).smtp_host@.len() > 0 && provider_entry(i).imap_port > 0
                && provider_entry(i).smtp_port > 0,
{
    reveal_strlit("imap.mail.me.com");
    reveal_strlit("smtp.mail.me.com");
    reveal_strlit("imap.mail.yahoo.com");
    reveal_strlit("smtp.mail.yahoo.com");
    reveal_strlit("127.0.0.1");
    reveal_strlit("imap.fastmail.com");
    reveal_strlit("smtp.fastmail.com");
    reveal_strlit("imap.aol.com");
    reveal_strlit("smtp.aol.com");
    reveal_strlit("imap.zoho.com");
    reveal_strlit("smtp.zoho.com");
    reveal_strlit("imap.gmx.com");
    reveal_strlit("mail.gmx.com");
    reveal_strlit("imap.yandex.com");
    reveal_strlit("smtp.yandex.com");
    reveal_strlit("imap.mail.com");
    reveal_strlit("smtp.mail.com");
}

/// A host name as the presets write it: lower-case letters, digits and dots.
pub open spec fn plain_host(s: Seq<char>) -> bool {
    forall|k: int|
        0 <= k < s.len() ==> crate::text::is_ascii_lower(#[trigger] s[k]) || crate::text::is_ascii_digit(s[k])
            || s[k] == '.'
}

/// A plain host is its own trimmed, lower-cased form.
proof fn lemma_plain_host(s: Seq<char>)
    requires
        plain_host(s),
    ensures
        lower(s) == s,
        trim(s) == s,
{
    assert(lower(s) =~= s);
    crate::text::lemma_trim_start_at(s, 0);
    assert(s.subrange(0, s.len() as int) =~= s);
    crate::text::lemma_trim_end_at(s, s.len() as int);
}

/// Every preset's incoming server is a plain, non-empty host, and no two
/// presets share one.
proof fn lemma_preset_hosts()
    ensures
        forall|i: u32|
            i < PROVIDER_COUNT && #[trigger] provider_entry(i).kind == ProviderKind::Preset ==> plain_host(
                provider_entry(i).imap_host@,
            ) && provider_entry(i).imap_host@.len() > 0,
        forall|i: u32, j: u32|
            j < i < PROVIDER_COUNT && #[trigger] provider_entry(i).kind == ProviderKind::Preset
                && #[trigger] provider_entry(j).kind == ProviderKind::Preset ==> provider_entry(j).imap_host@
                != provider_entry(i).imap_host@,
{
    let h2 = "imap.mail.me.com"@;
    let h3 = "imap.mail.yahoo.com"@;
    let h4 = "127.0.0.1"@;
    let h5 = "imap.fastmail.com"@;
    let h6 = "imap.aol.com"@;
    let h7 = "imap.zoho.com"@;
    let h8 = "imap.gmx.com"@;
    let h9 = "imap.yandex.com"@;
    let h10 = "imap.mail.com"@;
    reveal_strlit("imap.mail.me.com");
    reveal_strlit("imap.mail.yahoo.com");
    reveal_strlit("127.0.0.1");
    reveal_strlit("imap.fastmail.com");
    reveal_strlit("imap.aol.com");
    reveal_strlit("imap.zoho.com");
    reveal_strlit("imap.gmx.com");
    reveal_strlit("imap.yandex.com");
    reveal_strlit("imap.mail.com");
    assert(plain_host(h2));
    assert(plain_host(h3));
    assert(plain_host(h4));
    assert(plain_host(h5));
    assert(plain_host(h6));
    assert(plain_host(h7));
    assert(plain_host(h8));
    assert(plain_host(h9));
    assert(plain_host(h10));
    assert(h2[5] != h3[10] || h2.len() != h3.len());
    assert(h6[5] != h8[5]);
    assert(h7[5] != h10[5]);
}

/// Every preset's incoming server leads back to that preset's own entry.
pub proof fn law_preset_hosts_round_trip()
    ensures
        forall|i: u32|
            i < PROVIDER_COUNT && #[trigger] provider_entry(i).kind == ProviderKind::Preset ==> preset_index_spec(
                provider_entry(i).imap_host@,
            ) == i,
{
    lemma_preset_hosts();
    assert forall|i: u32| i < PROVIDER_COUNT && #[trigger] provider_entry(i).kind == ProviderKind::Preset implies preset_index_spec(
        provider_entry(i).imap_host@,
    ) == i by {
        let h = provider_entry(i).imap_host@;
        lemma_plain_host(h);
        lemma_preset_for_reaches(h, 0, i);
    }
}

proof fn lemma_preset_for_reaches(h: Seq<char>, from: u32, i: u32)
    requires
        from <= i < PROVIDER_COUNT,
        provider_entry(i).kind == ProviderKind::Preset,
        provider_entry(i).imap_host@ == h,
        plain_host(h),
        forall|i: u32|
            i < PROVIDER_COUNT && #[trigger] provider_entry(i).kind == ProviderKind::Preset ==> plain_host(
                provider_entry(i).imap_host@,
            ) && provider_entry(i).imap_host@.len() > 0,
        forall|a: u32, b: u32|
            b < a < PROVIDER_COUNT && #[trigger] provider_entry(a).kind == ProviderKind::Preset
                && #[trigger] provider_entry(b).kind == ProviderKind::Preset ==> provider_entry(b).imap_host@
                != provider_entry(a).imap_host@,
    ensures
        preset_for(h, from) == Some(i),
    decreases i - from,
{
    lemma_plain_host(h);
    if from < i {
        if provider_entry(from).kind == ProviderKind::Preset {
            lemma_plain_host(provider_entry(from).imap_host@);
            assert(!eq_ci(provider_entry(from).imap_host@, h));
        }
        lemma_preset_for_reaches(h, (from + 1) as u32, i);
    }
}

// ---------------------------------------------------------------------------
// The editor form
// ---------------------------------------------------------------------------

/// What the editor shows for a provider.
#[derive(Debug, Clone, Copy, PartialEq, Eq, Structural)]
pub struct ProviderLayout {
    /// The protocol choice, user names, passwords, separate SMTP and the
    /// connection test: password sign-in only.
    pub password_fields: bool,
    /// Server addresses and ports: password sign-in and custom OAuth.
    pub servers: bool,
    /// Name and email: unless the guidance to GNOME Online Accounts
    /// replaces them.
    pub identity: bool,
    /// The guidance to GNOME Online Accounts.
    pub goa_hint: bool,
    /// The browser sign-in button.
    pub signin: bool,
    /// The custom OAuth client and endpoint fields.
    pub custom_oauth: bool,
    /// Hide any sign-in status left from before.
    pub hide_status: bool,
    /// Switch separate SMTP credentials off.
    pub clear_separate_smtp: bool,
}

/// The editor's layout for a provider; `no_client` says that Google or
/// Microsoft has no OAuth client to sign in with, so the panel points to
/// GNOME Online Accounts instead.
pub open spec fn layout_of(kind: ProviderKind, no_client: bool) -> ProviderLayout {
    let password = kind == ProviderKind::Manual || kind == ProviderKind::Preset;
    let custom = kind == ProviderKind::CustomOAuth;
    let needs_goa = (kind == ProviderKind::Google || kind == ProviderKind::Microsoft) && no_client;
    ProviderLayout {
        password_fields: password,
        servers: password || custom,
        identity: !needs_goa,
        goa_hint: needs_goa,
        signin: !password && !needs_goa,
        custom_oauth: custom,
        hide_status: password || needs_goa,
        clear_separate_smtp: !password,
    }
}

pub fn provider_layout(kind: ProviderKind, no_client: bool) -> (r: ProviderLayout)
    ensures
        r == layout_of(kind, no_client),
{
    let password = match kind {
        ProviderKind::Manual | ProviderKind::Preset => true,
        _ => false,
    };
    let custom = match kind {
        ProviderKind::CustomOAuth => true,
        _ => false,
    };
    let big = match kind {
        ProviderKind::Google | ProviderKind::Microsoft => true,
        _ => false,
    };
    let needs_goa = big && no_client;
    ProviderLayout {
        password_fields: password,
        servers: password || custom,
        identity: !needs_goa,
        goa_hint: needs_goa,
        signin: !password && !needs_goa,
        custom_oauth: custom,
        hide_status: password || needs_goa,
        clear_separate_smtp: !password,
    }
}

/// The name the account list shows: the account's name, or its address when
/// the name is blank.
pub fn display_name(name: &str, email: &str) -> (r: String)
    ensures
        r@ == (if trim(name@).len() == 0 {
            email@
        } else {
            name@
        }),
{
    let n = chars_of(name);
    let t = trim_chars(&n);
    if t.len() == 0 {
        let e = chars_of(email);
        string_of(&e)
    } else {
        string_of(&n)
    }
}

/// A port typed into the form, or the default where it is not a number a
/// port can be (`u16::from_str`).
pub open spec fn port_or_spec(text: Seq<char>, default: u16) -> u16 {
    match parse_u32(text) {
        Some(v) => if v <= 65535 {
            v as u16
        } else {
            default
        },
        None => default,
    }
}

pub fn port_or(text: &str, default: u16) -> (r: u16)
    ensures
        r == port_or_spec(text@, default),
{
    let c = chars_of(text);
    match parse_u32_chars(&c) {
        Some(v) => if v <= 65535 {
            v as u16
        } else {
            default
        },
        None => default,
    }
}

/// How an account fetches its mail.
#[derive(Debug, Clone, Copy, PartialEq, Eq, Structural)]
pub enum Protocol {
    Imap,
    Pop3,
    Graph,
}

/// The protocol dropdown: row 1 is POP3, anything else IMAP; and the
/// incoming port each defaults to.
pub fn protocol_choice(row: u32) -> (r: (Protocol, u16))
    ensures
        r == (if row == 1 {
            (Protocol::Pop3, 995u16)
        } else {
            (Protocol::Imap, 993u16)
        }),
{
    if row == 1 {
        (Protocol::Pop3, 995)
    } else {
        (Protocol::Imap, 993)
    }
}

/// The push dropdown: row 1 on, row 2 off, anything else automatic.
pub fn push_choice(row: u32) -> (r: Option<bool>)
    ensures
        r == (if row == 1 {
            Some(true)
        } else if row == 2 {
            Some(false)
        } else {
            None
        }),
{
    if row == 1 {
        Some(true)
    } else if row == 2 {
        Some(false)
    } else {
        None
    }
}

/// Only a custom label is stored: a blank one, or one that just repeats the
/// address, falls back to the address.
pub fn custom_label(label: &str, email: &str) -> (r: Option<String>)
    ensures
        match r {
            Some(l) => l@ == trim(label@) && trim(label@).len() > 0 && trim(label@) != trim(email@),
            None => trim(label@).len() == 0 || trim(label@) == trim(email@),
        },
{
    let l = trim_chars(&chars_of(label));
    let e = trim_chars(&chars_of(email));
    if l.len() == 0 || crate::text::seq_eq(&l, &e) {
        None
    } else {
        Some(string_of(&l))
    }
}

/// While the label still follows the address (or is empty), a change of the
/// address is mirrored into it.
pub fn label_follows(label: &str, synced: &str) -> (r: bool)
    ensures
        r == (label@.len() == 0 || label@ == synced@),
{
    let l = chars_of(label);
    let s = chars_of(synced);
    l.len() == 0 || crate::text::seq_eq(&l, &s)
}

/// Whether the signature editor's HTML is effectively empty: nothing but
/// whitespace and non-breaking spaces outside the tags.
pub open spec fn outside_tags(s: Seq<char>, in_tag: bool) -> Seq<char>
    decreases s.len(),
{
    if s.len() == 0 {
        seq![]
    } else if s[0] == '<' {
        outside_tags(s.drop_first(), true)
    } else if s[0] == '>' {
        outside_tags(s.drop_first(), false)
    } else if !in_tag {
        seq![s[0]] + outside_tags(s.drop_first(), in_tag)
    } else {
        outside_tags(s.drop_first(), in_tag)
    }
}

/// `str::replace(pat, with)`: every occurrence, left to right, none
/// overlapping.
pub open spec fn replace_all(s: Seq<char>, pat: Seq<char>, with: Seq<char>) -> Seq<char>
    decreases s.len(),
{
    if s.len() == 0 {
        seq![]
    } else if pat.len() > 0 && crate::text::starts_with(s, pat) {
        with + replace_all(s.subrange(pat.len() as int, s.len() as int), pat, with)
    } else {
        seq![s[0]] + replace_all(s.drop_first(), pat, with)
    }
}

pub open spec fn signature_empty(html: Seq<char>) -> bool {
    trim(replace_all(outside_tags(html, false), "&nbsp;"@, " "@)).len() == 0
}

fn outside_tags_exec(s: &Vec<char>) -> (r: Vec<char>)
    ensures
        r@ == outside_tags(s@, false),
{
    let mut out: Vec<char> = Vec::new();
    let mut in_tag = false;
    let mut i: usize = 0;
    assert(s@.subrange(0, s@.len() as int) =~= s@);
    while i < s.len()
        invariant
            i <= s.len(),
            outside_tags(s@, false) == out@ + outside_tags(s@.subrange(i as int, s@.len() as int), in_tag),
        decreases s.len() - i,
    {
        let ghost rest = s@.subrange(i as int, s@.len() as int);
        assert(rest.drop_first() =~= s@.subrange(i + 1, s@.len() as int));
        let c = s[i];
        if c == '<' {
            in_tag = true;
        } else if c == '>' {
            in_tag = false;
        } else if !in_tag {
            out.push(c);
            assert(out@ =~= out@.drop_last() + seq![c]);
        }
        i += 1;
    }
    assert(out@ + Seq::<char>::empty() =~= out@);
    out
}

fn replace_exec(s: &Vec<char>, pat: &Vec<char>, with: &Vec<char>) -> (r: Vec<char>)
    ensures
        r@ == replace_all(s@, pat@, with@),
{
    let mut out: Vec<char> = Vec::new();
    let mut i: usize = 0;
    assert(s@.subrange(0, s@.len() as int) =~= s@);
    while i < s.len()
        invariant
            i <= s.len(),
            replace_all(s@, pat@, with@) == out@ + replace_all(s@.subrange(i as int, s@.len() as int), pat@, with@),
        decreases s.len() - i,
    {
        let ghost rest = s@.subrange(i as int, s@.len() as int);
        if pat.len() > 0 && crate::text::matches_at_exec(s, pat, i) {
            assert(crate::text::starts_with(rest, pat@)) by {
                assert(rest.subrange(0, pat@.len() as int) =~= s@.subrange(i as int, i + pat@.len()));
            }
            assert(rest.subrange(pat@.len() as int, rest.len() as int) =~= s@.subrange(
                i + pat@.len(),
                s@.len() as int,
            ));
            push_all(&mut out, with);
            assert(out@ + replace_all(s@.subrange(i + pat@.len(), s@.len() as int), pat@, with@) =~= (
            out@.subrange(0, out@.len() - with@.len()) + with@) + replace_all(
                s@.subrange(i + pat@.len(), s@.len() as int),
                pat@,
                with@,
            ));
            i += pat.len();
        } else {
            proof {
                if pat@.len() > 0 && crate::text::starts_with(rest, pat@) {
                    assert(rest.subrange(0, pat@.len() as int) =~= s@.subrange(i as int, i + pat@.len()));
                    assert(crate::text::matches_at(s@, pat@, i as int));
                }
            }
            assert(rest.drop_first() =~= s@.subrange(i + 1, s@.len() as int));
            let ghost before = out@;
            out.push(s[i]);
            assert(out@ =~= before + seq![s@[i as int]]);
            i += 1;
        }
    }
    assert(out@ + Seq::<char>::empty() =~= out@);
    out
}

pub fn signature_is_empty(html: &str) -> (r: bool)
    ensures
        r == signature_empty(html@),
{
    let c = chars_of(html);
    let stripped = outside_tags_exec(&c);
    let pat = chars_of("&nbsp;");
    let sp = chars_of(" ");
    let replaced = replace_exec(&stripped, &pat, &sp);
    let t = trim_chars(&replaced);
    t.len() == 0
}

// ---------------------------------------------------------------------------
// Saving
// ---------------------------------------------------------------------------

/// Whether a native OAuth account is ready to save: it has a client ID and
/// has signed in, now or before.
pub fn oauth_ready(oauth: bool, goa: bool, client_id: Option<&str>, pending_refresh: bool, was_oauth: bool) -> (r: bool)
    ensures
        r == (if oauth && !goa {
            (match client_id {
                Some(c) => trim(c@).len() > 0,
                None => false,
            }) && (pending_refresh || was_oauth)
        } else {
            true
        }),
{
    if oauth && !goa {
        let has_client = match client_id {
            Some(c) => trim_chars(&chars_of(c)).len() > 0,
            None => false,
        };
        has_client && (pending_refresh || was_oauth)
    } else {
        true
    }
}

/// What a form must hold to be saved. A GNOME Online Accounts edit is always
/// accepted: GNOME owns its connection fields. Any other needs an incoming
/// server, a user name, a password (or OAuth), OAuth ready when used, and
/// separate SMTP credentials when those are switched on.
pub open spec fn form_ok(
    goa: bool,
    imap_host: Seq<char>,
    username: Seq<char>,
    oauth: bool,
    password: Seq<char>,
    ready: bool,
    smtp_separate: bool,
    smtp_username: Seq<char>,
    smtp_password: Seq<char>,
) -> bool {
    goa || !(imap_host.len() == 0 || username.len() == 0 || !(oauth || password.len() > 0) || !ready || (
    smtp_separate && (smtp_username.len() == 0 || smtp_password.len() == 0)))
}

pub fn account_form_ok(
    goa: bool,
    imap_host: &str,
    username: &str,
    oauth: bool,
    password: &str,
    ready: bool,
    smtp_separate: bool,
    smtp_username: &str,
    smtp_password: &str,
) -> (r: bool)
    ensures
        r == form_ok(
            goa,
            imap_host@,
            username@,
            oauth,
            password@,
            ready,
            smtp_separate,
            smtp_username@,
            smtp_password@,
        ),
{
    let h = chars_of(imap_host).len();
    let u = chars_of(username).len();
    let p = chars_of(password).len();
    let su = chars_of(smtp_username).len();
    let sp = chars_of(smtp_password).len();
    goa || !(h == 0 || u == 0 || !(oauth || p > 0) || !ready || (smtp_separate && (su == 0 || sp == 0)))
}

/// The confirmation asked before an account is removed.
pub open spec fn remove_prompt_text(name: Seq<char>, is_goa: bool) -> Seq<char> {
    if is_goa {
        "Remove "@ + name
            + " from Vireo? It stays in GNOME Online Accounts and can be imported again from the list below. Mail on the server is not affected."@
    } else {
        "Remove "@ + name + " from Vireo? Its saved password is deleted from the keyring. Mail on the server is not affected."@
    }
}

pub fn remove_prompt(name: &str, email: &str, is_goa: bool) -> (r: String)
    ensures
        r@ == remove_prompt_text(
            if trim(name@).len() == 0 {
                email@
            } else {
                name@
            },
            is_goa,
        ),
{
    let who = display_name(name, email);
    let mut out: Vec<char> = Vec::new();
    push_str(&mut out, "Remove ");
    push_str(&mut out, who.as_str());
    if is_goa {
        push_str(
            &mut out,
            " from Vireo? It stays in GNOME Online Accounts and can be imported again from the list below. Mail on the server is not affected.",
        );
    } else {
        push_str(
            &mut out,
            " from Vireo? Its saved password is deleted from the keyring. Mail on the server is not affected.",
        );
    }
    string_of(&out)
}

// ---------------------------------------------------------------------------
// Aliases, lists, order
// ---------------------------------------------------------------------------

/// Which fields of the alias dialog are wrong.
#[derive(Debug, Clone, Copy, PartialEq, Eq, Structural)]
pub struct AliasCheck {
    pub address: bool,
    pub host: bool,
    pub user: bool,
    pub password: bool,
}

/// The address must look like one and must not repeat the account's own or
/// another alias's (whatever the case): the send path picks an alias's
/// server by its From address. With its own SMTP server an alias needs a
/// host, a user and a password.
pub open spec fn alias_check_of(
    addr: Seq<char>,
    account_email: Seq<char>,
    others: Seq<Seq<char>>,
    own_smtp: bool,
    host: Seq<char>,
    user: Seq<char>,
    pass: Seq<char>,
) -> AliasCheck {
    let duplicate = eq_ci(addr, account_email) || exists|i: int| 0 <= i < others.len() && eq_ci(#[trigger] others[i], addr);
    AliasCheck {
        address: addr.len() == 0 || !contains(addr, "@"@) || duplicate,
        host: own_smtp && host.len() == 0,
        user: own_smtp && user.len() == 0,
        password: own_smtp && pass.len() == 0,
    }
}

pub fn alias_check(
    addr: &str,
    account_email: &str,
    others: &Vec<String>,
    own_smtp: bool,
    host: &str,
    user: &str,
    pass: &str,
) -> (r: AliasCheck)
    ensures
        r == alias_check_of(
            addr@,
            account_email@,
            others@.map_values(|s: String| s@),
            own_smtp,
            host@,
            user@,
            pass@,
        ),
{
    let a = chars_of(addr);
    let e = chars_of(account_email);
    let mut duplicate = eq_ci_chars(&a, &e);
    let ghost ov = others@.map_values(|s: String| s@);
    let mut i: usize = 0;
    while i < others.len()
        invariant
            i <= others.len(),
            a@ == addr@,
            e@ == account_email@,
            ov == others@.map_values(|s: String| s@),
            duplicate == (eq_ci(addr@, account_email@) || exists|j: int| 0 <= j < i && eq_ci(#[trigger] ov[j], addr@)),
        decreases others.len() - i,
    {
        let o = chars_of(others[i].as_str());
        if eq_ci_chars(&o, &a) {
            assert(eq_ci(ov[i as int], addr@));
            duplicate = true;
        }
        i += 1;
    }
    let at = chars_of("@");
    AliasCheck {
        address: a.len() == 0 || !contains_exec(&a, &at) || duplicate,
        host: own_smtp && chars_of(host).len() == 0,
        user: own_smtp && chars_of(user).len() == 0,
        password: own_smtp && chars_of(pass).len() == 0,
    }
}

/// An alias's identity: `Name <address>`, or the bare address without a
/// name.
pub fn alias_identity(name: &str, addr: &str) -> (r: String)
    ensures
        r@ == (if name@.len() == 0 {
            addr@
        } else {
            name@ + " <"@ + addr@ + ">"@
        }),
{
    let n = chars_of(name);
    let a = chars_of(addr);
    if n.len() == 0 {
        string_of(&a)
    } else {
        let mut out = n;
        push_str(&mut out, " <");
        push_all(&mut out, &a);
        push_str(&mut out, ">");
        string_of(&out)
    }
}

/// The address an alias sends from: inside the angle brackets of
/// `Name <address>`, else the whole (trimmed) identity.
pub open spec fn alias_address(identity: Seq<char>) -> Seq<char> {
    let t = trim(identity);
    match crate::text::rfind_char(t, '<', t.len() as int) {
        Some(i) => if t.last() == '>' {
            trim(t.subrange(i + 1, t.len() - 1))
        } else {
            t
        },
        None => t,
    }
}

pub fn alias_address_of(identity: &str) -> (r: String)
    ensures
        r@ == alias_address(identity@),
{
    let c = chars_of(identity);
    let t = trim_chars(&c);
    match crate::text::rfind_char_exec(&t, '<') {
        Some(i) => {
            proof {
                crate::gallery::lemma_rfind_char(t@, '<', t@.len() as int);
            }
            if t[t.len() - 1] == '>' {
                let inner = crate::text::slice_of(&t, i + 1, t.len() - 1);
                let it = trim_chars(&inner);
                string_of(&it)
            } else {
                string_of(&t)
            }
        },
        None => string_of(&t),
    }
}

/// One line of a connection test's report: `✓ label: connected`, or
/// `✗ label: error`.
pub open spec fn test_line(label: Seq<char>, result: Result<(), Seq<char>>) -> Seq<char> {
    match result {
        Ok(_) => "✓ "@ + label + ": connected"@,
        Err(e) => "✗ "@ + label + ": "@ + e,
    }
}

fn test_line_exec(label: &str, result: &Result<(), String>) -> (r: Vec<char>)
    ensures
        r@ == test_line(
            label@,
            match result {
                Ok(_) => Ok(()),
                Err(e) => Err(e@),
            },
        ),
{
    match result {
        Ok(_) => {
            let mut out = chars_of("✓ ");
            push_str(&mut out, label);
            push_str(&mut out, ": connected");
            out
        },
        Err(e) => {
            let mut out = chars_of("✗ ");
            push_str(&mut out, label);
            push_str(&mut out, ": ");
            push_str(&mut out, e.as_str());
            out
        },
    }
}

pub open spec fn result_view(r: Result<(), String>) -> Result<(), Seq<char>> {
    match r {
        Ok(_) => Ok(()),
        Err(e) => Err(e@),
    }
}

/// The connection test's report: a line for the incoming server (POP3 or
/// IMAP) and one for sending, and whether it reads as a success (both
/// connected) or an error.
pub fn test_report(pop3: bool, incoming: &Result<(), String>, smtp: &Result<(), String>) -> (r: (String, bool))
    ensures
        r.0@ == test_line(
            if pop3 {
                "POP3"@
            } else {
                "IMAP"@
            },
            result_view(*incoming),
        ) + "\n"@ + test_line("SMTP"@, result_view(*smtp)),
        r.1 == (incoming is Ok && smtp is Ok),
{
    let mut out = test_line_exec(if pop3 {
        "POP3"
    } else {
        "IMAP"
    }, incoming);
    push_str(&mut out, "\n");
    let s = test_line_exec("SMTP", smtp);
    push_all(&mut out, &s);
    (string_of(&out), incoming.is_ok() && smtp.is_ok())
}

/// The alias dialog's test report: the sending server's line, and whether
/// it connected.
pub fn alias_test_report(result: &Result<(), String>) -> (r: (String, bool))
    ensures
        r.0@ == test_line("SMTP"@, result_view(*result)),
        r.1 == (result is Ok),
{
    let out = test_line_exec("SMTP", result);
    (string_of(&out), result.is_ok())
}

/// The address an allow-list or blocklist entry adds: trimmed and
/// lower-cased, and only when it is not blank and not listed already.
pub fn new_list_entry(text: &str, listed: &Vec<String>) -> (r: Option<String>)
    ensures
        match r {
            Some(a) => a@ == unicode_lower(trim(text@)) && a@.len() > 0 && forall|i: int|
                0 <= i < listed@.len() ==> (#[trigger] listed@[i])@ != a@,
            None => unicode_lower(trim(text@)).len() == 0 || exists|i: int|
                0 <= i < listed@.len() && (#[trigger] listed@[i])@ == unicode_lower(trim(text@)),
        },
{
    let t = crate::text::trim_str(text);
    let a = to_lowercase(t.as_str());
    let ac = chars_of(a.as_str());
    if ac.len() == 0 {
        return None;
    }
    let mut i: usize = 0;
    while i < listed.len()
        invariant
            i <= listed.len(),
            ac@ == unicode_lower(trim(text@)),
            forall|j: int| 0 <= j < i ==> (#[trigger] listed@[j])@ != ac@,
        decreases listed.len() - i,
    {
        let l = chars_of(listed[i].as_str());
        if crate::text::seq_eq(&l, &ac) {
            return None;
        }
        i += 1;
    }
    Some(a)
}

pub open spec fn list_views(v: Seq<String>) -> Seq<Seq<char>> {
    Seq::new(v.len(), |i: int| v[i]@)
}

/// Removes an address from an allow-list or blocklist: its first entry goes,
/// and the answer is where it stood (`None`, and nothing changes, when it is
/// not listed).
pub fn remove_list_entry(listed: &mut Vec<String>, addr: &str) -> (r: Option<usize>)
    ensures
        list_views(final(listed)@) == crate::list_state::drop_first_of(list_views(old(listed)@), addr@),
        match r {
            Some(i) => i < old(listed)@.len() && old(listed)@[i as int]@ == addr@ && forall|k: int|
                0 <= k < i ==> old(listed)@[k]@ != addr@,
            None => !list_views(old(listed)@).contains(addr@),
        },
{
    let a = chars_of(addr);
    let ghost lv = list_views(listed@);
    let mut i: usize = 0;
    while i < listed.len()
        invariant
            i <= listed.len(),
            a@ == addr@,
            listed@ == old(listed)@,
            lv == list_views(listed@),
            forall|k: int| 0 <= k < i ==> listed@[k]@ != addr@,
        decreases listed.len() - i,
    {
        let e = chars_of(listed[i].as_str());
        if crate::text::seq_eq(&e, &a) {
            proof {
                assert(lv[i as int] == addr@);
                assert forall|k: int| 0 <= k < i implies lv[k] != addr@ by {
                    assert(lv[k] == listed@[k]@);
                }
                crate::list_state::lemma_drop_first_at(lv, addr@, i as int);
            }
            listed.remove(i);
            assert(list_views(listed@) =~= lv.remove(i as int));
            return Some(i);
        }
        i += 1;
    }
    proof {
        assert forall|k: int| 0 <= k < lv.len() implies lv[k] != addr@ by {
            assert(lv[k] == listed@[k]@);
        }
        lemma_drop_first_absent(lv, addr@);
    }
    None
}

proof fn lemma_drop_first_absent(s: Seq<Seq<char>>, x: Seq<char>)
    requires
        forall|k: int| 0 <= k < s.len() ==> s[k] != x,
    ensures
        crate::list_state::drop_first_of(s, x) == s,
        !s.contains(x),
    decreases s.len(),
{
    if s.len() > 0 {
        lemma_drop_first_absent(s.drop_first(), x);
        assert(seq![s[0]] + s.drop_first() =~= s);
    }
}

/// Adding an address that was not listed and removing it again gives back
/// the list, and adding keeps the list free of repeats.
pub proof fn law_list_entry_round_trip(listed: Seq<Seq<char>>, a: Seq<char>)
    requires
        !listed.contains(a),
    ensures
        crate::list_state::drop_first_of(listed.push(a), a) == listed,
        listed.no_duplicates() ==> listed.push(a).no_duplicates(),
{
    let p = listed.push(a);
    assert forall|k: int| 0 <= k < listed.len() implies p[k] != a by {
        assert(p[k] == listed[k]);
        if listed[k] == a {
            assert(listed.contains(a));
        }
    }
    crate::list_state::lemma_drop_first_at(p, a, listed.len() as int);
    assert(p.remove(listed.len() as int) =~= listed);
    if listed.no_duplicates() {
        assert forall|x: int, y: int| 0 <= x < p.len() && 0 <= y < p.len() && x != y implies p[x] != p[y] by {
            if x < listed.len() && y < listed.len() {
                assert(p[x] == listed[x] && p[y] == listed[y]);
            }
        }
    }
}

/// Moves an item to another place in a list (the drag-to-reorder of the
/// accounts): out of `from`, in at `to`, or at the end when `to` is past
/// it. Nothing moves when `from` is past the end.
pub fn move_item<T>(v: &mut Vec<T>, from: usize, to: usize)
    ensures
        from < old(v)@.len() ==> final(v)@ == old(v)@.remove(from as int).insert(
            (if to < old(v)@.len() - 1 {
                to
            } else {
                (old(v)@.len() - 1) as usize
            }) as int,
            old(v)@[from as int],
        ),
        from >= old(v)@.len() ==> final(v)@ == old(v)@,
{
    if from < v.len() {
        let x = v.remove(from);
        let t = if to < v.len() {
            to
        } else {
            v.len()
        };
        v.insert(t, x);
    }
}

/// A filter rule's field, as the rules read it.
#[derive(Debug, Clone, Copy, PartialEq, Eq, Structural)]
pub enum FilterField {
    FromAddress,
    FromName,
    Subject,
    Recipients,
}

/// How a filter rule's text matches.
#[derive(Debug, Clone, Copy, PartialEq, Eq, Structural)]
pub enum FilterMatch {
    Contains,
    Equals,
    StartsWith,
    EndsWith,
}

pub fn field_label(f: FilterField) -> (r: &'static str)
    ensures
        r@ == (match f {
            FilterField::FromAddress => "From address"@,
            FilterField::FromName => "From name"@,
            FilterField::Subject => "Subject"@,
            FilterField::Recipients => "To or Cc"@,
        }),
{
    match f {
        FilterField::FromAddress => "From address",
        FilterField::FromName => "From name",
        FilterField::Subject => "Subject",
        FilterField::Recipients => "To or Cc",
    }
}

pub fn match_label(m: FilterMatch) -> (r: &'static str)
    ensures
        r@ == (match m {
            FilterMatch::Contains => "contains"@,
            FilterMatch::Equals => "is exactly"@,
            FilterMatch::StartsWith => "starts with"@,
            FilterMatch::EndsWith => "ends with"@,
        }),
{
    match m {
        FilterMatch::Contains => "contains",
        FilterMatch::Equals => "is exactly",
        FilterMatch::StartsWith => "starts with",
        FilterMatch::EndsWith => "ends with",
    }
}

/// Whether a GNOME Online Accounts mail account can be offered for import:
/// it can serve mail (over IMAP, or over Microsoft Graph), and no configured
/// account with its address (whatever the case) works already (has an
/// incoming server or runs over Graph).
pub open spec fn goa_importable_spec(
    configured: Seq<(Seq<char>, Seq<char>, Protocol)>,
    email: Seq<char>,
    imap_host: Seq<char>,
    oauth2: bool,
    provider_type: Seq<char>,
) -> bool {
    let graph = oauth2 && provider_type == "ms_graph"@;
    &&& !exists|i: int|
        0 <= i < configured.len() && eq_ci(#[trigger] configured[i].0, email) && (trim(configured[i].1).len() > 0
            || configured[i].2 == Protocol::Graph)
    &&& (imap_host.len() > 0 || graph)
}

pub fn goa_importable(
    configured: &Vec<(String, String, Protocol)>,
    email: &str,
    imap_host: &str,
    oauth2: bool,
    provider_type: &str,
) -> (r: bool)
    ensures
        r == goa_importable_spec(
            configured@.map_values(|c: (String, String, Protocol)| (c.0@, c.1@, c.2)),
            email@,
            imap_host@,
            oauth2,
            provider_type@,
        ),
{
    let ghost cv = configured@.map_values(|c: (String, String, Protocol)| (c.0@, c.1@, c.2));
    let e = chars_of(email);
    let mut i: usize = 0;
    while i < configured.len()
        invariant
            i <= configured.len(),
            e@ == email@,
            cv == configured@.map_values(|c: (String, String, Protocol)| (c.0@, c.1@, c.2)),
            forall|j: int|
                0 <= j < i ==> !(eq_ci(#[trigger] cv[j].0, email@) && (trim(cv[j].1).len() > 0 || cv[j].2
                    == Protocol::Graph)),
        decreases configured.len() - i,
    {
        let c = &configured[i];
        let ce = chars_of(c.0.as_str());
        let ch = trim_chars(&chars_of(c.1.as_str()));
        let graph = match c.2 {
            Protocol::Graph => true,
            _ => false,
        };
        assert(cv[i as int] == (c.0@, c.1@, c.2));
        if eq_ci_chars(&ce, &e) && (ch.len() > 0 || graph) {
            assert(eq_ci(cv[i as int].0, email@) && (trim(cv[i as int].1).len() > 0 || cv[i as int].2
                == Protocol::Graph));
            return false;
        }
        i += 1;
    }
    let graph = oauth2 && is_text(&chars_of(provider_type), "ms_graph");
    chars_of(imap_host).len() > 0 || graph
}

// ---------------------------------------------------------------------------
// Folder roles
// ---------------------------------------------------------------------------

/// The folder a role's drop-down picks: row 0 is "none", row `k` the
/// `k - 1`th folder.
pub open spec fn role_folder(row: u32, paths: Seq<String>) -> Option<Seq<char>> {
    if row > 0 && row - 1 < paths.len() {
        Some(paths[row - 1]@)
    } else {
        None
    }
}

pub open spec fn role_pair(role: Seq<char>, row: u32, paths: Seq<String>) -> Seq<(Seq<char>, Seq<char>)> {
    match role_folder(row, paths) {
        Some(p) => seq![(role, p)],
        None => seq![],
    }
}

/// The special-folder roles chosen in the editor, by role name in order (as a
/// sorted map lists them): each role whose drop-down names a folder.
pub open spec fn roles_of(sent: u32, drafts: u32, trash: u32, junk: u32, archive: u32, paths: Seq<String>) -> Seq<
    (Seq<char>, Seq<char>),
> {
    role_pair("archive"@, archive, paths) + role_pair("drafts"@, drafts, paths) + role_pair("junk"@, junk, paths)
        + role_pair("sent"@, sent, paths) + role_pair("trash"@, trash, paths)
}

fn push_role(out: &mut Vec<(String, String)>, role: &str, row: u32, paths: &Vec<String>)
    ensures
        final(out)@.map_values(|p: (String, String)| (p.0@, p.1@)) == old(out)@.map_values(
            |p: (String, String)| (p.0@, p.1@),
        ) + role_pair(role@, row, paths@),
{
    let ghost before = out@.map_values(|p: (String, String)| (p.0@, p.1@));
    if row > 0 && ((row - 1) as usize) < paths.len() {
        let path = paths[(row - 1) as usize].clone();
        let r = String::from_str(role);
        proof {
            assert(path@ == paths@[row - 1]@);
        }
        out.push((r, path));
        assert(out@.map_values(|p: (String, String)| (p.0@, p.1@)) =~= before + role_pair(role@, row, paths@));
    } else {
        assert(before + role_pair(role@, row, paths@) =~= before);
    }
}

pub fn folder_roles(sent: u32, drafts: u32, trash: u32, junk: u32, archive: u32, paths: &Vec<String>) -> (r: Vec<
    (String, String),
>)
    ensures
        r@.map_values(|p: (String, String)| (p.0@, p.1@)) == roles_of(sent, drafts, trash, junk, archive, paths@),
{
    let mut out: Vec<(String, String)> = Vec::new();
    assert(out@.map_values(|p: (String, String)| (p.0@, p.1@)) =~= Seq::<(Seq<char>, Seq<char>)>::empty());
    push_role(&mut out, "archive", archive, paths);
    push_role(&mut out, "drafts", drafts, paths);
    push_role(&mut out, "junk", junk, paths);
    push_role(&mut out, "sent", sent, paths);
    push_role(&mut out, "trash", trash, paths);
    assert(Seq::<(Seq<char>, Seq<char>)>::empty() + role_pair("archive"@, archive, paths@) =~= role_pair(
        "archive"@,
        archive,
        paths@,
    ));
    out
}

/// The drop-down row showing a role's folder: the folder's position plus
/// one (row 0 is "Automatic"), or 0 when the role has none or its folder is
/// not offered.
pub open spec fn row_of_folder(path: Option<Seq<char>>, paths: Seq<String>) -> u32 {
    match path {
        Some(p) => match first_path(paths, p, 0) {
            Some(i) => (i + 1) as u32,
            None => 0,
        },
        None => 0,
    }
}

/// The first position at or after `from` of a folder with this path.
pub open spec fn first_path(paths: Seq<String>, p: Seq<char>, from: int) -> Option<int>
    decreases paths.len() - from,
{
    if from < 0 || from >= paths.len() {
        None
    } else if paths[from]@ == p {
        Some(from)
    } else {
        first_path(paths, p, from + 1)
    }
}

proof fn lemma_first_path(paths: Seq<String>, p: Seq<char>, from: int)
    requires
        0 <= from,
    ensures
        match first_path(paths, p, from) {
            Some(i) => from <= i < paths.len() && paths[i]@ == p && forall|k: int| from <= k < i ==> paths[k]@ != p,
            None => forall|k: int| from <= k < paths.len() ==> paths[k]@ != p,
        },
    decreases paths.len() - from,
{
    if from < paths.len() && paths[from]@ != p {
        lemma_first_path(paths, p, from + 1);
    }
}

pub fn folder_row(path: Option<&str>, paths: &Vec<String>) -> (r: u32)
    requires
        paths@.len() < u32::MAX,
    ensures
        r == row_of_folder(
            match path {
                Some(p) => Some(p@),
                None => None,
            },
            paths@,
        ),
{
    let p = match path {
        Some(p) => p,
        None => return 0,
    };
    let pc = chars_of(p);
    let mut i: usize = 0;
    while i < paths.len()
        invariant
            i <= paths@.len(),
            paths@.len() < u32::MAX,
            pc@ == p@,
            path == Some(p),
            first_path(paths@, p@, 0) == first_path(paths@, p@, i as int),
        decreases paths.len() - i,
    {
        let c = chars_of(paths[i].as_str());
        if crate::text::seq_eq(&c, &pc) {
            assert(paths@[i as int]@ == p@);
            assert(first_path(paths@, p@, i as int) == Some(i as int));
            return (i + 1) as u32;
        }
        i += 1;
    }
    0
}

/// A folder picked for a role is shown picked again when the editor reopens:
/// among distinct folders, the row a role's folder is read from is the row
/// it is shown at.
pub proof fn law_folder_row_round_trip(row: u32, paths: Seq<String>)
    requires
        0 < row <= paths.len(),
        forall|a: int, b: int| 0 <= a < b < paths.len() ==> paths[a]@ != paths[b]@,
    ensures
        row_of_folder(role_folder(row, paths), paths) == row,
{
    let p = paths[row - 1]@;
    lemma_first_path(paths, p, 0);
    match first_path(paths, p, 0) {
        Some(i) => {
            if i < row - 1 {
                assert(paths[i]@ != paths[row - 1]@);
            }
        },
        None => {
            assert(paths[row - 1]@ != p);
        },
    }
}

} // verus!

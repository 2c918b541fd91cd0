use vireo::accounts::{alias_test_report, test_report};
use vireo::accounts::alias_address_of;
use vireo::contacts::{browser_rows, PickContact};
use vireo::menu::{context_menu_layout, MenuSlot};
use vireo::accounts::{manual_index, preset_index_for_host, provider_at, providers, ProviderKind};

#[test]
fn known_host_maps_to_its_own_entry() {
    let idx = preset_index_for_host("imap.mail.me.com");
    assert_eq!(provider_at(idx).label, "iCloud");
    assert_eq!(preset_index_for_host("IMAP.FASTMAIL.COM"), preset_index_for_host("imap.fastmail.com"));
    assert_eq!(provider_at(preset_index_for_host("imap.fastmail.com")).label, "Fastmail");
}

#[test]
fn unknown_or_empty_host_falls_back_to_manual() {
    assert_eq!(preset_index_for_host("mail.example.org"), manual_index());
    assert_eq!(preset_index_for_host(""), manual_index());
    assert_eq!(preset_index_for_host("  "), manual_index());
    assert_eq!(provider_at(manual_index()).kind, ProviderKind::Manual);
}

#[test]
fn removed_password_providers_are_gone() {
    for p in providers() {
        if p.kind == ProviderKind::Preset {
            assert_ne!(p.imap_host, "imap.gmail.com");
            assert_ne!(p.imap_host, "outlook.office365.com");
        }
    }
}

#[test]
fn provider_table_is_well_formed() {
    let table = providers();
    let mut labels: Vec<&str> = table.iter().map(|p| p.label).collect();
    let n = labels.len();
    labels.sort_unstable();
    labels.dedup();
    assert_eq!(labels.len(), n, "provider labels must be unique");
    assert_eq!(table.iter().filter(|p| p.kind == ProviderKind::Manual).count(), 1);
    for p in &table {
        if p.kind == ProviderKind::Preset {
            assert!(!p.imap_host.is_empty() && !p.smtp_host.is_empty(), "{}", p.label);
            assert!(p.imap_port > 0 && p.smtp_port > 0, "{}", p.label);
            assert_eq!(provider_at(preset_index_for_host(p.imap_host)).label, p.label);
        }
    }
}

#[test]
fn connection_test_reports_each_server() {
    let (text, ok) = test_report(false, &Ok(()), &Err("timed out".to_string()));
    assert_eq!(text, "✓ IMAP: connected\n✗ SMTP: timed out");
    assert!(!ok);
    let (text, ok) = test_report(true, &Ok(()), &Ok(()));
    assert_eq!(text, "✓ POP3: connected\n✓ SMTP: connected");
    assert!(ok);
    assert_eq!(alias_test_report(&Ok(())), ("✓ SMTP: connected".to_string(), true));
    assert_eq!(alias_test_report(&Err("refused".into())), ("✗ SMTP: refused".to_string(), false));
}

#[test]
fn an_alias_sends_from_the_address_in_its_identity() {
    assert_eq!(alias_address_of("Bea <b@x.org>"), "b@x.org");
    assert_eq!(alias_address_of("  b@x.org "), "b@x.org");
    assert_eq!(alias_address_of("Odd <b@x.org"), "Odd <b@x.org");
}

#[test]
fn the_contacts_browser_sorts_and_searches() {
    let c = |name: &str, email: &str| PickContact { name: name.into(), email: email.into() };
    let cs = vec![c("zed", "z@x.org"), c("Amy", "amy@x.org"), c("bob", "B@Work.org")];
    assert_eq!(browser_rows(&cs, ""), vec![1, 2, 0]);
    assert_eq!(browser_rows(&cs, "WORK"), vec![2]);
    assert_eq!(browser_rows(&cs, "x.org"), vec![1, 0]);
}

#[test]
fn context_menus_separate_their_sections() {
    let slots = context_menu_layout(&vec![2, 0, 1]);
    assert_eq!(
        slots,
        vec![
            MenuSlot::Entry { section: 0, index: 0 },
            MenuSlot::Entry { section: 0, index: 1 },
            MenuSlot::Separator,
            MenuSlot::Entry { section: 2, index: 0 },
        ]
    );
    assert!(context_menu_layout(&vec![0, 0]).is_empty());
}

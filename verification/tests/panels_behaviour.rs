use vireo::accounts::folder_row;
use vireo::accounts::remove_list_entry;
use vireo::gallery::{staged_base, staged_name};
use vireo::accounts::folder_roles;
use vireo::accounts::{
    alias_check, alias_identity, custom_label, display_name, label_follows, move_item, new_list_entry, port_or,
    protocol_choice, provider_index_for_account, push_choice, remove_prompt, signature_is_empty, AliasCheck, Protocol,
};
use vireo::compose::{
    append_recipient, can_send, complete_field, completion_move, contact_display, current_token, ranked_matches,
    Suggestion,
};
use vireo::contacts::{byline, contact_rows, contacts_count, full_url, reselect, row_subtitle, selected_row, Contact, ContactSort};
use vireo::drawer::{attachment_count, chevron, clamp_thumb, display_order, divider_position, dragged_height, lightbox_start};
use vireo::gallery::{apply_filter, caption, clamp_thumb_width, folder_label, is_pdf_name, item_at, page, step, SortBy};
use vireo::model::{GalleryItem, Message};
use vireo::mutf7::decode_mutf7;

fn item(name: &str, from: &str, folder: &str, ts: i64) -> GalleryItem {
    GalleryItem {
        account_id: 1,
        folder_path: folder.into(),
        uid: 1,
        name: name.into(),
        size: 10,
        from_name: from.into(),
        subject: String::new(),
        timestamp: ts,
        data: None,
    }
}

fn contact(name: &str, primary: Option<&str>) -> Contact {
    Contact {
        name: name.into(),
        nickname: String::new(),
        title: String::new(),
        org: String::new(),
        emails: primary.iter().map(|s| s.to_string()).collect(),
        phones: Vec::new(),
        primary: primary.map(|s| s.to_string()),
    }
}

fn decoded(s: &str) -> String {
    decode_mutf7(&s.chars().collect()).into_iter().collect()
}

#[test]
fn modified_utf7_folder_names_decode() {
    assert_eq!(decoded("Entw&APw-rfe"), "Entwürfe");
    assert_eq!(decoded("caf&AOk-"), "café");
    assert_eq!(decoded("Tom &- Jerry"), "Tom & Jerry");
    assert_eq!(decoded("plain"), "plain");
    assert_eq!(decoded("broken&AOk"), "broken&AOk", "an unterminated shift is kept as it is");
}

#[test]
fn folder_labels_use_the_last_segment() {
    assert_eq!(folder_label("INBOX"), "Inbox");
    assert_eq!(folder_label("Archive/2024/inbox"), "Inbox");
    assert_eq!(folder_label("[Gmail]/Sent Mail"), "Sent Mail");
    assert_eq!(folder_label("Projects/Entw&APw-rfe"), "Entwürfe");
}

#[test]
fn gallery_filter_combines_words_and_type() {
    let all = vec![
        item("holiday.jpg", "Alice", "INBOX", 300),
        item("report.pdf", "Bob", "INBOX", 200),
        item("beach.png", "Bob", "Archive", 100),
    ];
    let every = apply_filter(&all, "", 0, SortBy::Newest);
    assert_eq!(every, vec![0, 1, 2]);
    let images = apply_filter(&all, "", 1, SortBy::Newest);
    assert_eq!(images, vec![0, 2]);
    let bobs_images = apply_filter(&all, "BOB", 1, SortBy::Newest);
    assert_eq!(bobs_images, vec![2]);
    let both_words = apply_filter(&all, "bob archive", 0, SortBy::Newest);
    assert_eq!(both_words, vec![2]);
    let by_name = apply_filter(&all, "", 0, SortBy::Name);
    assert_eq!(by_name, vec![2, 0, 1]);
    assert!(apply_filter(&all, "nothing-like-this", 0, SortBy::Name).is_empty());
}

#[test]
fn gallery_navigation_wraps() {
    assert_eq!(step(0, 1, 3), 1);
    assert_eq!(step(2, 1, 3), 0);
    assert_eq!(step(0, -1, 3), 2);
    assert_eq!(step(1, -4, 3), 0);
    assert_eq!(item_at(&vec![4, 2], 5, 1), Some(2));
    assert_eq!(item_at(&vec![4, 2], 3, 0), None);
    assert_eq!(item_at(&vec![4, 2], 5, 2), None);
}

#[test]
fn gallery_pages_and_captions() {
    assert_eq!(page(true, 0, 0, false), "loading");
    assert_eq!(page(false, 0, 0, false), "empty");
    assert_eq!(page(false, 3, 0, false), "noresults");
    assert_eq!(page(false, 3, 2, true), "table");
    assert_eq!(page(false, 3, 2, false), "grid");
    assert_eq!(clamp_thumb_width(10), 140);
    assert_eq!(clamp_thumb_width(200), 200);
    assert_eq!(clamp_thumb_width(1000), 380);
    assert!(is_pdf_name("Scan.PDF"));
    assert!(!is_pdf_name("scan.pdf.txt"));

    let mut it = item("a.pdf", "  ", "INBOX", 0);
    it.subject = " Invoice ".into();
    assert_eq!(caption(&it, "Jun 3", "10 B"), "Unknown · Invoice · Inbox · Jun 3 · 10 B");
    it.subject = String::new();
    assert_eq!(caption(&it, "", "10 B"), "Unknown · Inbox · 10 B");
}

#[test]
fn account_names_ports_and_labels() {
    assert_eq!(display_name("  ", "a@x.org"), "a@x.org");
    assert_eq!(display_name("Ann", "a@x.org"), "Ann");
    assert_eq!(port_or("993", 143), 993);
    assert_eq!(port_or("+587", 25), 587);
    assert_eq!(port_or("70000", 25), 25);
    assert_eq!(port_or("abc", 25), 25);
    assert_eq!(port_or("", 25), 25);
    assert_eq!(protocol_choice(1), (Protocol::Pop3, 995));
    assert_eq!(protocol_choice(0), (Protocol::Imap, 993));
    assert_eq!(push_choice(1), Some(true));
    assert_eq!(push_choice(2), Some(false));
    assert_eq!(push_choice(0), None);
    assert_eq!(custom_label(" Work ", "a@x.org"), Some("Work".to_string()));
    assert_eq!(custom_label("a@x.org", " a@x.org"), None);
    assert_eq!(custom_label("   ", "a@x.org"), None);
    assert!(label_follows("", "Work"));
    assert!(label_follows("Work", "Work"));
    assert!(!label_follows("Home", "Work"));
}

#[test]
fn empty_signatures_are_recognised() {
    assert!(signature_is_empty(""));
    assert!(signature_is_empty("<p>&nbsp;</p>"));
    assert!(signature_is_empty("<div><br></div>  "));
    assert!(!signature_is_empty("<p>Ann</p>"));
}

#[test]
fn aliases_are_checked_before_saving() {
    let others = vec!["Other@X.org".to_string()];
    assert_eq!(
        alias_check("me@x.org", "ann@x.org", &others, false, "", "", ""),
        AliasCheck { address: false, host: false, user: false, password: false }
    );
    assert!(alias_check("ANN@x.org", "ann@x.org", &others, false, "", "", "").address);
    assert!(alias_check("other@x.org", "ann@x.org", &others, false, "", "", "").address);
    assert!(alias_check("not-an-address", "ann@x.org", &others, false, "", "", "").address);
    assert_eq!(
        alias_check("me@x.org", "ann@x.org", &others, true, "smtp.x.org", "", ""),
        AliasCheck { address: false, host: false, user: true, password: true }
    );
    assert_eq!(alias_identity("", "me@x.org"), "me@x.org");
    assert_eq!(alias_identity("Me", "me@x.org"), "Me <me@x.org>");
}

#[test]
fn list_entries_are_lowercased_and_unique() {
    let listed = vec!["bob@x.org".to_string()];
    assert_eq!(new_list_entry("  ÉMILE@X.ORG ", &listed), Some("émile@x.org".to_string()));
    assert_eq!(new_list_entry("BOB@x.org", &listed), None);
    assert_eq!(new_list_entry("   ", &listed), None);

    let mut v = vec![1, 2, 3, 4];
    move_item(&mut v, 0, 2);
    assert_eq!(v, vec![2, 3, 1, 4]);
    move_item(&mut v, 1, 99);
    assert_eq!(v, vec![2, 1, 4, 3]);
    move_item(&mut v, 9, 0);
    assert_eq!(v, vec![2, 1, 4, 3]);
}

#[test]
fn removal_prompts_name_the_account() {
    assert!(remove_prompt("", "a@x.org", false).starts_with("Remove a@x.org from Vireo?"));
    assert!(remove_prompt("Work", "a@x.org", true).contains("GNOME Online Accounts"));
}

#[test]
fn an_account_maps_to_its_provider_row() {
    let icloud = provider_index_for_account(false, false, None, " IMAP.mail.me.com ");
    assert_eq!(icloud, 2);
    let manual = provider_index_for_account(false, false, None, "mail.example.org");
    let other_manual = provider_index_for_account(false, false, None, "");
    assert_eq!(manual, other_manual);
}

#[test]
fn recipients_complete_at_the_last_comma() {
    assert_eq!(current_token("ann@x.org, Bo"), "Bo");
    assert_eq!(current_token("  carol "), "carol");
    assert_eq!(complete_field("ann@x.org, Bo", "Bob <bob@x.org>"), "ann@x.org,Bob <bob@x.org>, ");
    assert_eq!(complete_field("Bo", "Bob <bob@x.org>"), "Bob <bob@x.org>, ");
    assert_eq!(contact_display("Bob", "bob@x.org"), "Bob <bob@x.org>");
    assert_eq!(contact_display(" ", "bob@x.org"), "bob@x.org");
    assert_eq!(append_recipient("", "bob@x.org"), "bob@x.org, ");
    assert_eq!(append_recipient("ann@x.org", "bob@x.org"), "ann@x.org, bob@x.org, ");
    assert_eq!(append_recipient("ann@x.org, ", "bob@x.org"), "ann@x.org,  bob@x.org, ");
    assert!(can_send(" a@x.org "));
    assert!(!can_send("   "));
    assert_eq!(completion_move(0, 1, 3), Some(1));
    assert_eq!(completion_move(2, 1, 3), Some(2));
    assert_eq!(completion_move(0, -1, 3), Some(0));
    assert_eq!(completion_move(0, 1, 0), None);
}

#[test]
fn suggestions_rank_prefix_hits_then_use_then_name() {
    let s = |name: &str, email: &str, score: u32| Suggestion { name: name.into(), email: email.into(), score };
    let matches = vec![
        s("Zed Bobson", "zed@x.org", 50),
        s("Bob", "bob@x.org", 1),
        s("Bobby", "bobby@x.org", 9),
        s("Abe Bo", "abe@x.org", 9),
    ];
    assert_eq!(ranked_matches(&matches, "BO"), vec![2, 1, 0, 3]);
    let many: Vec<Suggestion> = (0..12).map(|i| s(&format!("n{i:02}"), "e@x.org", 0)).collect();
    let top = ranked_matches(&many, "");
    assert_eq!(top, (0..8).collect::<Vec<usize>>(), "at most eight, by name");
}

#[test]
fn suggestions_that_do_not_match_the_token_are_left_out() {
    let s = |name: &str, email: &str, score: u32| Suggestion { name: name.into(), email: email.into(), score };
    let known = vec![s("Carol", "carol@x.org", 99), s("Bob", "bob@x.org", 1), s("Dora", "dora@bo.net", 5)];
    assert_eq!(ranked_matches(&known, "Bo"), vec![1, 2]);
    assert_eq!(ranked_matches(&known, "zz"), Vec::<usize>::new());
}

#[test]
fn contacts_filter_sort_and_describe() {
    let cs = vec![
        contact("Zoe Adams", Some("zoe@x.org")),
        contact("Adam Young", Some("adam@x.org")),
        contact("Bea Miller", None),
    ];
    assert_eq!(contact_rows(&cs, "", ContactSort::FirstName), vec![1, 2, 0]);
    assert_eq!(contact_rows(&cs, "", ContactSort::LastName), vec![0, 2, 1]);
    assert_eq!(contact_rows(&cs, "adam", ContactSort::FirstName), vec![1, 0]);
    assert_eq!(contact_rows(&cs, "miller", ContactSort::Email), vec![2]);
    assert_eq!(contacts_count(false, 2, 3), "3");
    assert_eq!(contacts_count(true, 2, 3), "2 of 3");
    assert_eq!(selected_row(&vec![4, 7], Some(7)), Some(1));
    assert_eq!(selected_row(&vec![4, 7], Some(9)), Some(0));
    assert_eq!(selected_row(&vec![], Some(9)), None);
    assert_eq!(reselect(&cs, "Adam Young", Some("adam@x.org")), Some(1));
    assert_eq!(reselect(&cs, "Adam Young", None), None);
    assert_eq!(full_url("example.org"), "https://example.org");
    assert_eq!(full_url("http://example.org"), "http://example.org");
    assert_eq!(row_subtitle(&cs[0]), Some("zoe@x.org".to_string()));
    assert_eq!(row_subtitle(&cs[2]), None);

    let mut c = contact("Robert", None);
    c.nickname = "Bob".into();
    c.title = "Engineer".into();
    c.org = "Acme".into();
    assert_eq!(byline(&c), "“Bob”  —  Engineer · Acme");
    c.nickname = "Robert".into();
    c.title = String::new();
    assert_eq!(byline(&c), "Acme");
}

#[test]
fn the_drawer_orders_sizes_and_counts() {
    let names = vec!["b.txt".to_string(), "A.png".to_string(), "c.pdf".to_string()];
    assert_eq!(display_order(&names, false, false), vec![0, 1, 2]);
    assert_eq!(display_order(&names, true, false), vec![1, 0, 2]);
    assert_eq!(display_order(&names, true, true), vec![2, 0, 1]);
    assert_eq!(clamp_thumb(10), 56);
    assert_eq!(clamp_thumb(100), 100);
    assert_eq!(clamp_thumb(999), 220);
    assert_eq!(dragged_height(false, true, false, 800, 500), Some(300));
    assert_eq!(dragged_height(false, true, false, 800, 750), None, "below the minimum");
    assert_eq!(dragged_height(true, true, false, 800, 500), None);
    assert_eq!(divider_position(800, 300), Some(500));
    assert_eq!(divider_position(200, 300), Some(0));
    assert_eq!(divider_position(1, 300), None);
    assert_eq!(lightbox_start(&vec![true, false, true, true], 3), 2);
    assert_eq!(lightbox_start(&vec![false, false], 1), 0);
    assert_eq!(attachment_count(1), "1 attachment");
    assert_eq!(attachment_count(3), "3 attachments");
    assert_eq!(chevron(true).1, "Show attachments");
    assert_eq!(chevron(false).1, "Hide attachments");
}

#[test]
fn full_dates_come_from_the_timestamp() {
    let m = Message {
        id: 1,
        account_id: 1,
        folder_id: 1,
        uid: 1,
        from_name: String::new(),
        from_addr: String::new(),
        to: String::new(),
        cc: String::new(),
        subject: String::new(),
        preview: String::new(),
        body: String::new(),
        date: String::new(),
        timestamp: 1_718_000_000,
        unread: false,
        starred: false,
        has_attachment: false,
        message_id: String::new(),
        references: String::new(),
    };
    let d = m.datetime_full();
    assert!(d.contains("2024"), "{d}");
    assert!(d.contains(" at "), "{d}");
    assert_eq!(m.duplicate().timestamp, m.timestamp);
}

#[test]
fn staged_files_get_safe_distinct_names() {
    assert_eq!(staged_base("../../etc/passwd"), ".._.._etc_passwd");
    assert_eq!(staged_base("Résumé 2024.pdf"), "Résumé_2024.pdf");
    assert_eq!(staged_base(""), "attachment");
    assert_eq!(staged_name("report.pdf", 0), "report.pdf");
    assert_eq!(staged_name("report.pdf", 3), "report-3.pdf");
    assert_eq!(staged_name("archive.tar.gz", 1), "archive.tar-1.gz");
    assert_eq!(staged_name(".hidden", 2), ".hidden-2");
    assert_eq!(staged_name("README", 12), "README-12");
}

#[test]
fn folder_roles_follow_the_dropdowns() {
    let paths = vec!["Sent".to_string(), "Drafts".to_string(), "Trash".to_string()];
    let roles = folder_roles(1, 2, 0, 9, 3, &paths);
    assert_eq!(
        roles,
        vec![
            ("archive".to_string(), "Trash".to_string()),
            ("drafts".to_string(), "Drafts".to_string()),
            ("sent".to_string(), "Sent".to_string()),
        ]
    );
    assert!(folder_roles(0, 0, 0, 0, 0, &paths).is_empty());
}

#[test]
fn list_entries_come_and_go() {
    let mut listed = vec!["a@x.org".to_string(), "b@x.org".to_string()];
    let added = new_list_entry(" C@X.org", &listed).expect("a new address");
    listed.push(added);
    assert_eq!(remove_list_entry(&mut listed, "c@x.org"), Some(2));
    assert_eq!(listed, vec!["a@x.org".to_string(), "b@x.org".to_string()], "adding then removing restores the list");
    assert_eq!(remove_list_entry(&mut listed, "zzz"), None);
    assert_eq!(listed.len(), 2);
    assert_eq!(remove_list_entry(&mut listed, "a@x.org"), Some(0));
    assert_eq!(listed, vec!["b@x.org".to_string()]);
}

#[test]
fn a_roles_folder_is_shown_picked_again() {
    let paths = vec!["Sent".to_string(), "Drafts".to_string(), "Trash".to_string()];
    assert_eq!(folder_row(Some("Drafts"), &paths), 2);
    assert_eq!(folder_row(Some("Gone"), &paths), 0);
    assert_eq!(folder_row(None, &paths), 0);
    let roles = folder_roles(3, 0, 0, 0, 0, &paths);
    assert_eq!(roles, vec![("sent".to_string(), "Trash".to_string())]);
    assert_eq!(folder_row(Some(roles[0].1.as_str()), &paths), 3, "read back at the row it was picked from");
}

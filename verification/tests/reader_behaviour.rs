use vireo::reader::{cc_line, email_link};
use vireo::print::{preview_html, print_thread_document, print_thread_with};
use vireo::conversation::{ground, ground_rgb};
use vireo::model::{Message, RowAction};
use vireo::reader::{
    body_page, card_selection_script, job_name, mark_seen, message_index, parse_page_event, record_height,
    remote_blocked, same_message, select_cards, suppress_autoread, PageEvent, SelectMode,
};

fn msg(account_id: u32, id: u32, body: &str) -> Message {
    Message {
        id,
        account_id,
        folder_id: 1,
        uid: id,
        from_name: "X".into(),
        from_addr: "x@example.com".into(),
        to: String::new(),
        cc: String::new(),
        subject: "Hello".into(),
        preview: String::new(),
        body: body.into(),
        date: String::new(),
        timestamp: 0,
        unread: true,
        starred: false,
        has_attachment: false,
        message_id: String::new(),
        references: String::new(),
    }
}

#[test]
fn page_messages_are_parsed() {
    assert_eq!(parse_page_event("ready:0:0"), Some(PageEvent::Ready));
    assert_eq!(
        parse_page_event("sel:1:2"),
        Some(PageEvent::Select { account_id: 1, id: 2, mode: SelectMode::Plain })
    );
    assert_eq!(
        parse_page_event("sel:1:2:t"),
        Some(PageEvent::Select { account_id: 1, id: 2, mode: SelectMode::Toggle })
    );
    assert_eq!(
        parse_page_event("sel:1:2:r"),
        Some(PageEvent::Select { account_id: 1, id: 2, mode: SelectMode::Range })
    );
    assert_eq!(
        parse_page_event("size:1:2:640"),
        Some(PageEvent::Sized { account_id: 1, id: 2, height: 640 })
    );
    assert_eq!(parse_page_event("open:3:4"), Some(PageEvent::Open { account_id: 3, id: 4 }));
    assert_eq!(parse_page_event("seen:3:4"), Some(PageEvent::Seen { account_id: 3, id: 4 }));
    assert_eq!(
        parse_page_event("replyall:3:4"),
        Some(PageEvent::Action { action: RowAction::ReplyAll, account_id: 3, id: 4 })
    );
    assert_eq!(
        parse_page_event("forward:+3:4"),
        Some(PageEvent::Action { action: RowAction::Forward, account_id: 3, id: 4 })
    );
}

#[test]
fn malformed_page_messages_are_ignored() {
    assert_eq!(parse_page_event(""), None);
    assert_eq!(parse_page_event("ready"), None);
    assert_eq!(parse_page_event("sel:1"), None);
    assert_eq!(parse_page_event("sel:x:2"), None);
    assert_eq!(parse_page_event("size:1:2"), None, "a size needs a height");
    assert_eq!(parse_page_event("size:1:2:tall"), None);
    assert_eq!(parse_page_event("open:1:4294967296"), None, "does not fit in u32");
    assert_eq!(parse_page_event("launch:1:2"), None);
}

#[test]
fn clicks_select_cards_in_the_conversation() {
    let order = [(1, 1), (1, 2), (1, 3), (1, 4)];
    assert_eq!(select_cards(&order, &[], (1, 3), SelectMode::Plain), Some(vec![(1, 3)]));
    assert_eq!(
        select_cards(&order, &[(1, 1)], (1, 3), SelectMode::Toggle),
        Some(vec![(1, 1), (1, 3)])
    );
    assert_eq!(
        select_cards(&order, &[(1, 1), (1, 3)], (1, 1), SelectMode::Toggle),
        Some(vec![(1, 3)])
    );
    assert_eq!(
        select_cards(&order, &[(1, 2)], (1, 4), SelectMode::Range),
        Some(vec![(1, 2), (1, 3), (1, 4)])
    );
    assert_eq!(
        select_cards(&order, &[(1, 4)], (1, 2), SelectMode::Range),
        Some(vec![(1, 2), (1, 3), (1, 4)])
    );
    assert_eq!(select_cards(&order, &[], (9, 9), SelectMode::Plain), Some(vec![]), "not a shown card");
    assert_eq!(select_cards(&[(1, 1)], &[], (1, 1), SelectMode::Plain), None, "a lone message");
}

#[test]
fn reading_marks_only_that_message() {
    let mut thread = vec![msg(1, 1, ""), msg(1, 2, "")];
    assert!(mark_seen(&mut thread, (1, 2)));
    assert!(thread[0].unread);
    assert!(!thread[1].unread);
    assert!(!mark_seen(&mut thread, (1, 2)), "already read");

    let mut no_autoread = Vec::new();
    suppress_autoread(&mut thread, &mut no_autoread, (1, 2));
    suppress_autoread(&mut thread, &mut no_autoread, (1, 2));
    assert!(thread[1].unread);
    assert_eq!(no_autoread, vec![(1, 2)]);
}

#[test]
fn messages_are_found_by_account_and_id() {
    let thread = vec![msg(1, 5, ""), msg(2, 5, "")];
    assert_eq!(message_index(&thread, (2, 5)), Some(1));
    assert_eq!(message_index(&thread, (3, 5)), None);
    assert!(same_message(Some(&thread[0]), Some(&msg(1, 5, "other"))));
    assert!(!same_message(Some(&thread[0]), Some(&thread[1])));
    assert!(!same_message(None, Some(&thread[1])));
}

#[test]
fn heights_are_remembered_and_replaced() {
    let mut store = Vec::new();
    record_height(&mut store, (1, 1), 300);
    record_height(&mut store, (1, 2), 120);
    record_height(&mut store, (1, 1), 450);
    assert_eq!(store.len(), 2);
    assert!(store.contains(&((1, 1), 450)));
    assert!(store.contains(&((1, 2), 120)));
    for i in 0..600u32 {
        record_height(&mut store, (2, i), i);
    }
    assert!(store.len() <= 513, "the store is trimmed");
    assert!(store.contains(&((2, 599), 599)));
}

#[test]
fn remote_content_blocks_only_when_not_allowed() {
    let thread = vec![msg(1, 1, "<p>hi</p>"), msg(1, 2, "<img src=\"https://t.example/p.gif\">")];
    assert!(remote_blocked(&thread, false));
    assert!(!remote_blocked(&thread, true));
    assert!(!remote_blocked(&thread[..1], false));
}

#[test]
fn reader_labels() {
    assert_eq!(body_page(true, true), "loading");
    assert_eq!(body_page(false, false), "loading");
    assert_eq!(body_page(false, true), "body");
    let mut m = msg(1, 1, "");
    assert_eq!(job_name(Some(&m)), "Hello");
    m.subject = "   ".into();
    assert_eq!(job_name(Some(&m)), "Message");
    assert_eq!(job_name(None), "Message");
}

#[test]
fn the_selection_script_lists_quoted_keys() {
    let s = card_selection_script(&[(1, 2), (3, 4)]);
    assert!(s.starts_with("(function(){var s=['1:2','3:4'];"), "{s}");
    assert!(s.contains("classList.toggle('selected'"));
    assert!(card_selection_script(&[]).starts_with("(function(){var s=[];"));
}

#[test]
fn grounds_and_their_colours() {
    assert_eq!(ground(true, false), "#f1f1f1");
    assert_eq!(ground(true, true), "#141414");
    assert_eq!(ground(false, false), "#ffffff");
    assert_eq!(ground_rgb("#f1f1f1"), (241, 241, 241));
    assert_eq!(ground_rgb("#1E1e1e"), (30, 30, 30));
    assert_eq!(ground_rgb("#zz0000"), (0, 0, 0));
}

#[test]
fn header_lines_for_cc_and_the_sender_link() {
    let mut m = msg(1, 1, "");
    assert_eq!(cc_line(Some(&m)), "");
    m.cc = "  a@x.org, b@y.org ".into();
    assert_eq!(cc_line(Some(&m)), "Cc: a@x.org, b@y.org");
    assert_eq!(cc_line(None), "");
    assert_eq!(email_link(Some(&m), "x@example.com"), "<a href=\"mailto:x@example.com\">x@example.com</a>");
    m.from_addr = String::new();
    assert_eq!(email_link(Some(&m), ""), "");
    assert_eq!(email_link(None, "x"), "");
}

#[test]
fn a_thread_prints_with_per_message_headers() {
    let a = msg(1, 1, "<p>first</p>");
    let mut b = msg(1, 2, "<p>second <img src=\"https://t.example/x.gif\"></p>");
    b.from_name = "Bea".into();
    let thread = vec![a.clone(), b];
    let dates = vec!["Mon".to_string(), "Tue".to_string()];
    let doc = print_thread_with(&thread, None, false, "Mon", &dates);
    assert!(doc.contains("first"));
    assert!(doc.contains("second"));
    assert!(doc.contains("Tue"), "each message carries its own date");
    assert!(!doc.contains("t.example"), "remote content stays out unless allowed");
    let allowed = print_thread_with(&thread, None, true, "Mon", &dates);
    assert!(allowed.contains("t.example"));
    let single = print_thread_with(&thread[..1], None, true, "Mon", &dates[..1]);
    assert!(!single.contains("vireo-print-msghdr\">"), "a lone message has only the top header");
    assert!(print_thread_document(&thread, None, false).contains("second"));

    let page = preview_html("<html><head></head><body>x</body></html>", "S");
    assert_eq!(
        page,
        "<html><head><style>S</style></head><body><div class=\"vireo-print-sheet\">x</div></body></html>"
    );
    assert_eq!(preview_html("plain", "S"), "plain");
}

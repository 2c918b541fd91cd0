use vireo::conversation::{conversation_document, PAGE_LIGHT};
use vireo::escape::attr_escape;
use vireo::frame::{inject_csp, message_frame};
use vireo::links::{default_image_name, host_of, is_launchable_uri, link_destination, split_data_uri};
use vireo::model::Message;
use vireo::print::{
    inline_body, print_document, print_header_html, print_message_header_html, sanitize_filename, scope_styles,
};
use vireo::remote::{has_remote_resources, remote_url_spans, strip_remote};

const NONCE: &str = "q7Zk2Lw9Xv4Rb8Tn1Yc6Hd3F";

fn msg_for_print() -> Message {
    Message {
        id: 1,
        account_id: 1,
        folder_id: 1,
        uid: 1,
        from_name: "Ada Lovelace".into(),
        from_addr: "ada@example.com".into(),
        to: "me@example.com".into(),
        cc: "carol@example.com".into(),
        subject: "Quarterly numbers".into(),
        preview: String::new(),
        body: "<p>hi</p>".into(),
        date: "09:14".into(),
        timestamp: 0,
        unread: false,
        starred: false,
        has_attachment: false,
        message_id: String::new(),
        references: String::new(),
    }
}

fn doc_of(
    thread: &[Message],
    labels: &[((u32, u32), String)],
    no_autoread: &[(u32, u32)],
    heights: &[((u32, u32), u32)],
    selected: &[(u32, u32)],
    accent: &str,
) -> String {
    conversation_document(thread, labels, no_autoread, heights, selected, accent, true, false, Some(NONCE))
}

#[test]
fn a_conversation_renders_one_card_per_message_in_order() {
    let mut first = msg_for_print();
    first.body = "<p>opening</p>".into();
    let mut second = msg_for_print();
    second.id = 2;
    second.from_name = "Grace Hopper".into();
    second.body = "<p>reply</p>".into();

    let doc = doc_of(&[first, second], &[], &[], &[], &[], "#3584e4");
    assert_eq!(
        doc.matches("<section class=\"vireo-msg\"").count(),
        2,
        "each message gets its own card: {doc}"
    );
    let ada = doc.find("Ada Lovelace").expect("first sender present");
    let grace = doc.find("Grace Hopper").expect("second sender present");
    assert!(ada < grace, "cards must keep the order they were handed");
    assert!(doc.contains("<body class=\"vireo-conv\">"), "conversation padding");
    assert!(doc.contains(&format!("background:{}", PAGE_LIGHT)), "page ground: {doc}");
}

#[test]
fn every_card_carries_its_own_actions_keyed_to_that_message() {
    let first = msg_for_print();
    let mut second = msg_for_print();
    second.id = 2;
    let doc = doc_of(&[first, second], &[], &[], &[], &[], "#3584e4");
    for act in ["reply", "replyall", "forward"] {
        assert_eq!(
            doc.matches(&format!("data-act=\"{act}\"")).count(),
            2,
            "one {act} button per card: {doc}"
        );
    }
    assert!(doc.contains("data-act=\"reply\" data-key=\"1:1\""), "{doc}");
    assert!(doc.contains("data-act=\"reply\" data-key=\"1:2\""), "{doc}");
}

#[test]
fn only_unread_conversation_messages_are_marked() {
    let read = msg_for_print();
    let mut unread = msg_for_print();
    unread.id = 2;
    unread.unread = true;

    let doc = doc_of(&[read, unread], &[], &[], &[], &[], "#3584e4");
    assert_eq!(doc.matches("class=\"vireo-dot\"").count(), 1, "one dot: {doc}");
    assert_eq!(doc.matches("class=\"vireo-end\"").count(), 1, "one sentinel: {doc}");
    assert!(doc.contains("class=\"vireo-dot\" data-key=\"1:2\""), "{doc}");
    assert!(doc.contains("class=\"vireo-end\" data-key=\"1:2\""), "{doc}");
}

#[test]
fn a_deliberately_unread_message_keeps_its_mark() {
    let read = msg_for_print();
    let mut unread = msg_for_print();
    unread.id = 2;
    unread.unread = true;
    let suppressed = [(1u32, 2u32)];

    let doc = doc_of(&[read, unread], &[], &suppressed, &[], &[], "#3584e4");
    assert_eq!(doc.matches("class=\"vireo-dot\"").count(), 1, "still marked: {doc}");
    assert_eq!(doc.matches("class=\"vireo-end\"").count(), 0, "no sentinel: {doc}");
}

#[test]
fn a_known_frame_height_is_used_on_reopen() {
    let a = msg_for_print();
    let mut b = msg_for_print();
    b.id = 2;
    let heights = [((1u32, 2u32), 640u32)];

    let doc = doc_of(&[a, b], &[], &[], &heights, &[], "#3584e4");
    assert!(doc.contains("style=\"height:640px\""), "known height used: {doc}");
    assert_eq!(doc.matches("style=\"height:").count(), 1, "only the known one");
    assert!(doc.contains("data-key=\"1:2\""), "{doc}");
}

#[test]
fn a_selected_card_is_outlined_in_the_accent() {
    let a = msg_for_print();
    let mut b = msg_for_print();
    b.id = 2;
    let doc = doc_of(&[a, b], &[], &[], &[], &[(1, 2)], "#ff8800");
    assert!(doc.contains("class=\"vireo-msg selected\" data-key=\"1:2\""), "{doc}");
    assert_eq!(doc.matches("vireo-msg selected").count(), 1, "only the selected one");
    assert!(doc.contains("border-color:#ff8800"), "outlined in the accent: {doc}");
}

#[test]
fn a_single_message_is_not_drawn_as_a_card() {
    let doc = doc_of(&[msg_for_print()], &[], &[], &[], &[], "#3584e4");
    assert!(!doc.contains("<section class=\"vireo-msg\""), "no card: {doc}");
    assert!(!doc.contains("<body class=\"vireo-conv\">"), "no conversation padding");
}

#[test]
fn a_message_from_another_folder_is_labelled_with_it() {
    let a = msg_for_print();
    let mut b = msg_for_print();
    b.id = 2;
    b.folder_id = 3;
    let labels = [((1u32, 2u32), "Sent".to_string())];
    let doc = doc_of(&[a, b], &labels, &[], &[], &[], "#3584e4");
    assert_eq!(
        doc.matches("vireo-folder").count(),
        2,
        "only the message from another folder should carry a folder badge"
    );
    assert!(doc.contains(">Sent</span>"), "the badge should name the folder");
}

#[test]
fn a_folder_label_cannot_smuggle_markup_into_the_header() {
    let a = msg_for_print();
    let mut b = msg_for_print();
    b.id = 2;
    let labels = [((1u32, 2u32), "<img src=x onerror=alert(1)>".to_string())];
    let doc = doc_of(&[a, b], &labels, &[], &[], &[], "#3584e4");
    assert!(!doc.contains("<img src=x"), "the label must be escaped, not rendered");
    assert!(doc.contains("&lt;img src=x"));
}

#[test]
fn a_sender_cannot_put_markup_in_the_conversation_header() {
    let mut a = msg_for_print();
    a.from_name = "<script>x=1</script>".into();
    a.from_addr = "<img src=y onerror=z>@example.com".into();
    let mut b = msg_for_print();
    b.id = 2;
    let doc = doc_of(&[a, b], &[], &[], &[], &[], "#3584e4");

    assert!(!doc.contains("<script>x=1"), "{doc}");
    assert!(!doc.contains("<img src=y"), "{doc}");
    assert!(doc.contains("&lt;script&gt;x=1&lt;/script&gt;"), "{doc}");
    assert!(doc.contains("onerror=z&gt;"), "{doc}");
}

#[test]
fn the_wrapper_only_runs_its_own_script() {
    let mut a = msg_for_print();
    a.from_name = "Ada".into();
    let mut b = msg_for_print();
    b.id = 2;
    let doc = doc_of(&[a, b], &[], &[], &[], &[], "#3584e4");

    let policy = doc
        .split("<meta http-equiv=\"Content-Security-Policy\" content=\"")
        .nth(1)
        .and_then(|r| r.split('"').next())
        .expect("the wrapper declares a CSP");
    let nonce = policy
        .split("script-src 'nonce-")
        .nth(1)
        .and_then(|r| r.split('\'').next())
        .expect("wrapper CSP declares a nonce");
    assert!(nonce.len() >= 16, "nonce is {} chars", nonce.len());
    assert!(doc.contains(&format!("<script nonce=\"{nonce}\">")), "{doc}");
    assert_eq!(doc.matches("<script").count(), 1, "{doc}");
    assert!(!policy.contains("default-src"), "{policy}");
    // Each render is handed a fresh nonce; the document carries only its own.
    let again = conversation_document(
        &[msg_for_print(), msg_for_print()],
        &[],
        &[],
        &[],
        &[],
        "#3584e4",
        true,
        false,
        Some("Hs5Pm0Qa8Ue2Wi7Oy4Ar9Gt1"),
    );
    assert!(!again.contains(nonce), "nonce was reused across renders");
}

#[test]
fn the_remote_detector_sees_past_the_obvious_spellings() {
    for html in [
        r#"<img src="//tracker.example/p.gif">"#,
        r#"<img src = "http://tracker.example/p.gif">"#,
        r#"<svg><image href="http://tracker.example/p.gif"/></svg>"#,
        r#"<video poster="http://tracker.example/p.gif">"#,
        r#"<style>@import url(//tracker.example/x.css)</style>"#,
        r#"<style>@import "https://tracker.example/x.css"</style>"#,
        r#"<IMG SRC="HTTP://tracker.example/p.gif">"#,
        r#"<img src=http://tracker.example/p.gif>"#,
        r#"<img src='//tracker.example/p.gif'>"#,
        r#"<div style="background:url('//tracker.example/p.gif')">"#,
        r#"<img srcset="//tracker.example/p.gif 1x, /local.gif 2x">"#,
        r#"<link rel="stylesheet" href="//tracker.example/x.css">"#,
    ] {
        assert!(has_remote_resources(html), "not detected: {html}");
        let stripped = strip_remote(html);
        assert!(
            !stripped.contains("tracker.example"),
            "not stripped: {html} -> {stripped}"
        );
    }
}

#[test]
fn a_stylesheet_does_not_hide_what_follows_it() {
    let html = "<html><head><style>.a{background:url(https://cdn.example/b.png)}</style>\
                </head><body><img src=\"https://cdn.example/i.png\"></body></html>";
    let out = strip_remote(html);
    assert!(!out.contains("cdn.example"), "{out}");
    assert_eq!(out.matches("blocked://").count(), 2, "{out}");
}

#[test]
fn the_detector_leaves_self_contained_messages_alone() {
    for html in [
        r#"<img src="data:image/png;base64,iVBOR">"#,
        r#"<img src="cid:part1@example.com">"#,
        r#"<p>plain text, no resources at all</p>"#,
        r#"<a href="https://example.com/read-more">more</a>"#,
        r#"<div style="color:#333;font-weight:bold">styled</div>"#,
    ] {
        assert!(!has_remote_resources(html), "false positive: {html}");
        assert_eq!(strip_remote(html), html, "needlessly rewritten: {html}");
    }
}

#[test]
fn blocking_follows_the_users_choice_not_the_detector() {
    let sneaky = r#"<img data-x="y" src="//tracker.example/p.gif">"#;
    let frame = message_frame(sneaky, true, false, (1, 1), None);
    assert!(frame.contains("img-src data: cid:"), "{frame}");
    assert!(!frame.contains("img-src http:"), "{frame}");
    assert!(!frame.contains("tracker.example"), "{frame}");

    let allowed = message_frame(sneaky, false, false, (1, 1), None);
    assert!(allowed.contains("img-src http: https:"), "{allowed}");
    assert!(allowed.contains("tracker.example"), "{allowed}");
}

#[test]
fn only_web_and_mail_links_reach_the_desktop() {
    for uri in ["http://example.com/", "https://example.com/", "MAILTO:a@b.c"] {
        assert!(is_launchable_uri(uri), "{uri}");
    }
    for uri in [
        "file:///etc/passwd",
        "smb://host/share",
        "nfs://host/export",
        "javascript:alert(1)",
        "data:text/html,<script>x</script>",
        "vscode://file/etc/passwd",
        "https:",
        "no-scheme-at-all",
    ] {
        assert!(!is_launchable_uri(uri), "{uri}");
    }
}

#[test]
fn the_printed_page_carries_the_header() {
    let m = msg_for_print();
    let header = print_header_html(Some(&m));
    assert!(header.contains("Quarterly numbers"), "{header}");
    assert!(header.contains("Ada Lovelace &lt;ada@example.com&gt;"), "{header}");
    assert!(header.contains("me@example.com"), "{header}");
    assert!(header.contains("carol@example.com"), "{header}");
    assert!(header.contains("From:") && header.contains("To:") && header.contains("Date:"));
}

#[test]
fn the_printed_header_is_text_not_markup() {
    let mut m = msg_for_print();
    m.subject = "<script>alert(1)</script>".into();
    m.cc = String::new();
    let header = print_header_html(Some(&m));
    assert!(!header.contains("<script>"), "{header}");
    assert!(header.contains("&lt;script&gt;"), "{header}");
    assert!(!header.contains("Cc:"), "{header}");
    assert_eq!(print_header_html(None), "");
}

#[test]
fn printing_inlines_the_message_instead_of_framing_it() {
    let doc = print_document(
        "<div class=\"vireo-print-hdr\">HEADER</div>",
        &[(
            String::new(),
            "<!DOCTYPE html><html><head><style>p{color:red}</style></head>\
             <body class=\"x\"><p>Hello</p></body></html>"
                .to_string(),
        )],
        false,
    );
    assert!(!doc.contains("<iframe"), "{doc}");
    assert!(doc.contains("HEADER"));
    assert!(doc.contains("<p>Hello</p>"));
    assert!(doc.contains("p{color:red}"));
    assert!(doc.contains("overflow-wrap:anywhere"));
    assert!(doc.contains("img,table,pre{max-width:100% !important;}"));
    assert!(doc.contains("Content-Security-Policy"));
}

#[test]
fn inlining_keeps_everything_but_the_structure() {
    assert_eq!(
        inline_body("<!doctype html><html><head><meta charset=\"utf-8\"></head><body id=\"a\">hi</body></html>"),
        "<meta charset=\"utf-8\">hi"
    );
    assert_eq!(inline_body("<bodyguard>x</bodyguard>"), "<bodyguard>x</bodyguard>");
    assert_eq!(inline_body("<p>plain fragment</p>"), "<p>plain fragment</p>");
    assert_eq!(inline_body("text < 5 and > 2"), "text < 5 and > 2");
}

#[test]
fn one_message_cannot_restyle_the_whole_printout() {
    let out = scope_styles(
        "<style>body{font-family:monospace}\
         @media print{html,body>p{color:red}}\
         .bodyguard{margin:0}</style><p>hi</p>",
        ".vireo-print-m1",
    );
    assert!(out.contains(".vireo-print-m1{font-family:monospace}"), "{out}");
    assert!(
        out.contains("@media print{.vireo-print-m1,.vireo-print-m1>p{color:red}}"),
        "{out}"
    );
    assert!(out.contains(".bodyguard{margin:0}"), "{out}");
    assert!(out.contains("<p>hi</p>"));
    assert!(!scope_styles("<p>body{x}</p>", ".vireo-print-m0").contains("vireo-print-m0"));
    let doc = print_document(
        "",
        &[
            (String::new(), "<style>body{color:red}</style>one".into()),
            (String::new(), "two".into()),
        ],
        false,
    );
    assert!(doc.contains(".vireo-print-m0{color:red}"), "{doc}");
    assert!(doc.contains("vireo-print-msg vireo-print-m1"), "{doc}");
}

#[test]
fn a_printed_conversation_says_who_sent_what() {
    let mut a = msg_for_print();
    a.from_name = "Alfonso".into();
    a.from_addr = "a@example.com".into();
    let head = print_message_header_html(&a);
    assert!(head.contains("Alfonso &lt;a@example.com&gt;"), "{head}");
    assert!(head.contains(&attr_escape(&a.datetime_full())));
}

#[test]
fn print_filenames_survive_real_subjects() {
    assert_eq!(sanitize_filename("Quarterly numbers"), "Quarterly numbers");
    assert_eq!(sanitize_filename("Invoice 3/4 <urgent>"), "Invoice 3-4 -urgent-");
    assert_eq!(sanitize_filename("../../etc/passwd"), "etc-passwd");
    assert_eq!(sanitize_filename("   "), "Message");
    assert_eq!(sanitize_filename(""), "Message");
    assert_eq!(sanitize_filename("..."), "Message");
}

#[test]
fn print_filenames_are_bounded() {
    let long = "word ".repeat(100);
    assert!(sanitize_filename(&long).chars().count() <= 120);
}

/// Standard base64, as the desktop's decoder reads the payload.
#[test]
fn decodes_a_base64_data_uri() {
    // The library hands the decoder the MIME type and the base64 payload.
    let (mime, payload) = split_data_uri("data:image/jpeg;base64,/9j/4AAQ").expect("decodes");
    assert_eq!(mime, "image/jpeg");
    assert_eq!(payload, "/9j/4AAQ");
}

#[test]
fn rejects_uris_it_cannot_save_locally() {
    assert!(split_data_uri("https://example.com/a.png").is_none());
    assert!(split_data_uri("data:image/png,rawbytes").is_none());
    assert!(split_data_uri("not a uri").is_none());
}

#[test]
fn link_preview_shows_the_plain_url_when_nothing_is_amiss() {
    assert_eq!(
        link_destination("https://example.com/a", Some("Read more")),
        "https://example.com/a"
    );
    assert_eq!(
        link_destination("https://example.com/a", Some("example.com")),
        "https://example.com/a"
    );
    assert_eq!(
        link_destination("https://mail.example.com/a", Some("example.com")),
        "https://mail.example.com/a"
    );
}

#[test]
fn link_preview_calls_out_text_claiming_another_site() {
    let shown = link_destination("https://evil.example/login", Some("https://paypal.com"));
    assert!(shown.contains("paypal.com"), "{shown}");
    assert!(shown.contains("evil.example"), "{shown}");
    assert!(shown.contains('⚠'), "{shown}");
}

#[test]
fn ordinary_link_text_is_never_mistaken_for_a_host() {
    assert_eq!(host_of("Click here to sign in"), None);
    assert_eq!(host_of("mailto:someone@example.com"), None);
    assert_eq!(host_of("https://example.com/path"), Some("example.com".into()));
    assert_eq!(host_of("example.com/path"), Some("example.com".into()));
    assert_eq!(
        host_of("https://paypal.com@evil.example/"),
        Some("evil.example".into())
    );
}

#[test]
fn suggests_a_filename_from_the_mime_type() {
    assert_eq!(default_image_name("image/jpeg"), "image.jpg");
    assert_eq!(default_image_name("image/png"), "image.png");
    assert_eq!(default_image_name("image/svg+xml"), "image.svg");
}

#[test]
fn print_filenames_never_start_hidden_or_like_a_flag() {
    assert_eq!(sanitize_filename(". .hidden"), "hidden");
    assert_eq!(sanitize_filename(". - x"), "x");
    assert_eq!(sanitize_filename(" -- .notes "), "notes");
    assert_eq!(sanitize_filename(" . "), "Message");
}

#[test]
fn print_filenames_fit_in_255_bytes() {
    let wide = "\u{1F600}".repeat(200);
    let name = sanitize_filename(&wide);
    assert!(name.len() <= 255);
    assert_eq!(name.chars().count(), 63);
    let ascii = "a".repeat(300);
    assert_eq!(sanitize_filename(&ascii).len(), 120);
}

#[test]
fn the_policy_goes_into_the_head_not_a_header() {
    let out = inject_csp("<header>x</header>", false, false);
    assert!(out.starts_with("<!doctype html><html><head>"));
    assert!(out.ends_with("</head><body><header>x</header></body></html>"));
    let doc = inject_csp("<html><header>h</header><head ><title>t</title></head></html>", false, false);
    let meta_at = doc.find("Content-Security-Policy").unwrap();
    assert!(meta_at > doc.find("<head >").unwrap());
    assert!(doc.starts_with("<html><header>h</header><head ><meta"));
}

#[test]
fn remote_spans_are_byte_ranges() {
    let html = "<p>é</p><img src=\"http://x.test/a.png\">";
    let spans = remote_url_spans(html);
    assert_eq!(spans.len(), 1);
    let (s, e) = spans[0];
    assert_eq!(&html[s..e], "http://x.test/a.png");
    assert!(spans.windows(2).all(|w| w[0] < w[1]));
}

#[test]
fn the_banner_shows_exactly_when_stripping_rewrites() {
    for html in [
        "<img src=\"https://a.test/x.png\">",
        "<p>no remote here</p>",
        "<img src=\"data:image/png;base64,AAAA\">",
        "<div style=\"background:url(//b.test/y.png)\">",
    ] {
        assert_eq!(has_remote_resources(html), strip_remote(html) != html, "{html}");
    }
}

#[test]
fn a_date_off_the_calendar_is_blank() {
    let mut m = msg_for_print();
    m.timestamp = 8210266876799;
    assert!(!m.datetime_full().is_empty());
    m.timestamp = 8210266876800;
    assert_eq!(m.datetime_full(), "");
    m.timestamp = -8334601228800;
    assert!(!m.datetime_full().is_empty());
    m.timestamp = -8334601228801;
    assert_eq!(m.datetime_full(), "");
}

#[test]
fn the_epoch_reads_as_a_full_header_date_in_any_zone() {
    let mut m = msg_for_print();
    m.timestamp = 0;
    let d = m.datetime_full();
    assert!(
        d.starts_with("Thu, Jan 1, 1970 at ") || d.starts_with("Wed, Dec 31, 1969 at "),
        "{d}"
    );
    let clock: Vec<char> = d.rsplit(" at ").next().unwrap().chars().collect();
    assert_eq!(clock.len(), 5, "{d}");
    assert_eq!(clock[2], ':');
    assert!(clock.iter().enumerate().all(|(i, c)| i == 2 || c.is_ascii_digit()), "{d}");
}

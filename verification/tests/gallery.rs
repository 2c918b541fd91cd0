use vireo::gallery::{cell_meta, cell_tooltip};
use vireo::gallery::{
    column_header, count_text, ext_of, icon_color_class, item_haystack, sort_indices, type_bucket, type_keywords,
    SortBy,
};
use vireo::model::GalleryItem;

fn item(name: &str, from: &str, subject: &str, folder: &str, ts: i64, size: u64) -> GalleryItem {
    GalleryItem {
        account_id: 1,
        folder_path: folder.into(),
        uid: 1,
        name: name.into(),
        size,
        from_name: from.into(),
        subject: subject.into(),
        timestamp: ts,
        data: None,
    }
}

#[test]
fn haystack_matches_sender_subject_folder_and_type() {
    let it = item("Budget.XLSX", "Bob Jones", "Q3 numbers", "Archive", 1, 10);
    let hay = item_haystack(&it);
    for needle in ["budget", "xlsx", "bob", "jones", "q3", "numbers", "archive"] {
        assert!(hay.contains(needle), "haystack missing {needle}: {hay}");
    }
    assert!(hay.contains("spreadsheet"));
    assert!(hay.contains("excel"));
    assert!(!hay.contains("image"));
}

#[test]
fn type_keywords_cover_common_kinds() {
    assert!(type_keywords("a.pdf").contains("document"));
    assert!(type_keywords("a.png").contains("image"));
    assert!(type_keywords("a.mp3").contains("audio"));
    assert!(type_keywords("a.ics").contains("calendar"));
}

#[test]
fn type_buckets_match_the_footer_dropdown_rows() {
    assert_eq!(type_bucket("photo.JPG"), 1);
    assert_eq!(type_bucket("report.pdf"), 2);
    assert_eq!(type_bucket("notes.docx"), 3);
    assert_eq!(type_bucket("backup.tar"), 4);
    assert_eq!(type_bucket("song.flac"), 5);
    assert_eq!(type_bucket("unknown.xyz"), 6);
}

#[test]
fn sort_index_roundtrips_every_criterion() {
    for i in 0..10 {
        assert_eq!(SortBy::from_index(i).index(), i);
    }
}

#[test]
fn column_headers_carry_the_sort_arrow() {
    assert_eq!(column_header("Name", SortBy::Name, SortBy::Name, SortBy::NameDesc), "Name ↑");
    assert_eq!(
        column_header("Name", SortBy::NameDesc, SortBy::Name, SortBy::NameDesc),
        "Name ↓"
    );
    assert_eq!(column_header("Name", SortBy::Newest, SortBy::Name, SortBy::NameDesc), "Name");
}

#[test]
fn counts_read_naturally() {
    assert_eq!(count_text(1, 1), "1 attachment");
    assert_eq!(count_text(42, 42), "42 attachments");
    assert_eq!(count_text(12, 42), "12 of 42");
}

#[test]
fn sort_indices_orders_each_criterion() {
    let all = vec![
        item("c.txt", "Zed", "s", "INBOX", 300, 5),
        item("b.txt", "Amy", "s", "INBOX", 200, 90),
        item("a.txt", "Mel", "s", "INBOX", 100, 5),
    ];
    let mut idx = vec![0, 1, 2];

    sort_indices(&mut idx, &all, SortBy::Newest);
    assert_eq!(idx, vec![0, 1, 2]);
    sort_indices(&mut idx, &all, SortBy::Oldest);
    assert_eq!(idx, vec![2, 1, 0]);
    sort_indices(&mut idx, &all, SortBy::Name);
    assert_eq!(idx, vec![2, 1, 0]);
    sort_indices(&mut idx, &all, SortBy::NameDesc);
    assert_eq!(idx, vec![0, 1, 2]);
    sort_indices(&mut idx, &all, SortBy::Largest);
    assert_eq!(idx[0], 1);
    sort_indices(&mut idx, &all, SortBy::Smallest);
    assert_eq!(idx.last(), Some(&1));
    sort_indices(&mut idx, &all, SortBy::Sender);
    assert_eq!(idx, vec![1, 2, 0]);
    sort_indices(&mut idx, &all, SortBy::SenderDesc);
    assert_eq!(idx, vec![0, 2, 1]);
    sort_indices(&mut idx, &all, SortBy::Type);
    assert_eq!(idx, vec![2, 1, 0]);
    sort_indices(&mut idx, &all, SortBy::TypeDesc);
    assert_eq!(idx, vec![0, 1, 2]);
}

#[test]
fn icon_color_class_maps_types() {
    assert_eq!(icon_color_class("report.pdf"), "ftype-pdf");
    assert_eq!(icon_color_class("Notes.DOCX"), "ftype-doc");
    assert_eq!(icon_color_class("budget.xlsx"), "ftype-sheet");
    assert_eq!(icon_color_class("deck.pptx"), "ftype-slides");
    assert_eq!(icon_color_class("bundle.zip"), "ftype-archive");
    assert_eq!(icon_color_class("song.mp3"), "ftype-audio");
    assert_eq!(icon_color_class("clip.mov"), "ftype-video");
    assert_eq!(icon_color_class("invite.ics"), "ftype-calendar");
    assert_eq!(icon_color_class("photo.png"), "ftype-image");
    assert_eq!(icon_color_class("data.bin"), "ftype-generic");
    assert_eq!(icon_color_class("noext"), "ftype-generic");
}

#[test]
fn extension_is_empty_without_a_dot() {
    assert_eq!(ext_of("noext"), "");
    assert_eq!(ext_of("PDF"), "");
    assert_eq!(ext_of("Report.PDF"), "pdf");
    assert_eq!(ext_of("archive.tar.GZ"), "gz");
    assert_eq!(ext_of("trailing."), "");
    assert_eq!(type_bucket("PDF"), type_bucket("noext"));
    assert_eq!(type_bucket("a.pdf"), 2);
    assert_ne!(type_bucket("PDF"), 2);
}

#[test]
fn sorting_keeps_repeated_positions() {
    let all = vec![
        item("c.txt", "Zed", "s", "INBOX", 300, 5),
        item("b.txt", "Amy", "s", "INBOX", 200, 90),
    ];
    let mut idx = vec![1, 0, 1];
    sort_indices(&mut idx, &all, SortBy::Newest);
    assert_eq!(idx, vec![0, 1, 1]);
    sort_indices(&mut idx, &all, SortBy::Largest);
    assert_eq!(idx, vec![1, 1, 0]);
}

#[test]
fn a_cell_says_where_when_and_how_big() {
    let it = item("a.pdf", "Bob", "s", "INBOX", 1, 10);
    assert_eq!(cell_meta(&it, "Mar 5", "10 B"), "Inbox · Mar 5 · 10 B");
    assert_eq!(cell_meta(&it, "", "10 B"), "Inbox · 10 B");
    assert_eq!(cell_tooltip("a.pdf", "10 B"), "a.pdf — 10 B");
}

use vireo::accounts_state::{AccountEntry, AccountForm, AccountsInput, AccountsWindow, Alias, AliasForm, Connection};
use vireo::compose::{Field, Suggestion};
use vireo::compose_state::{Compose, ComposeInput};
use vireo::row_state::{MessageRow, MessageRowInput};
use vireo::list_state::Countdown;
use vireo::contacts::{Contact, ContactSort};
use vireo::contacts_state::{ContactsPageInput, ContactsPage};
use vireo::drawer_state::{AttachmentDrawer, AttachmentDrawerInput};
use vireo::list::{BulkAction, SearchScope, SortOrder};
use vireo::list_model::{MessageListInput, MessageList, Rebuild};
use vireo::list_state::Flag;
use vireo::gallery::SortBy;
use vireo::gallery_state::{AttachmentsGallery, GalleryInput};
use vireo::model::{GalleryItem, Message, RowAction};
use vireo::reader::SelectMode;
use vireo::reader_state::{MessageView, MessageViewInput};

fn item(name: &str, ts: i64, data: bool) -> GalleryItem {
    GalleryItem {
        account_id: 1,
        folder_path: "INBOX".into(),
        uid: ts as u32,
        name: name.into(),
        size: 10,
        from_name: "Ann".into(),
        subject: String::new(),
        timestamp: ts,
        data: if data { Some(vec![1, 2, 3]) } else { None },
    }
}

fn msg(id: u32, body: &str) -> Message {
    Message {
        id,
        account_id: 1,
        folder_id: 1,
        uid: id,
        from_name: "X".into(),
        from_addr: "x@example.com".into(),
        to: String::new(),
        cc: String::new(),
        subject: "S".into(),
        preview: String::new(),
        body: body.into(),
        date: String::new(),
        timestamp: id as i64,
        unread: true,
        starred: false,
        has_attachment: false,
        message_id: String::new(),
        references: String::new(),
    }
}

#[test]
fn the_gallery_filters_sorts_and_browses() {
    let mut g = AttachmentsGallery::new(SortBy::Newest, false, 1000);
    assert_eq!(g.thumb_width, 380);
    assert!(g.loading);
    let fx = g.handle(GalleryInput::SetItems(vec![
        item("a.png", 1, true),
        item("b.pdf", 3, false),
        item("c.png", 2, true),
    ]));
    assert!(fx.rebuild && fx.drop_picture);
    assert!(!g.loading);
    assert_eq!(g.items, vec![1, 2, 0], "newest first");

    let fx = g.handle(GalleryInput::SetTypeFilter(1));
    assert!(fx.rebuild);
    assert_eq!(g.items, vec![2, 0], "images only");

    let fx = g.handle(GalleryInput::Activate(1));
    assert!(fx.refresh_preview);
    assert_eq!(g.preview, Some(1));
    g.handle(GalleryInput::Next);
    assert_eq!(g.preview, Some(0), "wraps around");
    g.handle(GalleryInput::Prev);
    assert_eq!(g.preview, Some(1));
    let fx = g.handle(GalleryInput::OpenCurrent);
    assert_eq!(fx.open, Some(0));
    let fx = g.handle(GalleryInput::GoToCurrent);
    assert_eq!(fx.go_to, Some(0));
    assert_eq!(g.preview, None);

    let fx = g.handle(GalleryInput::SortColumn(0));
    assert_eq!(g.sort, SortBy::Name);
    assert_eq!(fx.save_sort, Some(SortBy::Name.index()));
    assert_eq!(fx.sort_row, Some(SortBy::Name.index()));
    assert_eq!(g.items, vec![0, 2]);
    g.handle(GalleryInput::SortColumn(0));
    assert_eq!(g.sort, SortBy::NameDesc, "a second click flips it");
    assert_eq!(g.items, vec![2, 0]);

    let fx = g.handle(GalleryInput::SetTypeFilter(0));
    assert!(fx.rebuild);
    let fx = g.handle(GalleryInput::DownloadItem(1));
    assert_eq!(fx.download, None, "no bytes cached for b.pdf");
    let fx = g.handle(GalleryInput::SetQuery("zzz".into()));
    assert!(fx.rebuild);
    assert!(g.items.is_empty());
    let fx = g.handle(GalleryInput::Next);
    assert!(!fx.refresh_preview);

    let fx = g.handle(GalleryInput::SetThumbWidth(200));
    assert!(fx.resize_timer);
    assert_eq!(g.thumb_width, 200);
    let fx = g.handle(GalleryInput::SetThumbWidth(200));
    assert!(!fx.resize_timer);
    let fx = g.handle(GalleryInput::ApplyThumbWidth);
    assert!(fx.rebuild);
    assert_eq!(fx.save_thumb_width, Some(200));
    let fx = g.handle(GalleryInput::SetViewTable(true));
    assert_eq!(fx.save_table_view, Some(true));
    let fx = g.handle(GalleryInput::ApplyThumbWidth);
    assert!(!fx.rebuild, "the table has no thumbnails");
}

#[test]
fn the_reader_follows_its_inputs() {
    let mut r = MessageView::new(true, false, None);
    let fx = r.handle(MessageViewInput::Show {
        thread: vec![msg(1, "<p>a</p>"), msg(2, "<img src=\"https://t.example/p.gif\">")],
        allow_remote: false,
        gravatar: false,
        account_name: None,
        loading: false,
        primary: None,
        instant: false,
        folder_labels: Vec::new(),
    });
    assert!(fx.render && fx.clear_sender_check && fx.repaint_ground);
    assert!(r.blocked);
    assert_eq!(r.current.as_ref().map(|m| m.id), Some(1));

    let fx = r.handle(MessageViewInput::CardClicked { account_id: 1, id: 2, mode: SelectMode::Plain });
    assert!(fx.apply_selection && fx.report_selection);
    assert_eq!(r.selected_cards, vec![(1, 2)]);
    let fx = r.handle(MessageViewInput::SetSelectedCards(vec![(1, 2)]));
    assert!(!fx.apply_selection, "already outlined");

    let fx = r.handle(MessageViewInput::MarkSeen { account_id: 1, id: 2 });
    assert_eq!(fx.mark_seen, Some((1, 2)));
    assert!(!r.thread[1].unread);
    let fx = r.handle(MessageViewInput::SuppressAutoRead { account_id: 1, id: 2 });
    assert!(fx.render);
    assert!(r.thread[1].unread);
    assert_eq!(r.no_autoread, vec![(1, 2)]);

    let fx = r.handle(MessageViewInput::CardAction { action: RowAction::Reply, account_id: 1, id: 2 });
    assert_eq!(fx.card_action, Some((RowAction::Reply, 1)));
    let fx = r.handle(MessageViewInput::OpenHeader { account_id: 1, id: 9 });
    assert_eq!(fx.open_window, None);

    r.handle(MessageViewInput::FrameSized { account_id: 1, id: 2, height: 420 });
    assert_eq!(r.frame_heights, vec![((1, 2), 420)]);

    let fx = r.handle(MessageViewInput::AllowSenderAlways);
    assert!(fx.allow_sender && fx.render);
    assert!(r.remote_allowed && !r.blocked);

    let fx = r.handle(MessageViewInput::Show {
        thread: vec![msg(1, "x")],
        allow_remote: false,
        gravatar: false,
        account_name: None,
        loading: true,
        primary: None,
        instant: false,
        folder_labels: Vec::new(),
    });
    assert!(!fx.clear_sender_check, "the same message");
    assert!(!fx.render, "still loading");
    assert_eq!(r.no_autoread, vec![(1, 2)], "kept for the same message");

    let fx = r.handle(MessageViewInput::SetContentTheme(Some(true)));
    assert!(fx.repaint_ground && !fx.render);
    let fx = r.handle(MessageViewInput::SetContentTheme(Some(true)));
    assert!(!fx.repaint_ground);
}

#[test]
fn the_list_model_follows_its_inputs() {

    let mut l = MessageList::new(SortOrder::DateNewest, true, false, 9);
    assert_eq!(l.preview_lines, 3);
    let fx = l.handle(MessageListInput::SetMessages(vec![msg(1, ""), msg(2, "")]));
    assert_eq!(fx.rebuild, Rebuild::KeepingScroll);
    let fx = l.handle(MessageListInput::AppendMessages(vec![msg(2, ""), msg(3, "")]));
    assert_eq!(l.all.len(), 3);
    assert_eq!(fx.rebuild, Rebuild::KeepingScroll, "waiting at the bottom for more rows");
    l.set_rendered(vec![msg(1, ""), msg(2, ""), msg(3, "")], 3, 3);
    assert_eq!(l.rendered_count, 3);
    let fx = l.handle(MessageListInput::AppendMessages(vec![msg(4, "")]));
    assert_eq!(fx.rebuild, Rebuild::KeepingScroll);
    l.render_limit = 3;
    let fx = l.handle(MessageListInput::AppendMessages(vec![msg(5, "")]));
    assert_eq!(fx.rebuild, Rebuild::No, "newest first and nothing awaited: no rebuild");

    let fx = l.handle(MessageListInput::Search("  hello ".into()));
    assert_eq!(fx.search_active, Some(true));
    assert_eq!(fx.rebuild, Rebuild::Full);
    let fx = l.handle(MessageListInput::Search("hello again".into()));
    assert_eq!(fx.search_active, None);
    let fx = l.handle(MessageListInput::SetScope(SearchScope::AllFolders));
    assert_eq!(fx.rebuild, Rebuild::Full);
    let fx = l.handle(MessageListInput::SetSearchPool(vec![msg(9, "")]));
    assert_eq!(fx.rebuild, Rebuild::KeepingScroll);
    let fx = l.handle(MessageListInput::ResetPaging);
    assert!(fx.scroll_top && fx.clear_entry);
    assert!(l.query.is_empty());

    let fx = l.handle(MessageListInput::SetPreviewLines(7));
    assert_eq!(fx.rebuild, Rebuild::No, "already at the maximum");
    let fx = l.handle(MessageListInput::SetThreading(false));
    assert_eq!(fx.rebuild, Rebuild::Full);
    let fx = l.handle(MessageListInput::SetThreadLinks(vec![(1, "a".into(), String::new())]));
    assert_eq!(fx.rebuild, Rebuild::No, "threading is off");
    let fx = l.handle(MessageListInput::DayChanged);
    assert!(fx.midnight_timer);

    let fx = l.handle(MessageListInput::SelectionChanged(vec![(1, 2)]));
    assert!(fx.report_selection);
    assert_eq!(fx.open, Some((1, 2)));
    assert_eq!(l.selected_id, Some((1, 2)));
    let fx = l.handle(MessageListInput::SetFlag { id: 2, flag: Flag::Read, on: true });
    assert_eq!(fx.row_flag, Some(1));
    assert_eq!(fx.thread_unread_of, Some(2));
    assert!(!l.shown[1].unread);
    let fx = l.handle(MessageListInput::Remove(vec![2]));
    assert_eq!(fx.select_row, Some(1));
    assert_eq!(l.selected_id, None);

    let key = (1u32, "root@x".to_string());
    let fx = l.handle(MessageListInput::ToggleThread(key.clone()));
    assert_eq!(fx.expand, Some(key.clone()));
    let fx = l.handle(MessageListInput::ToggleThread(key.clone()));
    assert_eq!(fx.start_collapse, Some(key.clone()));
    let fx = l.handle(MessageListInput::FinishCollapseThread(key.clone()));
    assert_eq!(fx.collapse, Some(key));
    assert!(l.toggled.is_empty());

    let fx = l.handle(MessageListInput::SelectAndLoad((1, 3)));
    assert_eq!(fx.open, Some((1, 3)));
    assert_eq!(l.selected_ids, vec![(1, 3)]);
    let fx = l.handle(MessageListInput::ClearSelection);
    assert!(fx.unselect_all);
    let fx = l.handle(MessageListInput::SetSort(SortOrder::Sender));
    assert_eq!(fx.rebuild, Rebuild::Full);
    let fx = l.handle(MessageListInput::SetLoading);
    assert!(l.all.is_empty());
    assert_eq!(fx.rebuild, Rebuild::Full);
}

#[test]
fn the_drawer_follows_its_inputs() {
    let mut d = AttachmentDrawer::new(false, false, false, 200, 10);
    assert_eq!(d.thumb, 56);
    let fx = d.handle(AttachmentDrawerInput::SetItems {
        names: vec!["b.txt".into(), "A.png".into(), "c.pdf".into()],
        previewable: vec![false, true, true],
    });
    assert!(fx.rebuild && fx.initial_position);
    assert_eq!(d.order, vec![0, 1, 2]);
    let fx = d.handle(AttachmentDrawerInput::DoubleClick(0));
    assert_eq!(fx.open, Some(0), "a text file opens outside");
    let fx = d.handle(AttachmentDrawerInput::DoubleClick(1));
    assert_eq!(fx.lightbox, Some(1));
    let fx = d.handle(AttachmentDrawerInput::ToggleListView);
    assert_eq!(fx.save_list_view, Some(true));
    assert_eq!(d.order, vec![1, 0, 2]);
    let fx = d.handle(AttachmentDrawerInput::ToggleSortOrder);
    assert_eq!(fx.save_sort_desc, Some(true));
    assert_eq!(d.order, vec![2, 0, 1]);
    assert_eq!(d.handle(AttachmentDrawerInput::Open(0)).open, Some(2));
    assert_eq!(d.handle(AttachmentDrawerInput::Download(5)).download, None);
    assert_eq!(d.handle(AttachmentDrawerInput::Preview(0)).lightbox, None, "not previewable");

    d.handle(AttachmentDrawerInput::PositionChanged { adjusting: false, total: 800, position: 500 });
    assert_eq!(d.height, 200, "not positioned yet");
    d.handle(AttachmentDrawerInput::Positioned);
    d.handle(AttachmentDrawerInput::PositionChanged { adjusting: false, total: 800, position: 500 });
    assert_eq!(d.height, 300);
    d.handle(AttachmentDrawerInput::PositionChanged { adjusting: false, total: 800, position: 750 });
    assert_eq!(d.height, 300, "below the minimum height");
    let fx = d.handle(AttachmentDrawerInput::ToggleCollapsed);
    assert!(fx.apply_position);
    assert_eq!(fx.save_collapsed, Some(true));
    let fx = d.handle(AttachmentDrawerInput::SetThumbSize(500));
    assert!(fx.rebuild);
    assert_eq!(d.thumb, 220);
    let fx = d.handle(AttachmentDrawerInput::SetItems { names: vec!["x".into()], previewable: vec![false] });
    assert!(!fx.initial_position, "already visible");
}

fn person(name: &str, primary: Option<&str>) -> Contact {
    Contact {
        name: name.into(),
        nickname: String::new(),
        title: String::new(),
        org: String::new(),
        emails: primary.iter().map(|s| s.to_string()).collect(),
        phones: Vec::new(),
        primary: primary.map(|s| s.to_string()),
    }
}

#[test]
fn the_contacts_page_keeps_its_person() {
    let mut c = ContactsPage::new(ContactSort::FirstName);
    let fx = c.handle(ContactsPageInput::SetLoading);
    assert_eq!(fx.empty_page, Some(true));
    let fx = c.handle(ContactsPageInput::SetContacts(vec![
        person("Zoe Adams", Some("zoe@x.org")),
        person("Adam Young", Some("adam@x.org")),
    ]));
    assert!(fx.rebuilt && fx.render_detail);
    assert_eq!(fx.empty_page, Some(false));
    assert_eq!(c.rows, vec![1, 0]);
    assert_eq!(fx.select_row, Some(0), "the first row when nothing was selected");
    assert_eq!(c.selected, Some(1));
    let fx = c.handle(ContactsPageInput::RowSelected(1));
    assert!(fx.render_detail);
    assert_eq!(c.selected, Some(0));
    let fx = c.handle(ContactsPageInput::RowSelected(1));
    assert!(!fx.render_detail, "already shown");

    let fx = c.handle(ContactsPageInput::SetContacts(vec![
        person("Bea Miller", None),
        person("Zoe Adams", Some("zoe@x.org")),
        person("Adam Young", Some("adam@x.org")),
    ]));
    assert_eq!(c.rows, vec![2, 0, 1]);
    assert_eq!(c.selected, Some(1), "the same person, found again");
    assert_eq!(fx.select_row, Some(2));

    let fx = c.handle(ContactsPageInput::Query("ZOE".into()));
    assert_eq!(c.query, "zoe");
    assert_eq!(c.rows, vec![1]);
    assert_eq!(fx.select_row, Some(0));
    let fx = c.handle(ContactsPageInput::SetSort(ContactSort::LastName));
    assert!(fx.rebuilt);
    let fx = c.handle(ContactsPageInput::SetSort(ContactSort::LastName));
    assert!(!fx.rebuilt);
}

#[test]
fn a_row_tracks_its_palette_and_flags() {
    let mut r = MessageRow {
        msg: msg(7, ""),
        show_recipient: false,
        avatars: false,
        ring_class: Some("vireo-acct-ring-1".into()),
        row_hovered: false,
        palette_open: false,
        palette_hover: true,
        thread_count: 2,
        is_thread_child: false,
        thread_expanded: false,
        thread_key: Some((1, "root@x".into())),
        thread_unread: false,
        revealed: true,
    };
    let fx = r.update(MessageRowInput::SetRowHover(true));
    assert_eq!(fx.countdown, Countdown::Cancel);
    assert!(r.palette_open, "hovering opens the palette");
    assert_eq!(r.chevron_classes(), vec!["flat", "palette-toggle", "revealed"]);
    let fx = r.update(MessageRowInput::SetRowHover(false));
    assert_eq!(fx.countdown, Countdown::Restart);
    let fx = r.update(MessageRowInput::CollapsePalette);
    assert_eq!(fx.countdown, Countdown::Forget);
    assert!(!r.palette_open);
    assert!(r.update(MessageRowInput::ToggleThreadClicked).toggle_thread);
    assert_eq!(r.update(MessageRowInput::Action(RowAction::Archive)).action, Some(RowAction::Archive));
    assert!(r.display_unread());
    r.update(MessageRowInput::SetRead(true));
    assert!(!r.display_unread());
    assert_eq!(r.sender_classes(), vec!["message-sender"]);
    r.update(MessageRowInput::SetThreadUnread(true));
    assert_eq!(r.subject_classes(), vec!["message-subject", "unread"]);
    assert_eq!(r.content_css(), vec!["message-row", "no-avatar"]);
    assert_eq!(r.ring_classes(), vec!["vireo-acct-ring-1".to_string()]);
    assert_eq!(r.name_line(), "X");
}

#[test]
fn the_compose_window_completes_and_sends() {
    let sug = |name: &str, email: &str, score: u32| Suggestion { name: name.into(), email: email.into(), score };
    let offered = || vec![sug("Zed Bobson", "zed@x.org", 50), sug("Bob", "bob@x.org", 1), sug("Bobby", "bobby@x.org", 9)];
    let mut c = Compose::new(true, false);
    let fx = c.update(ComposeInput::SetWindowed(true));
    assert_eq!(fx.fields_visible, Some(true));
    let fx = c.update(ComposeInput::SetWindowed(false));
    assert_eq!(fx.fields_visible, Some(false), "a compact reply inline hides its rows");

    let fx = c.update(ComposeInput::Suggest { field: Field::To, text: "ann@x.org, bo".into(), suggestions: offered() });
    assert!(fx.show_completion);
    assert_eq!(fx.select_row, Some(0));
    assert_eq!(c.completion_rows, vec![2, 1, 0]);
    assert!(c.completion_open);
    let fx = c.update(ComposeInput::CompletionMove(1));
    assert_eq!(fx.select_row, Some(1));
    let fx = c.update(ComposeInput::CompletionMove(5));
    assert_eq!(fx.select_row, Some(2), "clamped to the last suggestion");
    let fx = c.update(ComposeInput::CompletionAccept { text: "ann@x.org, bo".into(), suggestions: offered() });
    assert_eq!(fx.accept, Some(0));
    assert!(fx.hide_completion);
    assert!(!c.completion_open);

    let fx = c.update(ComposeInput::Suggest { field: Field::Cc, text: "ann@x.org, ".into(), suggestions: offered() });
    assert!(fx.hide_completion, "nothing typed yet");

    let fx = c.update(ComposeInput::SaveDraftIfDirty);
    assert!(fx.check_body && !fx.save_draft);
    c.update(ComposeInput::MarkFieldsDirty);
    assert!(c.update(ComposeInput::SaveDraftIfDirty).save_draft);

    let fx = c.update(ComposeInput::AddAttachments(vec!["/tmp/a.pdf".into(), "/tmp/b.png".into()]));
    assert!(fx.rebuild_attachments);
    let fx = c.update(ComposeInput::RemoveAttachment(0));
    assert!(fx.rebuild_attachments);
    assert_eq!(c.attachments, vec!["/tmp/b.png".to_string()]);
    assert!(!c.update(ComposeInput::RemoveAttachment(7)).rebuild_attachments);

    assert!(c.update(ComposeInput::Send { to: "   ".into() }).to_error);
    assert!(c.update(ComposeInput::Send { to: "ann@x.org".into() }).send);
    assert!(c.update(ComposeInput::Cancel).close);
}

#[test]
fn the_account_settings_follow_their_inputs() {
    let mut w = window(vec![account("a@x.org", true, false), account("b@x.org", true, true), account("c@x.org", false, false)]);
    let fx = w.update(AccountsInput::MoveRow { from: 0, to: 9 });
    assert!(fx.reordered);
    let order: Vec<String> = w.accounts.iter().map(|a| a.email.clone()).collect();
    assert_eq!(order, vec!["b@x.org", "c@x.org", "a@x.org"]);
    let fx = w.update(AccountsInput::ToggleEnabled { index: 0, enabled: false });
    assert_eq!(fx.unimport, Some(0), "switching off an imported account un-imports it");
    let fx = w.update(AccountsInput::ToggleEnabled { index: 1, enabled: true });
    assert_eq!(fx.enabled_changed, Some(1));
    assert!(w.accounts[1].enabled);
    let fx = w.update(AccountsInput::ToggleEnabled { index: 1, enabled: true });
    assert_eq!(fx.enabled_changed, None);

    assert!(w.update(AccountsInput::AddSenderText(" News@Example.COM ".into())).sender_added);
    assert!(!w.update(AccountsInput::AddSenderText("news@example.com".into())).sender_added);
    assert_eq!(w.sender_addrs, vec!["news@example.com".to_string()]);
    assert_eq!(w.update(AccountsInput::RemoveSenderRow("news@example.com".into())).sender_removed, Some(0));
    assert!(w.sender_addrs.is_empty());
    assert!(w.update(AccountsInput::AddBlacklistText("spam.example".into())).blacklist_added);
    assert_eq!(w.update(AccountsInput::RemoveBlacklistRow("other".into())).blacklist_removed, None);

    let fx = w.update(AccountsInput::EmailChanged { email: " ann@x.org ".into(), label: String::new() });
    assert!(fx.mirror_label);
    assert_eq!(w.label_synced, "ann@x.org");
    let fx = w.update(AccountsInput::EmailChanged { email: "ann@y.org".into(), label: "ann@x.org".into() });
    assert!(fx.mirror_label, "the label still follows the address");
    let fx = w.update(AccountsInput::EmailChanged { email: "ann@z.org".into(), label: "Work".into() });
    assert!(!fx.mirror_label, "a label of the user's own stays");
}

fn connection(host: &str, user: &str, password: &str) -> Connection {
    Connection {
        oauth: false,
        client_id: String::new(),
        imap_host: host.into(),
        imap_port: 993,
        smtp_host: format!("smtp.{host}"),
        smtp_port: 587,
        username: user.into(),
        password: password.into(),
        smtp_separate: false,
        smtp_username: String::new(),
        smtp_password: String::new(),
    }
}

fn account(email: &str, enabled: bool, goa: bool) -> AccountEntry {
    AccountEntry {
        email: email.into(),
        enabled,
        goa,
        name: String::new(),
        connection: connection("imap.x.org", email, "pw"),
        oauth_refresh: String::new(),
        aliases: vec![alias(&format!("alias-{email}"))],
        emoji: None,
        signature: None,
    }
}

fn window(accounts: Vec<AccountEntry>) -> AccountsWindow {
    AccountsWindow {
        accounts,
        sender_addrs: Vec::new(),
        blacklist_addrs: Vec::new(),
        label_synced: String::new(),
        editing: None,
        alias_edits: Vec::new(),
        alias_editing: None,
        alias_dialog: false,
        emoji: None,
        pending_refresh: None,
        editor_open: false,
    }
}

fn alias(identity: &str) -> Alias {
    Alias {
        identity: identity.into(),
        smtp_host: String::new(),
        smtp_port: 587,
        smtp_username: String::new(),
        smtp_password: String::new(),
    }
}

fn alias_form(name: &str, address: &str, account_email: &str) -> AliasForm {
    AliasForm {
        name: name.into(),
        address: address.into(),
        own_smtp: false,
        host: "smtp.x.org".into(),
        port: "465".into(),
        user: "u".into(),
        password: "p".into(),
        account_email: account_email.into(),
    }
}

fn form(email: &str, c: Connection) -> AccountForm {
    AccountForm { name: "Ann".into(), email: email.into(), connection: c }
}

#[test]
fn the_account_editor_adds_and_edits() {
    let mut w = window(vec![account("a@x.org", false, false)]);
    let fx = w.update(AccountsInput::AddAccount);
    assert!(fx.show_editor && w.editor_open && w.editing.is_none());
    let fx = w.update(AccountsInput::SaveWithSig {
        sig_html: "<p>  </p>".into(),
        form: form("new@x.org", connection("imap.new.org", "", "pw")),
    });
    assert!(fx.save_refused, "a user name is needed");
    assert_eq!(w.accounts.len(), 1);
    let fx = w.update(AccountsInput::SaveWithSig {
        sig_html: "<p>Ann</p>".into(),
        form: form("new@x.org", connection("imap.new.org", "ann", "pw")),
    });
    assert_eq!(fx.saved, Some(1));
    assert_eq!(fx.saved_original, None);
    assert!(fx.pop_editor && !w.editor_open);
    assert!(w.accounts[1].enabled, "a new account starts switched on");
    assert_eq!(w.accounts[1].signature.as_deref(), Some("<p>Ann</p>"));

    let fx = w.update(AccountsInput::EditAccount(0));
    assert!(fx.show_editor);
    assert_eq!(w.label_synced, "a@x.org");
    assert_eq!(w.alias_edits.len(), 1);
    assert_eq!(w.alias_edits[0].identity, "alias-a@x.org");
    assert!(w.update(AccountsInput::AliasRemove(0)).aliases_changed);
    assert!(!w.update(AccountsInput::AliasRemove(5)).aliases_changed);
    let fx = w.update(AccountsInput::SaveWithSig {
        sig_html: "<br>".into(),
        form: form("a2@x.org", connection("imap.x.org", "a", "pw")),
    });
    assert_eq!(fx.saved, Some(0));
    assert_eq!(fx.saved_original.as_deref(), Some("a@x.org"));
    assert!(!w.accounts[0].enabled, "editing keeps the switch");
    assert_eq!(w.accounts[0].email, "a2@x.org");
    assert!(w.accounts[0].aliases.is_empty());
    assert_eq!(w.accounts[0].signature, None);
}

#[test]
fn an_imported_account_keeps_what_gnome_owns() {
    let mut w = window(vec![account("g@x.org", true, true)]);
    w.update(AccountsInput::EditAccount(0));
    let fx = w.update(AccountsInput::SaveWithSig {
        sig_html: String::new(),
        form: form("changed@x.org", connection("", "", "")),
    });
    assert_eq!(fx.saved, Some(0));
    let a = &w.accounts[0];
    assert!(a.goa);
    assert_eq!(a.email, "g@x.org");
    assert_eq!(a.connection.imap_host, "imap.x.org");
    assert_eq!(a.connection.password, "pw");
    assert_eq!(a.name, "Ann");
}

#[test]
fn oauth_needs_a_client_and_a_sign_in() {
    let mut w = window(Vec::new());
    w.update(AccountsInput::AddAccount);
    let mut c = connection("imap.o.org", "  ", "");
    c.oauth = true;
    c.client_id = "client".into();
    let fx = w.update(AccountsInput::SaveWithSig { sig_html: String::new(), form: form("o@x.org", c) });
    assert!(fx.save_refused && fx.oauth_missing);
    assert!(w.update(AccountsInput::SignedIn("token".into())).signed_in);
    let mut c = connection("imap.o.org", "  ", "");
    c.oauth = true;
    c.client_id = "client".into();
    let fx = w.update(AccountsInput::SaveWithSig { sig_html: String::new(), form: form("o@x.org", c) });
    assert_eq!(fx.saved, Some(0));
    assert_eq!(w.accounts[0].connection.username, "o@x.org", "the address stands in for a blank user name");
    assert_eq!(w.accounts[0].oauth_refresh, "token");
    assert_eq!(w.pending_refresh, None);
}

#[test]
fn removing_and_reopening_accounts() {
    let mut w = window(vec![account("a@x.org", true, false), account("b@x.org", true, false)]);
    assert_eq!(w.update(AccountsInput::RemoveCurrent).confirm_remove, None);
    let fx = w.update(AccountsInput::EditAccountByEmail("b@x.org".into()));
    assert!(fx.show_editor && !fx.pop_editor);
    assert_eq!(w.editing, Some(1));
    let fx = w.update(AccountsInput::EditAccountByEmail("b@x.org".into()));
    assert!(!fx.show_editor, "that editor is up already");
    let fx = w.update(AccountsInput::EditAccountByEmail("a@x.org".into()));
    assert!(fx.show_editor && fx.pop_editor, "another account's editor is left first");
    assert!(!w.update(AccountsInput::EditAccountByEmail("zz@x.org".into())).show_editor);
    assert_eq!(w.update(AccountsInput::RemoveCurrent).confirm_remove, Some(0));
    let fx = w.update(AccountsInput::ConfirmRemove);
    assert_eq!(fx.removed.as_deref(), Some("a@x.org"));
    assert!(fx.pop_editor);
    assert_eq!(w.accounts.len(), 1);
    assert_eq!(w.accounts[0].email, "b@x.org");
}

#[test]
fn the_list_mirrors_the_reader_and_moves_the_selection() {
    let mut l = MessageList::new(SortOrder::DateNewest, true, false, 2);
    l.set_rendered(vec![msg(1, ""), msg(2, ""), msg(3, "")], 3, 3);
    let conv = (1u32, "root@x".to_string());
    l.set_thread_members(vec![((1, 3), conv.clone()), ((1, 7), conv.clone())]);

    // A reply with no row opens its conversation first.
    let fx = l.handle(MessageListInput::SelectFromReader(vec![(1, 2), (1, 7)]));
    assert_eq!(fx.rebuild, Rebuild::KeepingScroll);
    assert!(fx.mirror_reader);
    assert_eq!(l.toggled, vec![conv.clone()]);
    let rows = l.mirror_reader();
    assert_eq!(rows, vec![1]);
    assert_eq!(l.reader_keys, vec![(1, 2)]);
    assert_eq!(l.from_reader, 8);
    let fx = l.handle(MessageListInput::SelectionChanged(vec![(1, 2)]));
    assert!(!fx.report_selection, "the reader's own selection is not reported back");

    // Nothing to open: no rebuild; an empty request keeps the viewed message.
    let fx = l.handle(MessageListInput::SelectFromReader(vec![(1, 1)]));
    assert_eq!(fx.rebuild, Rebuild::No);
    assert_eq!(l.toggled, vec![conv.clone()], "an open conversation stays open");

    // Bulk actions take the selected rows, then clear the selection.
    l.handle(MessageListInput::SelectionChanged(vec![(1, 3), (1, 1)]));
    let fx = l.handle(MessageListInput::Bulk(BulkAction::Archive));
    assert_eq!(fx.bulk, Some((BulkAction::Archive, vec![0, 2])));
    assert!(fx.unselect_all && l.selected_ids.is_empty() && l.selected_id.is_none());
    let fx = l.handle(MessageListInput::Bulk(BulkAction::Delete));
    assert_eq!(fx.bulk, None);

    // Moving the selection clamps at the ends and starts from an end.
    assert_eq!(l.handle(MessageListInput::MoveSelection { delta: 1, current: None }).select_row, Some(0));
    assert_eq!(l.handle(MessageListInput::MoveSelection { delta: -1, current: None }).select_row, Some(2));
    assert_eq!(l.handle(MessageListInput::MoveSelection { delta: 5, current: Some(1) }).select_row, Some(2));
    assert_eq!(l.handle(MessageListInput::MoveSelection { delta: -1, current: Some(0) }).select_row, Some(0));
}

#[test]
fn a_rebuild_counts_messages_not_rows() {
    let mut l = MessageList::new(SortOrder::DateNewest, true, false, 2);
    let mut a = msg(1, "");
    a.message_id = "root@x".into();
    let mut b = msg(2, "");
    b.message_id = "reply@x".into();
    b.references = "root@x".into();
    let c = msg(3, "");
    l.handle(MessageListInput::SetMessages(vec![a, b, c]));
    let plan = l.rebuild();
    assert_eq!(plan.rows.len(), 2, "the conversation shows its head only");
    assert_eq!(l.shown.len(), 2);
    assert_eq!(l.rendered_count, 3, "the page held three messages");
    assert_eq!(l.total_matches, 3);
    assert_eq!(l.msg_thread.len(), 2, "both messages of the conversation are recorded");
    l.handle(MessageListInput::SetIndexComplete(true));
    let fx = l.handle(MessageListInput::LoadMore);
    assert_eq!(fx.rebuild, Rebuild::No, "every message is rendered and none is left to index");
}

#[test]
fn the_alias_dialog_validates_and_stores() {
    let mut w = window(vec![account("a@x.org", true, false)]);
    w.update(AccountsInput::EditAccount(0));
    // Nothing happens without the dialog.
    let fx = w.update(AccountsInput::AliasDialogSave(alias_form("", "b@x.org", "a@x.org")));
    assert!(!fx.aliases_changed);
    assert!(w.update(AccountsInput::AliasAdd).alias_dialog);
    let fx = w.update(AccountsInput::AliasDialogSave(alias_form("", "A@X.org", "a@x.org")));
    assert!(fx.alias_errors.unwrap().address, "the account's own address, whatever the case");
    let fx = w.update(AccountsInput::AliasDialogSave(alias_form("", "no-at-sign", "a@x.org")));
    assert!(fx.alias_errors.unwrap().address);
    let mut own = alias_form("Bea", "b@x.org", "a@x.org");
    own.own_smtp = true;
    own.password = String::new();
    let fx = w.update(AccountsInput::AliasDialogSave(own));
    let errs = fx.alias_errors.unwrap();
    assert!(errs.password && !errs.host && !errs.user && !errs.address);
    let mut own = alias_form("Bea", "b@x.org", "a@x.org");
    own.own_smtp = true;
    let fx = w.update(AccountsInput::AliasDialogSave(own));
    assert!(fx.aliases_changed && fx.close_alias_dialog);
    assert_eq!(w.alias_edits.len(), 2);
    assert_eq!(w.alias_edits[1].identity, "Bea <b@x.org>");
    assert_eq!(w.alias_edits[1].smtp_host, "smtp.x.org");
    assert_eq!(w.alias_edits[1].smtp_port, 465);
    assert!(!w.alias_dialog);

    // Editing an alias may keep its own address; another alias's is refused.
    assert!(w.update(AccountsInput::AliasEdit(1)).alias_dialog);
    let fx = w.update(AccountsInput::AliasDialogSave(alias_form("", "alias-a@x.org", "a@x.org")));
    assert!(fx.alias_errors.unwrap().address);
    let mut plain = alias_form("", "b@x.org", "a@x.org");
    plain.port = "bad".into();
    let fx = w.update(AccountsInput::AliasDialogSave(plain));
    assert!(fx.aliases_changed);
    assert_eq!(w.alias_edits.len(), 2);
    assert_eq!(w.alias_edits[1].identity, "b@x.org");
    assert_eq!(w.alias_edits[1].smtp_host, "", "no server of its own");
    assert_eq!(w.alias_edits[1].smtp_port, 587);

    w.update(AccountsInput::AliasEdit(0));
    w.update(AccountsInput::AliasDialogClosed { replaced: true });
    assert!(w.alias_dialog && w.alias_editing == Some(0));
    w.update(AccountsInput::AliasDialogClosed { replaced: false });
    assert!(!w.alias_dialog && w.alias_editing.is_none());

    assert!(w.update(AccountsInput::SetEmoji("🦜".into())).emoji_changed);
    let fx = w.update(AccountsInput::SaveWithSig { sig_html: String::new(), form: form("a@x.org", connection("imap.x.org", "a", "pw")) });
    assert_eq!(fx.saved, Some(0));
    assert_eq!(w.accounts[0].emoji.as_deref(), Some("🦜"));
    assert_eq!(w.accounts[0].aliases.len(), 2);
}

#[test]
fn the_editor_switch_un_imports_an_imported_account() {
    let mut w = window(vec![account("a@x.org", true, false), account("g@x.org", true, true)]);
    w.update(AccountsInput::EditAccount(0));
    assert_eq!(w.update(AccountsInput::ToggleCurrentEnabled(false)).enabled_changed, Some(0));
    assert!(!w.accounts[0].enabled);
    assert_eq!(w.update(AccountsInput::ToggleCurrentEnabled(false)).enabled_changed, None);
    w.update(AccountsInput::EditAccount(1));
    let fx = w.update(AccountsInput::ToggleCurrentEnabled(false));
    assert_eq!(fx.removed.as_deref(), Some("g@x.org"));
    assert!(fx.pop_editor);
    assert_eq!(w.accounts.len(), 1);
}

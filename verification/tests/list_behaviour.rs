use vireo::list_state::{collapse_rows, expand_rows, thread_head_row};
use vireo::list::{
    count_label, is_loading_more, load_more, normalize_subject, recipient_names, searching, SortOrder,
};
use vireo::list_state::{
    append_messages, collapse_delay, drag_keys, move_target, palette_step, position_of_id, remove_messages,
    selection_changed, set_flag, thread_open, thread_unread, toggle_thread, AfterRemoval, Countdown, Flag,
    PaletteEvent,
};
use vireo::model::Message;
use vireo::plan::{conversation_for, plan_list};

fn msg(id: u32, subject: &str, from: &str, ts: i64) -> Message {
    Message {
        id,
        account_id: 1,
        folder_id: 7,
        uid: id + 100,
        from_name: from.into(),
        from_addr: format!("{}@example.com", from.to_lowercase()),
        to: String::new(),
        cc: String::new(),
        subject: subject.into(),
        preview: String::new(),
        body: String::new(),
        date: String::new(),
        timestamp: ts,
        unread: false,
        starred: false,
        has_attachment: false,
        message_id: format!("m{id}@x"),
        references: String::new(),
    }
}

fn ids(source: &[Message], positions: &[usize]) -> Vec<u32> {
    positions.iter().map(|&p| source[p].id).collect()
}

#[test]
fn sort_keys_fall_back_to_newest_first() {
    assert_eq!(SortOrder::from_key("sender"), SortOrder::Sender);
    assert_eq!(SortOrder::from_key("date_oldest"), SortOrder::DateOldest);
    assert_eq!(SortOrder::from_key("flagged"), SortOrder::FlaggedFirst);
    assert_eq!(SortOrder::from_key("bogus"), SortOrder::DateNewest);
    assert_eq!(SortOrder::from_key(""), SortOrder::DateNewest);
}

#[test]
fn plan_filters_sorts_and_pages() {
    let source = vec![
        msg(1, "Lunch plans", "Alice", 100),
        msg(2, "Budget review", "Bob", 300),
        msg(3, "lunch again", "Carol", 200),
    ];
    let plan = plan_list(&source, "LUNCH", SortOrder::DateNewest, 10, false, &[], &[], false);
    assert_eq!(plan.total, 2);
    assert_eq!(ids(&source, &plan.sorted), vec![3, 1]);
    assert_eq!(plan.page.len(), 2);
    assert!(plan.threads.is_none());
    assert_eq!(plan.rows.len(), 2, "one row per message without threading");
    assert!(plan.rows.iter().all(|r| !r.is_child));

    let oldest = plan_list(&source, "", SortOrder::DateOldest, 2, false, &[], &[], false);
    assert_eq!(oldest.total, 3);
    assert_eq!(ids(&source, &oldest.sorted), vec![1, 3, 2]);
    assert_eq!(oldest.page.len(), 2, "the render limit caps the page");
    assert_eq!(oldest.page[0].id, 1);

    let by_sender = plan_list(&source, "", SortOrder::Sender, 10, false, &[], &[], false);
    assert_eq!(ids(&source, &by_sender.sorted), vec![1, 2, 3]);
}

#[test]
fn plan_groups_a_conversation_and_honours_toggles() {
    let mut root = msg(1, "Trip", "Alice", 100);
    root.message_id = "root@x".into();
    let mut reply = msg(2, "Re: Trip", "Bob", 200);
    reply.references = "root@x".into();
    reply.unread = true;
    let other = msg(3, "Other", "Carol", 150);
    let source = vec![root, reply, other];

    let closed = plan_list(&source, "", SortOrder::DateNewest, 10, true, &[], &[], false);
    assert!(closed.threads.is_some());
    assert_eq!(closed.conversations.len(), 2);
    assert_eq!(closed.rows.len(), 2, "a closed conversation shows its head only");
    let head = closed.rows.iter().find(|r| r.count == 2).expect("conversation head");
    assert!(head.unread, "an unread reply marks the head");
    assert!(!head.expanded);
    let key = head.key.clone().expect("a conversation head carries its key");

    let open = plan_list(&source, "", SortOrder::DateNewest, 10, true, &[], &[key.clone()], false);
    assert_eq!(open.rows.len(), 3, "the toggle opens it");
    assert_eq!(open.rows.iter().filter(|r| r.is_child).count(), 1);

    let default_open = plan_list(&source, "", SortOrder::DateNewest, 10, true, &[], &[], true);
    assert_eq!(default_open.rows.len(), 3);
    let toggled_shut = plan_list(&source, "", SortOrder::DateNewest, 10, true, &[], &[key], true);
    assert_eq!(toggled_shut.rows.len(), 2);
}

#[test]
fn opening_a_message_gathers_its_conversation() {
    let mut root = msg(1, "Trip", "Alice", 100);
    root.message_id = "root@x".into();
    let mut reply = msg(2, "Re: Trip", "Bob", 200);
    reply.references = "root@x".into();
    let other = msg(3, "Other", "Carol", 150);
    let source = vec![root, reply, other];

    let (alone, solo) = conversation_for(&source, &[], false, &source[1]);
    assert_eq!(alone.len(), 1);
    assert!(!solo);

    let (thread, solo) = conversation_for(&source, &[], true, &source[0]);
    assert!(!solo);
    assert_eq!(thread.iter().map(|m| m.id).collect::<Vec<_>>(), vec![1, 2], "the head opens the whole conversation");

    let (reply_only, solo) = conversation_for(&source, &[], true, &source[1]);
    assert!(solo, "a reply picked out of the conversation is shown alone");
    assert_eq!(reply_only.iter().map(|m| m.id).collect::<Vec<_>>(), vec![2]);

    let (lone, solo) = conversation_for(&source, &[], true, &source[2]);
    assert!(!solo);
    assert_eq!(lone.len(), 1);
}

#[test]
fn appending_skips_known_uids_per_account() {
    let mut all = vec![msg(1, "a", "A", 1), msg(2, "b", "B", 2)];
    let mut same_uid_elsewhere = msg(9, "c", "C", 3);
    same_uid_elsewhere.uid = all[0].uid;
    same_uid_elsewhere.account_id = 2;
    let duplicate = msg(1, "a", "A", 1);
    let added = append_messages(&mut all, vec![duplicate, same_uid_elsewhere, msg(4, "d", "D", 4)]);
    assert_eq!(added, 2);
    assert_eq!(all.iter().map(|m| m.id).collect::<Vec<_>>(), vec![1, 2, 9, 4]);
}

#[test]
fn flags_follow_the_message_by_id() {
    let mut msgs = vec![msg(1, "a", "A", 1), msg(2, "b", "B", 2)];
    msgs[1].unread = true;
    assert_eq!(position_of_id(&msgs, 2), Some(1));
    assert_eq!(position_of_id(&msgs, 5), None);
    assert_eq!(set_flag(&mut msgs, 2, Flag::Read, true), Some(1));
    assert!(!msgs[1].unread);
    assert_eq!(set_flag(&mut msgs, 1, Flag::Starred, true), Some(0));
    assert!(msgs[0].starred);
    assert_eq!(set_flag(&mut msgs, 3, Flag::Starred, true), None);
}

#[test]
fn removing_the_viewed_message_selects_its_neighbour() {
    let mut all = vec![msg(1, "a", "A", 1), msg(2, "b", "B", 2), msg(3, "c", "C", 3)];
    let mut shown = all.clone();
    let mut selected = Some((1u32, 2u32));
    let mut selected_ids = vec![(1u32, 2u32), (1u32, 3u32)];
    let r = remove_messages(&mut all, &mut shown, &mut selected, &mut selected_ids, &vec![2]);
    assert_eq!(r, AfterRemoval::Select(1), "the row that slid into its place");
    assert_eq!(selected, None);
    assert_eq!(selected_ids, vec![(1, 3)]);
    assert_eq!(all.len(), 2);
    assert_eq!(shown.iter().map(|m| m.id).collect::<Vec<_>>(), vec![1, 3]);

    let mut selected = Some((1u32, 3u32));
    let mut none: Vec<(u32, u32)> = Vec::new();
    let r = remove_messages(&mut all, &mut shown, &mut selected, &mut none, &vec![3]);
    assert_eq!(r, AfterRemoval::Select(0), "the new last row");

    let mut selected = Some((1u32, 1u32));
    let r = remove_messages(&mut all, &mut shown, &mut selected, &mut none, &vec![1]);
    assert_eq!(r, AfterRemoval::Clear);
    assert!(shown.is_empty());
}

#[test]
fn removing_another_message_keeps_the_selection() {
    let mut all = vec![msg(1, "a", "A", 1), msg(2, "b", "B", 2)];
    let mut shown = all.clone();
    let mut selected = Some((1u32, 1u32));
    let mut selected_ids: Vec<(u32, u32)> = Vec::new();
    let r = remove_messages(&mut all, &mut shown, &mut selected, &mut selected_ids, &vec![2]);
    assert_eq!(r, AfterRemoval::Keep);
    assert_eq!(selected, Some((1, 1)));
}

#[test]
fn keyboard_moves_clamp_to_the_list() {
    assert_eq!(move_target(None, 1, 5), Some(0));
    assert_eq!(move_target(None, -1, 5), Some(4));
    assert_eq!(move_target(Some(2), 1, 5), Some(3));
    assert_eq!(move_target(Some(4), 1, 5), Some(4));
    assert_eq!(move_target(Some(0), -1, 5), Some(0));
    assert_eq!(move_target(Some(1), 10, 5), Some(4));
    assert_eq!(move_target(None, 1, 0), None);
}

#[test]
fn a_single_selection_opens_the_message() {
    let none: Vec<(u32, u32)> = Vec::new();
    let step = selection_changed(0, &none, &vec![(1, 5)], None);
    assert_eq!(step.open, Some((1, 5)));
    assert_eq!(step.selected_id, Some((1, 5)));
    assert!(step.report);

    let again = selection_changed(0, &none, &vec![(1, 5)], Some((1, 5)));
    assert_eq!(again.open, None, "already shown");

    let echo = selection_changed(1, &vec![(1, 5), (1, 6)], &vec![(1, 5), (1, 6)], Some((1, 5)));
    assert_eq!(echo.from_reader, 0);
    assert!(!echo.report, "the reader's own selection is not sent back");

    let cleared = selection_changed(0, &none, &none, Some((1, 5)));
    assert_eq!(cleared.selected_id, None);
}

#[test]
fn toggling_a_conversation_twice_restores_it() {
    let mut toggled: Vec<(u32, String)> = Vec::new();
    let key = (1u32, "root@x".to_string());
    assert!(!thread_open(&toggled, &key, false));
    toggle_thread(&mut toggled, key.clone());
    assert!(thread_open(&toggled, &key, false));
    assert!(!thread_open(&toggled, &key, true));
    toggle_thread(&mut toggled, key.clone());
    assert!(!thread_open(&toggled, &key, false));
    assert!(toggled.is_empty());
}

#[test]
fn a_conversation_is_unread_when_any_member_is() {
    let mut all = vec![msg(1, "a", "A", 1), msg(2, "b", "B", 2)];
    assert!(!thread_unread(&all, &vec![(1, 1), (1, 2)]));
    all[1].unread = true;
    assert!(thread_unread(&all, &vec![(1, 1), (1, 2)]));
    assert!(!thread_unread(&all, &vec![(1, 1)]));
}

#[test]
fn drags_carry_account_folder_uid_and_id() {
    let shown = vec![msg(3, "a", "A", 1)];
    assert_eq!(drag_keys(&shown), vec![(1, 7, 103, 3)]);
}

#[test]
fn the_palette_follows_hover_and_clicks() {
    assert_eq!(palette_step(false, false, true, PaletteEvent::RowHover(true)), (true, true, Countdown::Cancel));
    assert_eq!(palette_step(true, true, true, PaletteEvent::RowHover(false)), (false, true, Countdown::Restart));
    assert_eq!(palette_step(false, false, false, PaletteEvent::RowHover(true)), (true, false, Countdown::Keep));
    assert_eq!(palette_step(true, false, false, PaletteEvent::Toggle), (true, true, Countdown::Restart));
    assert_eq!(palette_step(true, true, false, PaletteEvent::Toggle), (true, false, Countdown::Cancel));
    assert_eq!(palette_step(true, true, false, PaletteEvent::Enter), (true, true, Countdown::Cancel));
    assert_eq!(palette_step(true, true, false, PaletteEvent::Collapse), (true, false, Countdown::Forget));
    assert_eq!(collapse_delay(0), 1);
    assert_eq!(collapse_delay(4), 4);
}

#[test]
fn subjects_lose_reply_and_forward_prefixes() {
    assert_eq!(normalize_subject("Re: Fwd: RE: Plans"), "plans");
    assert_eq!(normalize_subject("  Hello "), "hello");
}

#[test]
fn list_labels_and_paging() {
    assert!(searching("  x "));
    assert!(!searching("   "));
    assert!(is_loading_more(500, 20, false));
    assert!(!is_loading_more(500, 20, true));
    assert_eq!(load_more(500, 500, 900, true), Some(700));
    assert_eq!(load_more(500, 20, 20, false), Some(700));
    assert_eq!(load_more(500, 20, 20, true), None);
    assert_eq!(count_label(3, 10), "3 of 10");
    assert_eq!(count_label(10, 10), "10");
    assert_eq!(recipient_names("Ann <ann@x.org>, bob@y.org"), "Ann, bob@y.org");
}

#[test]
fn a_conversation_opens_and_closes_in_place() {
    let source = vec![msg(1, "a", "A", 1), msg(2, "b", "B", 2), msg(3, "c", "C", 3), msg(4, "d", "D", 4)];
    let mut shown = vec![source[0].clone(), source[3].clone()];
    let members = vec![(1, 1), (1, 2), (1, 3), (1, 9)];
    assert_eq!(thread_head_row(&shown, &members), Some(0));
    let head = expand_rows(&mut shown, &members, &source);
    assert_eq!(head, Some(0));
    assert_eq!(shown.iter().map(|m| m.id).collect::<Vec<_>>(), vec![1, 2, 3, 4], "replies follow their head");
    collapse_rows(&mut shown, &members);
    assert_eq!(shown.iter().map(|m| m.id).collect::<Vec<_>>(), vec![1, 4], "closing undoes opening");

    let mut unchanged = vec![source[3].clone()];
    assert_eq!(expand_rows(&mut unchanged, &members, &source), None, "the head is not shown");
    assert_eq!(unchanged.len(), 1);
    assert_eq!(thread_head_row(&unchanged, &members), None);
    let mut lone = vec![source[0].clone()];
    assert_eq!(expand_rows(&mut lone, &vec![(1, 1), (1, 9)], &source), None, "no reply to show");
}

#[test]
fn without_threading_each_message_is_its_own_group_across_folders() {
    let mut a = msg(1, "Hello", "Ann", 10);
    let mut b = msg(2, "Hello again", "Ben", 20);
    a.folder_id = 7;
    b.folder_id = 8;
    a.uid = 42;
    b.uid = 42;
    let source = vec![a, b];
    let plan = plan_list(&source, "", SortOrder::DateNewest, 10, false, &[], &[], false);
    assert!(plan.threads.is_none());
    assert_eq!(plan.conversations.len(), 2);
    assert_eq!(plan.rows.len(), 2);
    assert!(plan.rows.iter().all(|r| !r.is_child && r.count == 1));
}

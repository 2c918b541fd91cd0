use vireo::list::preview_lines;
use vireo::model::Message;
use vireo::threads::compute_thread_keys;

fn msg(id: u32, message_id: &str, references: &str) -> Message {
    Message {
        id,
        account_id: 1,
        folder_id: 1,
        uid: id,
        from_name: "X".into(),
        from_addr: "x@example.com".into(),
        to: String::new(),
        cc: String::new(),
        subject: "S".into(),
        preview: String::new(),
        body: String::new(),
        date: String::new(),
        timestamp: 1000,
        unread: false,
        starred: false,
        has_attachment: false,
        message_id: message_id.into(),
        references: references.into(),
    }
}

#[test]
fn a_conversation_joined_through_another_folder_still_groups() {
    let shown = [
        msg(1, "reply-a@them", "sent-1@us"),
        msg(2, "reply-b@them", "sent-2@us"),
    ];
    let alone = compute_thread_keys(&shown, &[]);
    assert_ne!(
        alone.get(&(1, 1)),
        alone.get(&(1, 2)),
        "nothing on screen links these two"
    );

    let links = vec![
        (1u32, "sent-1@us".to_string(), String::new()),
        (1u32, "sent-2@us".to_string(), "sent-1@us reply-a@them".to_string()),
    ];
    let joined = compute_thread_keys(&shown, &links);
    assert_eq!(
        joined.get(&(1, 1)),
        joined.get(&(1, 2)),
        "the messages in Sent say they belong together"
    );
}

#[test]
fn mail_older_than_the_account_still_threads() {
    let old = 1_787_565_140i64;
    let mut root = msg(1, "root@dccma.com", "");
    root.timestamp = old;
    let mut first = msg(2, "r1@dccma.com", "root@dccma.com sent-1@me.com");
    first.timestamp = old + 48;
    let mut second = msg(3, "r2@dccma.com", "root@dccma.com sent-2@me.com");
    second.timestamp = old + 224;

    let shown = [root, first, second];
    let keys = compute_thread_keys(&shown, &[]);
    let root_key = keys.get(&(1, 1)).cloned().expect("the root is threaded");
    assert_eq!(keys.get(&(1, 2)), Some(&root_key), "first reply joins");
    assert_eq!(keys.get(&(1, 3)), Some(&root_key), "second reply joins");
}

#[test]
fn links_do_not_merge_unrelated_conversations() {
    let shown = [msg(1, "a@x", ""), msg(2, "b@x", "")];
    let links = vec![(1u32, "c@x".to_string(), "a@x".to_string())];
    let keys = compute_thread_keys(&shown, &links);
    assert_ne!(keys.get(&(1, 1)), keys.get(&(1, 2)), "still two conversations");
}

#[test]
fn a_long_conversation_groups_every_message() {
    let n = 60usize;
    let mut members: Vec<Message> = Vec::new();
    for i in 0..n {
        let mut m = msg(i as u32 + 1, &format!("m{i}@x"), "root@x");
        m.timestamp = 1000 + i as i64;
        members.push(m);
    }
    let keys = compute_thread_keys(&members, &[]);
    let root = keys.get(&(1, 1)).cloned().expect("threaded");
    assert!(
        members.iter().all(|m| keys.get(&(1, m.id)) == Some(&root)),
        "one conversation"
    );
    assert_eq!(
        members.iter().filter(|m| keys.get(&(1, m.id)) == Some(&root)).count(),
        n,
        "every message belongs to it, however long the thread runs"
    );
}

#[test]
fn preview_lines_clamp_but_keep_zero() {
    for (asked, expected) in [(0u32, 0u32), (1, 1), (3, 3), (9, 3)] {
        assert_eq!(preview_lines(asked), expected, "for {asked}");
    }
}

//! Messages: sending, threads, pagination, edits, tombstones, reactions,
//! and field-level last-writer-wins reconciliation.

use curb::channel::Channel;
use curb::errors::ChatError;
use curb::lww::LwwReg;
use curb::message::MessageId;
use curb::state::CurbChat;

fn general() -> Channel {
    Channel { name: "general".to_string() }
}

fn new_chat() -> CurbChat {
    CurbChat::init(
        "alice".to_string(),
        "team".to_string(),
        vec![general()],
        0,
        false,
        None,
        Some("Alice".to_string()),
        None,
    )
}

fn top_id(index: u64) -> MessageId {
    MessageId { channel: "general".to_string(), index, reply: None }
}

#[test]
fn send_assigns_running_identifiers() {
    let mut chat = new_chat();
    let id0 = chat
        .send_message("alice".to_string(), &general(), "a".to_string(), vec![], None, 1)
        .unwrap();
    let id1 = chat
        .send_message("alice".to_string(), &general(), "b".to_string(), vec![], None, 2)
        .unwrap();
    assert!(id0.same_as(&top_id(0)));
    assert!(id1.same_as(&top_id(1)));
    assert!(matches!(
        chat.send_message(
            "alice".to_string(),
            &Channel { name: "nope".to_string() },
            "c".to_string(),
            vec![],
            None,
            3,
        ),
        Err(ChatError::ChannelNotFound)
    ));
}

#[test]
fn thread_replies_nest_under_parent() {
    let mut chat = new_chat();
    let parent = chat
        .send_message("alice".to_string(), &general(), "root".to_string(), vec![], None, 1)
        .unwrap();
    let reply = chat
        .send_message(
            "alice".to_string(),
            &general(),
            "reply".to_string(),
            vec![],
            Some(parent.duplicate()),
            2,
        )
        .unwrap();
    assert!(reply.same_as(&MessageId {
        channel: "general".to_string(),
        index: 0,
        reply: Some(0),
    }));
    let page = chat
        .get_messages(&general(), None, None, Some(parent.duplicate()))
        .unwrap();
    assert_eq!(page.total_count, 1);
    assert_eq!(page.messages.len(), 1);
    assert_eq!(page.messages[0].text, "reply");
    // A missing parent is a thread error.
    assert!(matches!(
        chat.send_message(
            "alice".to_string(),
            &general(),
            "x".to_string(),
            vec![],
            Some(top_id(9)),
            3,
        ),
        Err(ChatError::ThreadNotFound)
    ));
    // The channel page reports the thread summary.
    let top = chat.get_messages(&general(), None, None, None).unwrap();
    assert_eq!(top.messages[0].thread_count, 1);
    assert_eq!(top.messages[0].thread_last_timestamp, 2);
}

#[test]
fn thread_replies_leave_unread_counts_alone() {
    let mut chat = new_chat();
    chat.join_chat("bob".to_string(), "Bob".to_string(), false).unwrap();
    let parent = chat
        .send_message("alice".to_string(), &general(), "root".to_string(), vec![], None, 1)
        .unwrap();
    assert_eq!(chat.get_channel_unread_count(&"bob".to_string(), &general()), 1);
    chat.send_message(
        "alice".to_string(),
        &general(),
        "reply".to_string(),
        vec![],
        Some(parent),
        2,
    )
    .unwrap();
    assert_eq!(chat.get_channel_unread_count(&"bob".to_string(), &general()), 1);
}

#[test]
fn pagination_windows_newest_first() {
    let mut chat = new_chat();
    for t in [1u64, 2, 3, 4, 5] {
        chat.send_message(
            "alice".to_string(),
            &general(),
            format!("m{}", t),
            vec![],
            None,
            t,
        )
        .unwrap();
    }
    // Offset one, limit two: the window holds the messages stamped 3, 4.
    let page = chat.get_messages(&general(), Some(2), Some(1), None).unwrap();
    assert_eq!(page.total_count, 5);
    assert_eq!(page.start_position, 1);
    assert_eq!(page.messages.len(), 2);
    assert_eq!(page.messages[0].timestamp, 3);
    assert_eq!(page.messages[1].timestamp, 4);
    // An offset past the total yields an empty page, total intact.
    let empty = chat.get_messages(&general(), Some(2), Some(10), None).unwrap();
    assert_eq!(empty.total_count, 5);
    assert_eq!(empty.messages.len(), 0);
    // Defaults: limit fifty, offset zero.
    let all = chat.get_messages(&general(), None, None, None).unwrap();
    assert_eq!(all.messages.len(), 5);
    assert_eq!(all.messages[0].timestamp, 1);
}

#[test]
fn edit_only_by_author() {
    let mut chat = new_chat();
    chat.join_chat("bob".to_string(), "Bob".to_string(), false).unwrap();
    let id = chat
        .send_message("alice".to_string(), &general(), "hello".to_string(), vec![], None, 1)
        .unwrap();
    assert_eq!(
        chat.edit_message("bob".to_string(), &id, "hacked".to_string(), 2),
        Err(ChatError::NotOwnMessage)
    );
    assert!(chat
        .edit_message("alice".to_string(), &id, "hello world".to_string(), 3)
        .is_ok());
    let page = chat.get_messages(&general(), None, None, None).unwrap();
    assert_eq!(page.messages[0].text, "hello world");
    assert_eq!(page.messages[0].edited_on, 3);
    assert_eq!(
        chat.edit_message("alice".to_string(), &top_id(9), "x".to_string(), 4),
        Err(ChatError::MessageNotFound)
    );
}

#[test]
fn delete_requires_permission_and_tombstones() {
    let mut chat = new_chat();
    chat.join_chat("bob".to_string(), "Bob".to_string(), false).unwrap();
    let id = chat
        .send_message("alice".to_string(), &general(), "hello".to_string(), vec![], None, 1)
        .unwrap();
    // A non-sender, non-moderator, non-owner may not delete.
    assert_eq!(
        chat.delete_message("bob".to_string(), &id, 2),
        Err(ChatError::NoDeletePermission)
    );
    let page = chat.get_messages(&general(), None, None, None).unwrap();
    assert_eq!(page.messages[0].text, "hello");
    assert!(!page.messages[0].deleted);
    // The sender always may; the slot is kept as a tombstone.
    assert!(chat.delete_message("alice".to_string(), &id, 3).is_ok());
    let page = chat.get_messages(&general(), None, None, None).unwrap();
    assert_eq!(page.total_count, 1);
    assert_eq!(page.messages[0].text, "");
    assert!(page.messages[0].deleted);
}

#[test]
fn moderator_may_delete_other_messages() {
    let mut chat = new_chat();
    chat.join_chat("bob".to_string(), "Bob".to_string(), false).unwrap();
    let id = chat
        .send_message("bob".to_string(), &general(), "from bob".to_string(), vec![], None, 1)
        .unwrap();
    // The owner was seeded as moderator at initialization.
    assert!(chat.delete_message("alice".to_string(), &id, 2).is_ok());
}

#[test]
fn reaction_toggle_roundtrip() {
    let mut chat = new_chat();
    let id = chat
        .send_message("alice".to_string(), &general(), "hi".to_string(), vec![], None, 1)
        .unwrap();
    chat.update_reaction("alice".to_string(), &id, "thumbs".to_string()).unwrap();
    let page = chat.get_messages(&general(), None, None, None).unwrap();
    let reactions = page.messages[0].reactions.as_ref().unwrap();
    assert_eq!(reactions.len(), 1);
    assert_eq!(reactions[0].0, "thumbs");
    assert_eq!(reactions[0].1, vec!["Alice".to_string()]);
    // The second application removes the reactor again.
    chat.update_reaction("alice".to_string(), &id, "thumbs".to_string()).unwrap();
    let page = chat.get_messages(&general(), None, None, None).unwrap();
    assert!(page.messages[0].reactions.is_none());
    // An unresolved identifier is a silent no-op.
    assert!(chat
        .update_reaction("alice".to_string(), &top_id(9), "thumbs".to_string())
        .is_ok());
}

#[test]
fn reaction_toggle_roundtrip_on_thread_reply() {
    let mut chat = new_chat();
    let parent = chat
        .send_message("alice".to_string(), &general(), "root".to_string(), vec![], None, 1)
        .unwrap();
    let reply = chat
        .send_message(
            "alice".to_string(),
            &general(),
            "reply".to_string(),
            vec![],
            Some(parent.duplicate()),
            2,
        )
        .unwrap();
    chat.update_reaction("alice".to_string(), &reply, "star".to_string()).unwrap();
    let page = chat
        .get_messages(&general(), None, None, Some(parent.duplicate()))
        .unwrap();
    let reactions = page.messages[0].reactions.as_ref().unwrap();
    assert_eq!(reactions[0].0, "star");
    assert_eq!(reactions[0].1, vec!["Alice".to_string()]);
    chat.update_reaction("alice".to_string(), &reply, "star".to_string()).unwrap();
    let page = chat
        .get_messages(&general(), None, None, Some(parent)).unwrap();
    assert!(page.messages[0].reactions.is_none());
}

#[test]
fn lww_register_converges_on_later_write() {
    let a: LwwReg<u64> = LwwReg::new(10, 100);
    let b: LwwReg<u64> = LwwReg::new(20, 200);
    let mut left = LwwReg::new(a.value, a.written_at);
    left.merge_from(LwwReg::new(b.value, b.written_at));
    let mut right = LwwReg::new(b.value, b.written_at);
    right.merge_from(LwwReg::new(a.value, a.written_at));
    assert_eq!(left.value, 20);
    assert_eq!(right.value, 20);
    assert_eq!(left.written_at, right.written_at);
}

#[test]
fn message_fields_merge_independently() {
    let mut chat_a = new_chat();
    let mut chat_b = new_chat();
    let id = chat_a
        .send_message("alice".to_string(), &general(), "base".to_string(), vec![], None, 1)
        .unwrap();
    chat_b
        .send_message("alice".to_string(), &general(), "base".to_string(), vec![], None, 1)
        .unwrap();
    // Replica A edits later than replica B.
    chat_a
        .edit_message("alice".to_string(), &id, "late".to_string(), 30)
        .unwrap();
    chat_b
        .edit_message("alice".to_string(), &id, "early".to_string(), 20)
        .unwrap();
    let page_a = chat_a.get_messages(&general(), None, None, None).unwrap();
    let page_b = chat_b.get_messages(&general(), None, None, None).unwrap();
    assert_eq!(page_a.messages[0].text, "late");
    assert_eq!(page_b.messages[0].text, "early");
    // Reconcile the registers in both orders: the later edit wins.
    let mut t_ab: LwwReg<String> = LwwReg::new("late".to_string(), 30);
    t_ab.merge_from(LwwReg::new("early".to_string(), 20));
    let mut t_ba: LwwReg<String> = LwwReg::new("early".to_string(), 20);
    t_ba.merge_from(LwwReg::new("late".to_string(), 30));
    assert_eq!(t_ab.value, "late");
    assert_eq!(t_ba.value, "late");
}

#[test]
fn end_to_end_scenario() {
    // A creates the chat with default channel "general"; B joins.
    let mut chat = new_chat();
    chat.join_chat("bob".to_string(), "Bob".to_string(), false).unwrap();
    // A sends "hello"; its identifier is the channel's first slot.
    let id = chat
        .send_message("alice".to_string(), &general(), "hello".to_string(), vec![], None, 10)
        .unwrap();
    assert!(id.same_as(&top_id(0)));
    // B has one unread message, then reads the channel.
    assert_eq!(chat.get_channel_unread_count(&"bob".to_string(), &general()), 1);
    chat.mark_messages_as_read("bob".to_string(), &general(), 10).unwrap();
    assert_eq!(chat.get_channel_unread_count(&"bob".to_string(), &general()), 0);
    // A edits; the page shows the new text and an edit time.
    chat.edit_message("alice".to_string(), &id, "hello world".to_string(), 11)
        .unwrap();
    let page = chat.get_messages(&general(), None, None, None).unwrap();
    assert_eq!(page.messages[0].text, "hello world");
    assert!(page.messages[0].edited_on != 0);
    // A deletes; the message still occupies its slot as a tombstone.
    chat.delete_message("alice".to_string(), &id, 12).unwrap();
    let page = chat.get_messages(&general(), None, None, None).unwrap();
    assert_eq!(page.total_count, 1);
    assert_eq!(page.messages[0].text, "");
    assert!(page.messages[0].deleted);
}

//! Replica reconciliation of individual records: last-writer-wins on
//! registers and whole records, and the channel facts' merge rules.

use curb::channel::ChannelInfo;
use curb::channel::ChannelMetadata;
use curb::channel::ChannelType;
use curb::dm::DMChatInfo;
use curb::lww::LwwReg;
use curb::message::Message;
use curb::tracking::UserChannelMentions;
use curb::tracking::UserChannelUnread;

fn message(text: &str, written_at: u64) -> Message {
    Message {
        timestamp: LwwReg::new(1, 1),
        sender: LwwReg::new("alice".to_string(), 1),
        sender_username: LwwReg::new("Alice".to_string(), 1),
        mentions: vec![],
        mentions_usernames: vec![],
        id: LwwReg::new(
            curb::message::MessageId { channel: "general".to_string(), index: 0, reply: None },
            1,
        ),
        text: LwwReg::new(text.to_string(), written_at),
        edited_on: LwwReg::new(0, 1),
        deleted: LwwReg::new(false, 1),
        group: LwwReg::new("general".to_string(), 1),
        reactions: vec![],
    }
}

#[test]
fn message_merge_keeps_later_field_writes_in_either_order() {
    let mut ab = message("late", 30);
    ab.merge_from(message("early", 20));
    assert_eq!(ab.text.value, "late");

    let mut ba = message("early", 20);
    ba.merge_from(message("late", 30));
    assert_eq!(ba.text.value, "late");
    assert_eq!(ab.text.written_at, ba.text.written_at);
}

#[test]
fn unread_record_merge_prefers_later_read() {
    let older = UserChannelUnread { last_read_timestamp: 10, unread_count: 7 };
    let newer = UserChannelUnread { last_read_timestamp: 20, unread_count: 0 };
    let mut a = older;
    a.merge_from(newer);
    assert_eq!(a, newer);
    let mut b = newer;
    b.merge_from(older);
    assert_eq!(b, newer);
}

#[test]
fn mention_record_merge_prefers_later_mention() {
    let make = |ts: u64, count: u32| UserChannelMentions {
        message_id: curb::message::MessageId {
            channel: "general".to_string(),
            index: 0,
            reply: None,
        },
        mention_count: count,
        mention_types: vec!["@user".to_string()],
        timestamp: ts,
    };
    let mut a = make(5, 1);
    a.merge_from(make(9, 2));
    assert_eq!(a.timestamp, 9);
    assert_eq!(a.mention_count, 2);
    let mut b = make(9, 2);
    b.merge_from(make(5, 1));
    assert_eq!(b.timestamp, 9);
}

#[test]
fn dm_record_merge_is_whole_record_lww() {
    let rec = |created_at: u64, payload: &str| DMChatInfo {
        created_at,
        context_id: "ctx".to_string(),
        channel_type: ChannelType::Private,
        created_by: "alice".to_string(),
        own_identity_old: "alice".to_string(),
        own_identity: None,
        own_username: "Alice".to_string(),
        other_identity_old: "bob".to_string(),
        other_identity_new: None,
        other_username: "Bob".to_string(),
        did_join: false,
        invitation_payload: payload.to_string(),
        old_hash: String::new(),
        new_hash: String::new(),
        unread_messages: 0,
    };
    let mut a = rec(10, "first");
    a.merge_from(rec(20, "second"));
    assert_eq!(a.invitation_payload, "second");
    let mut b = rec(20, "second");
    b.merge_from(rec(10, "first"));
    assert_eq!(b.invitation_payload, "second");
}

#[test]
fn channel_facts_merge_monotonic_flags_and_later_creation() {
    let info = |read_only: bool, links: bool, created_at: u64| ChannelInfo {
        messages: vec![],
        channel_type: ChannelType::Public,
        read_only,
        meta: ChannelMetadata {
            created_at,
            created_by: "alice".to_string(),
            created_by_username: None,
            read_only: vec![],
            moderators: vec![],
            links_allowed: links,
        },
        members: vec![],
        unread_tracking: vec![],
        mentions_tracking: vec![],
    };
    let mut a = info(false, false, 10);
    let mut b = info(true, true, 20);
    b.meta.created_by_username = Some("Alice".to_string());
    a.merge_from(b);
    // Flags are monotonic, creation keeps the later time, a missing
    // creator name is filled in.
    assert!(a.read_only);
    assert!(a.meta.links_allowed);
    assert_eq!(a.meta.created_at, 20);
    assert_eq!(a.meta.created_by_username, Some("Alice".to_string()));
}

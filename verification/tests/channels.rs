//! Channel lifecycle, membership admission and unread tracking.

use curb::channel::Channel;
use curb::channel::ChannelType;
use curb::errors::ChatError;
use curb::state::CurbChat;

fn general() -> Channel {
    Channel { name: "general".to_string() }
}

fn new_chat() -> CurbChat {
    CurbChat::init(
        "alice".to_string(),
        "team".to_string(),
        vec![general()],
        0,
        false,
        None,
        Some("Alice".to_string()),
        None,
    )
}

#[test]
fn init_seeds_owner_and_default_channel() {
    let chat = new_chat();
    assert_eq!(chat.get_chat_name(), "team");
    assert_eq!(chat.get_chat_members(), vec!["alice".to_string()]);
    assert!(chat.is_channel_member(&"general".to_string(), &"alice".to_string()));
    assert_eq!(chat.get_username(&"alice".to_string()), "Alice");
    assert_eq!(chat.get_username(&"nobody".to_string()), "Unknown");
}

#[test]
fn join_chat_registers_and_enrolls() {
    let mut chat = new_chat();
    let r = chat.join_chat("bob".to_string(), "Bob".to_string(), false);
    assert!(r.is_ok());
    assert!(chat.is_channel_member(&"general".to_string(), &"bob".to_string()));
    assert_eq!(chat.get_username(&"bob".to_string()), "Bob");
}

#[test]
fn join_chat_rejects_double_join() {
    let mut chat = new_chat();
    chat.join_chat("bob".to_string(), "Bob".to_string(), false).unwrap();
    let r = chat.join_chat("bob".to_string(), "Bobby".to_string(), false);
    assert_eq!(r, Err(ChatError::AlreadyMember));
}

#[test]
fn join_chat_validates_username() {
    let mut chat = new_chat();
    assert_eq!(
        chat.join_chat("bob".to_string(), "".to_string(), false),
        Err(ChatError::UsernameEmpty)
    );
    // A whitespace-only name counts as empty.
    assert_eq!(
        chat.join_chat("bob".to_string(), " ".to_string(), false),
        Err(ChatError::UsernameEmpty)
    );
    assert_eq!(
        chat.join_chat("bob".to_string(), " \t\n ".to_string(), false),
        Err(ChatError::UsernameEmpty)
    );
    let long = "x".repeat(51);
    assert_eq!(
        chat.join_chat("bob".to_string(), long, false),
        Err(ChatError::UsernameTooLong)
    );
    assert_eq!(
        chat.join_chat("bob".to_string(), "Alice".to_string(), false),
        Err(ChatError::UsernameTaken)
    );
    // Exactly fifty characters is still acceptable.
    let fifty = "y".repeat(50);
    assert!(chat.join_chat("bob".to_string(), fifty, false).is_ok());
}

#[test]
fn join_chat_seeds_unread_with_history() {
    let mut chat = new_chat();
    chat.send_message(
        "alice".to_string(),
        &general(),
        "hi".to_string(),
        vec![],
        None,
        5,
    )
    .unwrap();
    chat.join_chat("bob".to_string(), "Bob".to_string(), false).unwrap();
    // The newcomer sees the already-sent message as unread.
    assert_eq!(chat.get_channel_unread_count(&"bob".to_string(), &general()), 1);
}

#[test]
fn create_channel_rejects_duplicates_and_dm() {
    let mut chat = new_chat();
    let dev = Channel { name: "dev".to_string() };
    assert!(chat
        .create_channel(
            "alice".to_string(),
            Channel { name: "dev".to_string() },
            ChannelType::Public,
            false,
            vec![],
            true,
            10,
        )
        .is_ok());
    assert_eq!(
        chat.create_channel(
            "alice".to_string(),
            dev,
            ChannelType::Public,
            false,
            vec![],
            true,
            11,
        ),
        Err(ChatError::ChannelExists)
    );

    let mut dm = CurbChat::init(
        "alice".to_string(),
        "dm".to_string(),
        vec![],
        0,
        true,
        Some("bob".to_string()),
        Some("Alice".to_string()),
        Some("Bob".to_string()),
    );
    assert_eq!(
        dm.create_channel(
            "alice".to_string(),
            Channel { name: "dev".to_string() },
            ChannelType::Public,
            false,
            vec![],
            true,
            10,
        ),
        Err(ChatError::ForbiddenInDM)
    );
}

#[test]
fn join_channel_idempotent_membership() {
    let mut chat = new_chat();
    chat.join_chat("bob".to_string(), "Bob".to_string(), false).unwrap();
    chat.create_channel(
        "alice".to_string(),
        Channel { name: "dev".to_string() },
        ChannelType::Public,
        false,
        vec![],
        true,
        10,
    )
    .unwrap();
    let dev = Channel { name: "dev".to_string() };
    assert!(chat.join_channel("bob".to_string(), &dev).is_ok());
    let members_before = chat.get_channel_members(&dev).unwrap();
    // The second join reports membership and changes nothing.
    assert_eq!(
        chat.join_channel("bob".to_string(), &dev),
        Err(ChatError::AlreadyChannelMember)
    );
    let members_after = chat.get_channel_members(&dev).unwrap();
    assert_eq!(members_before.len(), members_after.len());
    for (a, b) in members_before.iter().zip(members_after.iter()) {
        assert_eq!(a.0, b.0);
    }
}

#[test]
fn join_channel_restricted_to_public() {
    let mut chat = new_chat();
    chat.join_chat("bob".to_string(), "Bob".to_string(), false).unwrap();
    chat.create_channel(
        "alice".to_string(),
        Channel { name: "secret".to_string() },
        ChannelType::Private,
        false,
        vec![],
        true,
        10,
    )
    .unwrap();
    assert_eq!(
        chat.join_channel("bob".to_string(), &Channel { name: "secret".to_string() }),
        Err(ChatError::JoinRestricted)
    );
    assert_eq!(
        chat.join_channel("bob".to_string(), &Channel { name: "nowhere".to_string() }),
        Err(ChatError::ChannelNotFound)
    );
}

#[test]
fn invite_checks_chat_membership_and_duplicates() {
    let mut chat = new_chat();
    chat.join_chat("bob".to_string(), "Bob".to_string(), false).unwrap();
    chat.create_channel(
        "alice".to_string(),
        Channel { name: "dev".to_string() },
        ChannelType::Private,
        false,
        vec![],
        true,
        10,
    )
    .unwrap();
    let dev = Channel { name: "dev".to_string() };
    assert_eq!(
        chat.invite_to_channel(&dev, "carol".to_string()),
        Err(ChatError::NotChatMember)
    );
    assert!(chat.invite_to_channel(&dev, "bob".to_string()).is_ok());
    assert_eq!(
        chat.invite_to_channel(&dev, "bob".to_string()),
        Err(ChatError::AlreadyChannelMemberInvite)
    );
}

#[test]
fn leave_channel_rules() {
    let mut chat = new_chat();
    chat.join_chat("bob".to_string(), "Bob".to_string(), false).unwrap();
    chat.create_channel(
        "alice".to_string(),
        Channel { name: "dev".to_string() },
        ChannelType::Public,
        false,
        vec![],
        true,
        10,
    )
    .unwrap();
    let dev = Channel { name: "dev".to_string() };
    assert_eq!(
        chat.leave_channel("alice".to_string(), &general()),
        Err(ChatError::CannotLeaveDefault)
    );
    assert_eq!(
        chat.leave_channel("bob".to_string(), &dev),
        Err(ChatError::NotMember)
    );
    chat.join_channel("bob".to_string(), &dev).unwrap();
    assert!(chat.leave_channel("bob".to_string(), &dev).is_ok());
    assert!(!chat.is_channel_member(&"dev".to_string(), &"bob".to_string()));
}

#[test]
fn channel_listings_respect_membership() {
    let mut chat = new_chat();
    chat.join_chat("bob".to_string(), "Bob".to_string(), false).unwrap();
    chat.create_channel(
        "alice".to_string(),
        Channel { name: "secret".to_string() },
        ChannelType::Private,
        false,
        vec![],
        true,
        10,
    )
    .unwrap();
    let bobs = chat.get_channels(&"bob".to_string());
    assert_eq!(bobs.len(), 1);
    assert_eq!(bobs[0].0, "general");
    // The private channel is invisible to non-members even in the full
    // listing; public and default channels are visible to everyone.
    chat.create_channel(
        "alice".to_string(),
        Channel { name: "town".to_string() },
        ChannelType::Public,
        false,
        vec![],
        true,
        11,
    )
    .unwrap();
    let all_bob = chat.get_all_channels(&"bob".to_string());
    assert_eq!(all_bob.len(), 2);
    assert_eq!(all_bob[0].0, "general");
    assert_eq!(all_bob[1].0, "town");
    let all_alice = chat.get_all_channels(&"alice".to_string());
    assert_eq!(all_alice.len(), 3);
    let info = chat.get_channel_info(&Channel { name: "secret".to_string() }).unwrap();
    assert_eq!(info.created_by, "alice");
    assert_eq!(info.created_by_username, "Alice");
    let non_members = chat
        .get_non_member_users(&Channel { name: "secret".to_string() })
        .unwrap();
    assert_eq!(non_members.len(), 1);
    assert_eq!(non_members[0].0, "bob");
}

#[test]
fn chat_usernames_are_listed() {
    let mut chat = new_chat();
    chat.join_chat("bob".to_string(), "Bob".to_string(), false).unwrap();
    let names = chat.get_chat_usernames();
    assert_eq!(names.len(), 2);
    assert!(names.contains(&("alice".to_string(), "Alice".to_string())));
    assert!(names.contains(&("bob".to_string(), "Bob".to_string())));
}

#[test]
fn channel_summary_reports_counts() {
    let mut chat = new_chat();
    chat.join_chat("bob".to_string(), "Bob".to_string(), false).unwrap();
    chat.send_message(
        "alice".to_string(),
        &general(),
        "ping @bob".to_string(),
        vec!["bob".to_string()],
        None,
        3,
    )
    .unwrap();
    let bobs = chat.get_channels(&"bob".to_string());
    assert_eq!(bobs.len(), 1);
    let summary = &bobs[0].1;
    assert_eq!(summary.unread_count, 1);
    assert_eq!(summary.unread_mention_count, 1);
    assert_eq!(summary.created_by_username, "Alice");
    assert!(summary.links_allowed);
}

#[test]
fn mark_read_recomputes_from_timestamp() {
    let mut chat = new_chat();
    chat.join_chat("bob".to_string(), "Bob".to_string(), false).unwrap();
    for t in [1u64, 2, 3, 4, 5] {
        chat.send_message(
            "alice".to_string(),
            &general(),
            format!("m{}", t),
            vec![],
            None,
            t,
        )
        .unwrap();
    }
    assert_eq!(chat.get_channel_unread_count(&"bob".to_string(), &general()), 5);
    // Marking read up to time three leaves the two later messages unread.
    chat.mark_messages_as_read("bob".to_string(), &general(), 3).unwrap();
    assert_eq!(chat.get_channel_unread_count(&"bob".to_string(), &general()), 2);
    assert_eq!(
        chat.get_channel_last_read_timestamp(&"bob".to_string(), &general()),
        3
    );
    chat.mark_messages_as_read("bob".to_string(), &general(), 9).unwrap();
    assert_eq!(chat.get_channel_unread_count(&"bob".to_string(), &general()), 0);
    assert_eq!(
        chat.mark_messages_as_read("bob".to_string(), &Channel { name: "nope".to_string() }, 1),
        Err(ChatError::ChannelNotFound)
    );
}

#[test]
fn unread_increments_for_non_senders_only() {
    let mut chat = new_chat();
    chat.join_chat("bob".to_string(), "Bob".to_string(), false).unwrap();
    chat.join_chat("carol".to_string(), "Carol".to_string(), false).unwrap();
    let before_bob = chat.get_channel_unread_count(&"bob".to_string(), &general());
    let before_carol = chat.get_channel_unread_count(&"carol".to_string(), &general());
    let before_alice = chat.get_channel_unread_count(&"alice".to_string(), &general());
    chat.send_message(
        "alice".to_string(),
        &general(),
        "hello".to_string(),
        vec![],
        None,
        7,
    )
    .unwrap();
    assert_eq!(
        chat.get_channel_unread_count(&"bob".to_string(), &general()),
        before_bob + 1
    );
    assert_eq!(
        chat.get_channel_unread_count(&"carol".to_string(), &general()),
        before_carol + 1
    );
    assert_eq!(
        chat.get_channel_unread_count(&"alice".to_string(), &general()),
        before_alice
    );
}

#[test]
fn mentions_tracked_and_totalled() {
    let mut chat = new_chat();
    chat.join_chat("bob".to_string(), "Bob".to_string(), false).unwrap();
    chat.send_message(
        "alice".to_string(),
        &general(),
        "hey @bob".to_string(),
        vec!["bob".to_string()],
        None,
        4,
    )
    .unwrap();
    assert_eq!(chat.get_channel_mention_count(&"bob".to_string(), &general()), 1);
    assert_eq!(chat.get_total_mention_count(&"bob".to_string()), 1);
    assert_eq!(chat.get_total_unread_count(&"bob".to_string()), 1);
    chat.mark_messages_as_read("bob".to_string(), &general(), 4).unwrap();
    assert_eq!(chat.get_channel_mention_count(&"bob".to_string(), &general()), 0);
    assert_eq!(chat.get_total_unread_count(&"bob".to_string()), 0);
}

#[test]
fn error_messages_read_as_documented() {
    assert_eq!(ChatError::ChannelNotFound.message(), "Channel not found");
    assert_eq!(ChatError::UsernameEmpty.message(), "Username cannot be empty");
    assert_eq!(
        ChatError::NoDeletePermission.message(),
        "You don't have permission to delete this message"
    );
    assert_eq!(ChatError::DMAlreadyExists.message(), "DM already exists");
}

#[test]
fn validate_channel_membership_reports_not_member() {
    let mut chat = new_chat();
    chat.join_chat("bob".to_string(), "Bob".to_string(), false).unwrap();
    assert!(chat
        .validate_channel_membership(&general(), &"bob".to_string())
        .is_ok());
    chat.create_channel(
        "alice".to_string(),
        Channel { name: "dev".to_string() },
        ChannelType::Private,
        false,
        vec![],
        true,
        10,
    )
    .unwrap();
    assert_eq!(
        chat.validate_channel_membership(
            &Channel { name: "dev".to_string() },
            &"bob".to_string()
        ),
        Err(ChatError::NotMember)
    );
}

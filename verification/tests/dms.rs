//! The direct-message handshake, per-conversation bookkeeping, and the
//! symmetric create/delete of conversation records.

use curb::channel::Channel;
use curb::errors::ChatError;
use curb::state::CurbChat;

fn new_chat() -> CurbChat {
    let mut chat = CurbChat::init(
        "alice".to_string(),
        "team".to_string(),
        vec![Channel { name: "general".to_string() }],
        0,
        false,
        None,
        Some("Alice".to_string()),
        None,
    );
    chat.join_chat("bob".to_string(), "Bob".to_string(), false).unwrap();
    chat
}

#[test]
fn create_dm_writes_both_sides() {
    let mut chat = new_chat();
    chat.create_dm_chat(
        "alice".to_string(),
        "bob".to_string(),
        "ctx-1".to_string(),
        "payload".to_string(),
        100,
    )
    .unwrap();
    let alices = chat.get_dms(&"alice".to_string());
    let bobs = chat.get_dms(&"bob".to_string());
    assert_eq!(alices.len(), 1);
    assert_eq!(bobs.len(), 1);
    assert_eq!(alices[0].other_identity_old, "bob");
    assert_eq!(bobs[0].other_identity_old, "alice");
    assert_eq!(alices[0].created_by, "alice");
    assert_eq!(bobs[0].created_by, "alice");
    // The inviter's side is joined from the start; the invitee's is not.
    assert!(alices[0].did_join);
    assert!(!bobs[0].did_join);
    assert_eq!(alices[0].context_id, "ctx-1");
    assert_eq!(bobs[0].context_id, "ctx-1");
    assert_eq!(alices[0].own_username, "Alice");
    assert_eq!(alices[0].other_username, "Bob");
}

#[test]
fn create_dm_rejects_self_and_duplicates() {
    let mut chat = new_chat();
    assert_eq!(
        chat.create_dm_chat(
            "alice".to_string(),
            "alice".to_string(),
            "c".to_string(),
            "p".to_string(),
            1,
        ),
        Err(ChatError::SelfDM)
    );
    chat.create_dm_chat(
        "alice".to_string(),
        "bob".to_string(),
        "c".to_string(),
        "p".to_string(),
        1,
    )
    .unwrap();
    assert_eq!(
        chat.create_dm_chat(
            "alice".to_string(),
            "bob".to_string(),
            "c2".to_string(),
            "p".to_string(),
            2,
        ),
        Err(ChatError::DMAlreadyExists)
    );
    // The duplicate is caught from the other side too.
    assert_eq!(
        chat.create_dm_chat(
            "bob".to_string(),
            "alice".to_string(),
            "c3".to_string(),
            "p".to_string(),
            3,
        ),
        Err(ChatError::DMAlreadyExists)
    );
}

#[test]
fn delete_dm_removes_both_sides() {
    let mut chat = new_chat();
    chat.create_dm_chat(
        "alice".to_string(),
        "bob".to_string(),
        "c".to_string(),
        "p".to_string(),
        1,
    )
    .unwrap();
    chat.delete_dm("alice".to_string(), "bob".to_string()).unwrap();
    assert_eq!(chat.get_dms(&"alice".to_string()).len(), 0);
    assert_eq!(chat.get_dms(&"bob".to_string()).len(), 0);
    assert_eq!(
        chat.delete_dm("alice".to_string(), "bob".to_string()),
        Err(ChatError::DMNotFound)
    );
}

#[test]
fn handshake_rotates_identities_across_records() {
    let mut chat = new_chat();
    chat.create_dm_chat(
        "alice".to_string(),
        "bob".to_string(),
        "c".to_string(),
        "p".to_string(),
        1,
    )
    .unwrap();
    // Alice rotates her own identity; Bob's record learns her new one.
    chat.update_new_identity("alice".to_string(), "bob".to_string(), "alice-rot".to_string())
        .unwrap();
    let alices = chat.get_dms(&"alice".to_string());
    let bobs = chat.get_dms(&"bob".to_string());
    assert_eq!(alices[0].own_identity, Some("alice-rot".to_string()));
    assert_eq!(bobs[0].other_identity_new, Some("alice-rot".to_string()));
    assert_eq!(
        chat.update_new_identity(
            "alice".to_string(),
            "carol".to_string(),
            "x".to_string()
        ),
        Err(ChatError::DMNotFound)
    );
}

#[test]
fn invitation_payload_propagates_and_needs_inviter() {
    let mut chat = new_chat();
    chat.create_dm_chat(
        "alice".to_string(),
        "bob".to_string(),
        "c".to_string(),
        "p0".to_string(),
        1,
    )
    .unwrap();
    // Only the inviter may propagate the payload.
    assert_eq!(
        chat.update_invitation_payload(
            "bob".to_string(),
            "alice".to_string(),
            "p1".to_string()
        ),
        Err(ChatError::NotInviter)
    );
    chat.update_invitation_payload("alice".to_string(), "bob".to_string(), "p1".to_string())
        .unwrap();
    let alices = chat.get_dms(&"alice".to_string());
    let bobs = chat.get_dms(&"bob".to_string());
    assert_eq!(alices[0].invitation_payload, "p1");
    assert_eq!(bobs[0].invitation_payload, "p1");
}

#[test]
fn acceptance_joins_the_invitee_side() {
    let mut chat = new_chat();
    chat.create_dm_chat(
        "alice".to_string(),
        "bob".to_string(),
        "c".to_string(),
        "p".to_string(),
        1,
    )
    .unwrap();
    assert!(!chat.get_dms(&"bob".to_string())[0].did_join);
    chat.accept_invitation("bob".to_string(), "alice".to_string()).unwrap();
    assert!(chat.get_dms(&"bob".to_string())[0].did_join);
    assert_eq!(
        chat.accept_invitation("carol".to_string(), "alice".to_string()),
        Err(ChatError::DMNotFound)
    );
}

#[test]
fn hash_pair_detects_new_messages() {
    let mut chat = new_chat();
    chat.create_dm_chat(
        "alice".to_string(),
        "bob".to_string(),
        "c".to_string(),
        "p".to_string(),
        1,
    )
    .unwrap();
    assert!(!chat.dm_has_new_messages(&"alice".to_string(), &"bob".to_string()));
    chat.update_dm_hashes(&"alice".to_string(), &"bob".to_string(), "h1");
    assert!(chat.dm_has_new_messages(&"alice".to_string(), &"bob".to_string()));
    chat.mark_dm_as_read("alice".to_string(), "bob".to_string()).unwrap();
    assert!(!chat.dm_has_new_messages(&"alice".to_string(), &"bob".to_string()));
    let rec = chat
        .get_dm_with_status(&"alice".to_string(), &"bob".to_string())
        .unwrap();
    assert_eq!(rec.new_hash, "h1");
    assert_eq!(rec.old_hash, "h1");
}

#[test]
fn unread_counters_and_totals() {
    let mut chat = new_chat();
    chat.create_dm_chat(
        "alice".to_string(),
        "bob".to_string(),
        "c".to_string(),
        "p".to_string(),
        1,
    )
    .unwrap();
    assert_eq!(
        chat.get_dm_unread_count(&"alice".to_string(), &"bob".to_string()),
        Ok(0)
    );
    assert_eq!(
        chat.get_dm_unread_count(&"carol".to_string(), &"bob".to_string()),
        Err(ChatError::DMNotFound)
    );
    assert_eq!(chat.get_total_dm_unread_count(&"alice".to_string()), 0);
    chat.mark_all_dms_as_read("alice".to_string()).unwrap();
    assert_eq!(chat.get_total_dm_unread_count(&"alice".to_string()), 0);
}

#[test]
fn identity_by_context_prefers_rotated() {
    let mut chat = new_chat();
    chat.create_dm_chat(
        "alice".to_string(),
        "bob".to_string(),
        "ctx-9".to_string(),
        "p".to_string(),
        1,
    )
    .unwrap();
    let id = chat
        .get_dm_identity_by_context(&"alice".to_string(), &"ctx-9".to_string())
        .unwrap();
    assert_eq!(id, "bob");
    assert_eq!(
        chat.get_dm_identity_by_context(&"alice".to_string(), &"ctx-0".to_string()),
        Err(ChatError::DMNotFound)
    );
}

#[test]
fn hash_update_on_missing_conversation_is_a_no_op() {
    let mut chat = new_chat();
    chat.update_dm_hashes(&"alice".to_string(), &"bob".to_string(), "h1");
    assert!(!chat.dm_has_new_messages(&"alice".to_string(), &"bob".to_string()));
    assert!(matches!(
        chat.get_dm_with_status(&"alice".to_string(), &"bob".to_string()),
        Err(ChatError::DMNotFound)
    ));
    assert!(matches!(
        chat.mark_dm_as_read("alice".to_string(), "bob".to_string()),
        Err(ChatError::DMNotFound)
    ));
}

#[test]
fn dm_chat_initialization_enrolls_both_participants() {
    let chat = CurbChat::init(
        "alice".to_string(),
        "alice-bob".to_string(),
        vec![Channel { name: "direct".to_string() }],
        5,
        true,
        Some("bob".to_string()),
        Some("Alice".to_string()),
        Some("Bob".to_string()),
    );
    assert!(chat.is_channel_member(&"direct".to_string(), &"alice".to_string()));
    assert!(chat.is_channel_member(&"direct".to_string(), &"bob".to_string()));
    let members = chat.get_chat_members();
    assert_eq!(members.len(), 2);
}

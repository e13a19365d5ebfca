//! Messages, their identifiers, and the thread entries that own replies.
//!
//! A message's scalar fields are last-writer-wins registers: on replica
//! reconciliation each field keeps the later write independently of the
//! others.  Its collections (mention list, reaction map, reply thread) grow
//! append-only and are merged by the storage collaborator, so record
//! reconciliation here leaves them untouched.

use vstd::prelude::*;
use crate::assoc::uniq_keys;
use crate::assoc::uniq_strs;
use crate::lww::LwwReg;
use crate::lww::lww_merged;

verus! {

/// A member's opaque, string-representable identifier.
pub type UserId = String;

/// A message identifier, derived deterministically at send time from the
/// owning channel and the running message count; immutable once assigned.
pub struct MessageId {
    /// The channel the message was sent to.
    pub channel: String,
    /// Position of the message (or of its thread parent) in the channel's
    /// message sequence at send time.
    pub index: u64,
    /// For a thread reply: its position in the parent's reply sequence at
    /// send time.  Top-level messages carry no reply position.
    pub reply: Option<u64>,
}

impl MessageId {
    /// Whether two identifiers denote the same message.
    pub open spec fn matches_spec(self, o: MessageId) -> bool {
        self.channel@ == o.channel@ && self.index == o.index && self.reply == o.reply
    }

    /// Compares identifiers by content.
    pub fn same_as(&self, o: &MessageId) -> (r: bool)
        ensures
            r == self.matches_spec(*o),
    {
        if self.index != o.index {
            return false;
        }
        let replies_equal = match (self.reply, o.reply) {
            (Option::None, Option::None) => true,
            (Option::Some(a), Option::Some(b)) => a == b,
            _ => false,
        };
        replies_equal && self.channel == o.channel
    }

    /// An exact copy of this identifier.
    pub fn duplicate(&self) -> (r: MessageId)
        ensures
            r == *self,
    {
        MessageId { channel: self.channel.clone(), index: self.index, reply: self.reply }
    }
}

/// One message: scalar fields under field-level last-writer-wins, plus its
/// reaction map (label, by content, to the distinct reactors).
pub struct Message {
    /// When the message was sent.
    pub timestamp: LwwReg<u64>,
    /// Who sent it.
    pub sender: LwwReg<UserId>,
    /// The sender's display name, captured at send time.
    pub sender_username: LwwReg<String>,
    /// The members mentioned by the message.
    pub mentions: Vec<UserId>,
    /// The mentioned members' display names, captured at send time.
    pub mentions_usernames: Vec<String>,
    /// The message's immutable identifier.
    pub id: LwwReg<MessageId>,
    /// The message text; cleared when the message is deleted.
    pub text: LwwReg<String>,
    /// When the message was last edited; zero means never.
    pub edited_on: LwwReg<u64>,
    /// Whether the message has been deleted (a tombstone keeps its slot).
    pub deleted: LwwReg<bool>,
    /// The name of the owning channel.
    pub group: LwwReg<String>,
    /// Reaction label to the distinct reactors who applied it.
    pub reactions: Vec<(String, Vec<String>)>,
}

/// A reaction map is well-formed when its labels are distinct by content
/// and each label's reactors are distinct by content.
pub open spec fn reactions_wf(rs: Seq<(String, Vec<String>)>) -> bool {
    uniq_keys(rs) && forall|i: int| 0 <= i < rs.len() ==> uniq_strs(#[trigger] rs[i].1@)
}

impl Message {
    /// Well-formedness: the reaction map is a map of sets.
    pub open spec fn wf(self) -> bool {
        reactions_wf(self.reactions@)
    }
}

/// The message record after reconciling `a` with a replica's copy `b`:
/// each scalar field keeps the later write; the collections (mentions,
/// reactions) are merged by the storage collaborator, so they stay `a`'s.
pub open spec fn msg_merged(a: Message, b: Message) -> Message {
    Message {
        timestamp: lww_merged(a.timestamp, b.timestamp),
        sender: lww_merged(a.sender, b.sender),
        sender_username: lww_merged(a.sender_username, b.sender_username),
        mentions: a.mentions,
        mentions_usernames: a.mentions_usernames,
        id: lww_merged(a.id, b.id),
        text: lww_merged(a.text, b.text),
        edited_on: lww_merged(a.edited_on, b.edited_on),
        deleted: lww_merged(a.deleted, b.deleted),
        group: lww_merged(a.group, b.group),
        reactions: a.reactions,
    }
}

impl Message {
    /// Reconciles this message with a replica's copy, field by field: every
    /// scalar register keeps its later write.  Collection fields are the
    /// storage collaborator's to merge and are left as they are.
    pub fn merge_from(&mut self, other: Message)
        ensures
            *final(self) == msg_merged(*old(self), other),
    {
        self.timestamp.merge_from(other.timestamp);
        self.sender.merge_from(other.sender);
        self.sender_username.merge_from(other.sender_username);
        self.id.merge_from(other.id);
        self.text.merge_from(other.text);
        self.edited_on.merge_from(other.edited_on);
        self.deleted.merge_from(other.deleted);
        self.group.merge_from(other.group);
    }
}

/// A top-level channel message together with the reply thread it owns.
/// Replies are themselves messages; they own reactions but no thread of
/// their own — a reply's parent must be a direct channel message.
pub struct MessageEntry {
    /// The channel message itself.
    pub message: Message,
    /// Its thread: replies in send order.
    pub replies: Vec<Message>,
}

impl MessageEntry {
    /// Well-formedness: the message and every reply are well-formed, and
    /// the reply count stays within the response type's range.
    pub open spec fn wf(self) -> bool {
        self.message.wf() && self.replies@.len() <= u32::MAX
            && forall|i: int| 0 <= i < self.replies@.len() ==> (#[trigger] self.replies@[i]).wf()
    }
}

} // verus!

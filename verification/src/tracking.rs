//! Per-member, per-channel unread and mention records.
//!
//! Both record kinds reconcile across replicas as whole records under
//! last-writer-wins: the record with the later timestamp supersedes the
//! other (ties keep the incoming copy, mirroring the store's bias).

use vstd::prelude::*;
use crate::message::MessageId;

verus! {

/// Unread bookkeeping for one member in one channel.
#[derive(Clone, Copy, PartialEq, Eq, Structural, Debug)]
pub struct UserChannelUnread {
    /// Timestamp up to which the member has read the channel.
    pub last_read_timestamp: u64,
    /// Number of messages the member has not read yet.
    pub unread_count: u32,
}

/// The unread record that survives reconciliation: a later (or equally
/// late) read supersedes an earlier one.
pub open spec fn unread_merged(a: UserChannelUnread, b: UserChannelUnread) -> UserChannelUnread {
    if b.last_read_timestamp >= a.last_read_timestamp {
        b
    } else {
        a
    }
}

impl UserChannelUnread {
    /// Reconciles this record with a replica's copy: the later read wins.
    pub fn merge_from(&mut self, other: UserChannelUnread)
        ensures
            *final(self) == unread_merged(*old(self), other),
    {
        if other.last_read_timestamp >= self.last_read_timestamp {
            *self = other;
        }
    }
}

/// One mention of a member: which message mentioned them, how, and when.
pub struct UserChannelMentions {
    /// Identifier of the mentioning message.
    pub message_id: MessageId,
    /// Number of mentions this entry stands for.
    pub mention_count: u32,
    /// The mention markers used (a direct mention, a broadcast marker).
    pub mention_types: Vec<String>,
    /// When the mention occurred.
    pub timestamp: u64,
}

/// The mention record that survives reconciliation: the later mention wins.
pub open spec fn mentions_merged(
    a: UserChannelMentions,
    b: UserChannelMentions,
) -> UserChannelMentions {
    if b.timestamp >= a.timestamp {
        b
    } else {
        a
    }
}

impl UserChannelMentions {
    /// A copy of this record: equal field by field, the mention markers
    /// equal by content.
    pub fn duplicate(&self) -> (r: UserChannelMentions)
        ensures
            r.message_id == self.message_id,
            r.mention_count == self.mention_count,
            r.mention_types@ == self.mention_types@,
            r.timestamp == self.timestamp,
    {
        let mut types: Vec<String> = Vec::new();
        let mut i: usize = 0;
        while i < self.mention_types.len()
            invariant
                i <= self.mention_types@.len(),
                types@ == self.mention_types@.subrange(0, i as int),
            decreases self.mention_types@.len() - i,
        {
            types.push(self.mention_types[i].clone());
            proof {
                assert(types@ =~= self.mention_types@.subrange(0, i as int + 1));
            }
            i += 1;
        }
        proof {
            assert(types@ =~= self.mention_types@);
        }
        UserChannelMentions {
            message_id: self.message_id.duplicate(),
            mention_count: self.mention_count,
            mention_types: types,
            timestamp: self.timestamp,
        }
    }

    /// Reconciles this record with a replica's copy: the later mention wins.
    pub fn merge_from(&mut self, other: UserChannelMentions)
        ensures
            *final(self) == mentions_merged(*old(self), other),
    {
        if other.timestamp >= self.timestamp {
            *self = other;
        }
    }
}

} // verus!

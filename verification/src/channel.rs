//! Channels: identity, metadata, and the state each channel owns.
//!
//! A channel owns its member set, its message sequence and the per-member
//! tracking records; a member's presence in a channel is determined solely
//! by that channel's own member set.

use vstd::prelude::*;
use crate::assoc::has_key;
use crate::assoc::has_str;
use crate::assoc::uniq_keys;
use crate::assoc::uniq_strs;
use crate::message::MessageEntry;
use crate::message::UserId;
use crate::tracking::UserChannelMentions;
use crate::tracking::UserChannelUnread;

verus! {

/// The membership class of a channel.
#[derive(Clone, Copy, PartialEq, Eq, Structural, Debug)]
pub enum ChannelType {
    /// Anyone in the chat may join on their own.
    Public,
    /// Members join by invitation only.
    Private,
    /// Created at chat initialization; every new member is auto-enrolled
    /// and nobody can leave.
    Default,
}

impl ChannelType {
    /// Reconciles with a replica's copy.  The channel type is assumed
    /// coordinated, so the incoming value is accepted unconditionally.
    pub fn merge_from(&mut self, other: ChannelType)
        ensures
            *final(self) == other,
    {
        *self = other;
    }
}

/// A channel's identity: its unique name.
pub struct Channel {
    /// The channel's name, the unique key of the channel registry.
    pub name: String,
}

/// Immutable facts about a channel, fixed at creation.
pub struct ChannelMetadata {
    /// When the channel was created.
    pub created_at: u64,
    /// Who created it.
    pub created_by: UserId,
    /// The creator's display name at creation time, when known.
    pub created_by_username: Option<String>,
    /// Members restricted to reading.
    pub read_only: Vec<UserId>,
    /// The channel's moderators.
    pub moderators: Vec<UserId>,
    /// Whether members may post links.
    pub links_allowed: bool,
}

/// The projection of a channel's metadata that read queries expose.
pub struct PublicChannelMetadata {
    /// When the channel was created.
    pub created_at: u64,
    /// Who created it.
    pub created_by: UserId,
    /// The creator's display name at creation time.
    pub created_by_username: String,
    /// Whether members may post links.
    pub links_allowed: bool,
}

/// Everything a channel owns: type, metadata, members, messages and the
/// per-member tracking records.
pub struct ChannelInfo {
    /// The channel's messages in send order, each with its reply thread.
    pub messages: Vec<MessageEntry>,
    /// The channel's membership class; immutable after creation.
    pub channel_type: ChannelType,
    /// Whether the whole channel is read-only.
    pub read_only: bool,
    /// Creation facts.
    pub meta: ChannelMetadata,
    /// The channel's members, distinct by content.
    pub members: Vec<UserId>,
    /// Per-member unread record.
    pub unread_tracking: Vec<(UserId, UserChannelUnread)>,
    /// Per-member mention records, in mention order.
    pub mentions_tracking: Vec<(UserId, Vec<UserChannelMentions>)>,
}

impl ChannelInfo {
    /// Well-formedness of everything the channel owns:
    /// members distinct, tracking maps keyed uniquely, every member
    /// tracked, every message well-formed, message and tracking counts
    /// within the ranges the response types assume.
    pub open spec fn wf(self) -> bool {
        &&& uniq_strs(self.members@)
        &&& uniq_keys(self.unread_tracking@)
        &&& uniq_keys(self.mentions_tracking@)
        &&& self.messages@.len() <= u32::MAX
        &&& forall|i: int| 0 <= i < self.messages@.len() ==> (#[trigger] self.messages@[i]).wf()
        &&& forall|i: int|
            0 <= i < self.unread_tracking@.len()
                ==> (#[trigger] self.unread_tracking@[i]).1.unread_count <= self.messages@.len()
        &&& forall|i: int|
            0 <= i < self.mentions_tracking@.len()
                ==> (#[trigger] self.mentions_tracking@[i]).1@.len() <= self.messages@.len()
        &&& forall|u: Seq<char>|
            has_str(self.members@, u)
                ==> has_key(self.unread_tracking@, u) && has_key(self.mentions_tracking@, u)
    }

    /// Reconciles channel facts with a replica's copy, as the record-level
    /// merge rule prescribes: the read-only and links flags are monotonic
    /// (once set they stay set), creation time keeps the later value, a
    /// missing creator name is filled in from the other side, and the
    /// channel type stays as it is (it is immutable after creation).
    /// Everything the channel owns beyond these facts is merged by the
    /// storage collaborator and left untouched here.
    pub fn merge_from(&mut self, other: ChannelInfo)
        ensures
            final(self).read_only == (old(self).read_only || other.read_only),
            final(self).meta.links_allowed == (old(self).meta.links_allowed
                || other.meta.links_allowed),
            final(self).meta.created_at == if other.meta.created_at > old(self).meta.created_at {
                other.meta.created_at
            } else {
                old(self).meta.created_at
            },
            final(self).meta.created_by_username == if old(self).meta.created_by_username
                is None {
                other.meta.created_by_username
            } else {
                old(self).meta.created_by_username
            },
            final(self).channel_type == old(self).channel_type,
            final(self).messages == old(self).messages,
            final(self).members == old(self).members,
            final(self).unread_tracking == old(self).unread_tracking,
            final(self).mentions_tracking == old(self).mentions_tracking,
            final(self).meta.created_by == old(self).meta.created_by,
            final(self).meta.read_only == old(self).meta.read_only,
            final(self).meta.moderators == old(self).meta.moderators,
    {
        self.read_only = self.read_only || other.read_only;
        self.meta.links_allowed = self.meta.links_allowed || other.meta.links_allowed;
        if other.meta.created_at > self.meta.created_at {
            self.meta.created_at = other.meta.created_at;
        }
        if self.meta.created_by_username.is_none() {
            self.meta.created_by_username = other.meta.created_by_username;
        }
    }
}

} // verus!

//! Read-path response shapes.
//!
//! Queries flatten the replicated records into plain response values: a
//! message with its reactions and thread summary, a page of such messages,
//! and a channel summary with the caller's unread and mention counts.

use vstd::prelude::*;
use crate::channel::ChannelType;
use crate::message::MessageId;
use crate::message::UserId;

verus! {

/// A message as read queries expose it, with reactions and a summary of
/// its thread.
pub struct MessageWithReactions {
    /// When the message was sent.
    pub timestamp: u64,
    /// Who sent it.
    pub sender: UserId,
    /// The sender's display name, captured at send time.
    pub sender_username: String,
    /// The members mentioned by the message.
    pub mentions: Vec<UserId>,
    /// The mentioned members' display names.
    pub mentions_usernames: Vec<String>,
    /// The message's identifier.
    pub id: MessageId,
    /// The message text (empty once deleted).
    pub text: String,
    /// When the message was last edited; zero means never.
    pub edited_on: u64,
    /// Reaction label to its reactors; absent when no label has reactors.
    pub reactions: Option<Vec<(String, Vec<String>)>>,
    /// Whether the message has been deleted.
    pub deleted: bool,
    /// Number of replies in the message's thread.
    pub thread_count: u32,
    /// Timestamp of the thread's latest reply; zero when the thread is
    /// empty.
    pub thread_last_timestamp: u64,
    /// The name of the owning channel.
    pub group: String,
}

/// One page of messages.
pub struct FullMessageResponse {
    /// How many messages the paginated sequence holds in total.
    pub total_count: u32,
    /// The page's messages, in chronological order.
    pub messages: Vec<MessageWithReactions>,
    /// The offset this page was requested at, counted back from the most
    /// recent message.
    pub start_position: u32,
}

/// A channel summary from one caller's point of view.
pub struct PublicChannelInfo {
    /// The channel's membership class.
    pub channel_type: ChannelType,
    /// Whether the whole channel is read-only.
    pub read_only: bool,
    /// When the channel was created.
    pub created_at: u64,
    /// The creator's display name.
    pub created_by_username: String,
    /// Who created the channel.
    pub created_by: UserId,
    /// Whether members may post links.
    pub links_allowed: bool,
    /// The caller's unread count in this channel.
    pub unread_count: u32,
    /// The caller's last-read timestamp in this channel.
    pub last_read_timestamp: u64,
    /// How many unread mentions the caller has in this channel.
    pub unread_mention_count: u32,
}

} // verus!

//! Notifications emitted once per state-changing operation.
//!
//! The core itself only computes state transitions; the host's event bus
//! delivers these values.  The surrounding application constructs the
//! matching event after each successful mutating call.

use vstd::prelude::*;
use crate::message::MessageId;
use crate::message::UserId;

verus! {

/// Payload of a message-sent notification.
pub struct MessageSentEvent {
    /// The identifier assigned to the new message.
    pub message_id: MessageId,
    /// The channel the message was sent to.
    pub channel: String,
}

/// One notification per state-changing operation.
pub enum Event {
    /// The chat was initialized, with its name.
    ChatInitialized(String),
    /// A member joined the chat.
    ChatJoined(UserId),
    /// A channel was created, by name.
    ChannelCreated(String),
    /// A member was invited into a channel.
    ChannelInvited(UserId),
    /// The caller left a channel, by name.
    ChannelLeft(String),
    /// A message was sent to a channel.
    MessageSent(MessageSentEvent),
    /// A reply was added to a thread.
    MessageSentThread(MessageSentEvent),
    /// A message arrived from a peer.
    MessageReceived(String),
    /// The caller joined a channel, by name.
    ChannelJoined(String),
    /// A direct-message conversation was created, with its context.
    DMCreated(String),
    /// A reaction was toggled on a message.
    ReactionUpdated(MessageId),
    /// A side of a conversation rotated its identity.
    NewIdentityUpdated(UserId),
    /// The invitation payload of a conversation was updated.
    InvitationPayloadUpdated(String),
    /// The invitee accepted a conversation invitation.
    InvitationAccepted(String),
    /// A direct-message conversation was deleted.
    DMDeleted(UserId),
}

} // verus!

//! The closed set of user-facing failures.
//!
//! Every mutating or querying operation of the chat core either succeeds or
//! reports exactly one of these conditions; no operation corrupts state on
//! failure.

use vstd::prelude::*;

verus! {

/// A typed chat operation failure.
#[derive(Clone, Copy, Debug, PartialEq, Eq, Structural)]
pub enum ChatError {
    /// The caller is already a member of the chat.
    AlreadyMember,
    /// The caller is not a member of the channel.
    NotMember,
    /// The named user is not a member of the chat.
    NotChatMember,
    /// No channel of that name exists.
    ChannelNotFound,
    /// A channel of that name already exists.
    ChannelExists,
    /// The caller is already a member of the channel.
    AlreadyChannelMember,
    /// The invited user is already a member of the channel.
    AlreadyChannelMemberInvite,
    /// Only public channels can be joined without an invitation.
    JoinRestricted,
    /// Default channels cannot be left.
    CannotLeaveDefault,
    /// The operation is not available in a direct-message chat.
    ForbiddenInDM,
    /// The display name is empty.
    UsernameEmpty,
    /// The display name exceeds the length limit.
    UsernameTooLong,
    /// Another member already uses this display name.
    UsernameTaken,
    /// No message with that identifier exists.
    MessageNotFound,
    /// No message with that identifier exists in the thread.
    MessageNotFoundInThread,
    /// The thread parent could not be resolved.
    ThreadNotFound,
    /// Only the author may edit a message.
    NotOwnMessage,
    /// The caller may not delete this message.
    NoDeletePermission,
    /// A member cannot open a direct-message conversation with themselves.
    SelfDM,
    /// A direct-message conversation with this peer already exists.
    DMAlreadyExists,
    /// No direct-message conversation with this peer exists.
    DMNotFound,
    /// Only the inviter may perform this handshake step.
    NotInviter,
}

impl ChatError {
    /// The text each failure reads as.
    pub open spec fn message_view(self) -> Seq<char> {
        match self {
            ChatError::AlreadyMember => "Already a member of the chat"@,
            ChatError::NotMember => "You are not a member of this channel"@,
            ChatError::NotChatMember => "User is not a member of the chat"@,
            ChatError::ChannelNotFound => "Channel not found"@,
            ChatError::ChannelExists => "Channel already exists"@,
            ChatError::AlreadyChannelMember => "Already a member of this channel"@,
            ChatError::AlreadyChannelMemberInvite => "User is already a member of this channel"@,
            ChatError::JoinRestricted => "Can only join public channels"@,
            ChatError::CannotLeaveDefault => "Cannot leave default channel"@,
            ChatError::ForbiddenInDM => "Not available in a DM chat"@,
            ChatError::UsernameEmpty => "Username cannot be empty"@,
            ChatError::UsernameTooLong => "Username cannot be longer than 50 characters"@,
            ChatError::UsernameTaken => "Username is already taken"@,
            ChatError::MessageNotFound => "Message not found"@,
            ChatError::MessageNotFoundInThread => "Message not found in thread"@,
            ChatError::ThreadNotFound => "Thread not found"@,
            ChatError::NotOwnMessage => "You can only edit your own messages"@,
            ChatError::NoDeletePermission => "You don't have permission to delete this message"@,
            ChatError::SelfDM => "Cannot create DM with yourself"@,
            ChatError::DMAlreadyExists => "DM already exists"@,
            ChatError::DMNotFound => "DM does not exist"@,
            ChatError::NotInviter => "Only the inviter may do this"@,
        }
    }

    /// The user-facing message for this failure.
    pub fn message(&self) -> (r: String)
        ensures
            r@ == self.message_view(),
    {
        match self {
            ChatError::AlreadyMember => String::from_str("Already a member of the chat"),
            ChatError::NotMember => String::from_str("You are not a member of this channel"),
            ChatError::NotChatMember => String::from_str("User is not a member of the chat"),
            ChatError::ChannelNotFound => String::from_str("Channel not found"),
            ChatError::ChannelExists => String::from_str("Channel already exists"),
            ChatError::AlreadyChannelMember => String::from_str(
                "Already a member of this channel",
            ),
            ChatError::AlreadyChannelMemberInvite => String::from_str(
                "User is already a member of this channel",
            ),
            ChatError::JoinRestricted => String::from_str("Can only join public channels"),
            ChatError::CannotLeaveDefault => String::from_str("Cannot leave default channel"),
            ChatError::ForbiddenInDM => String::from_str("Not available in a DM chat"),
            ChatError::UsernameEmpty => String::from_str("Username cannot be empty"),
            ChatError::UsernameTooLong => String::from_str(
                "Username cannot be longer than 50 characters",
            ),
            ChatError::UsernameTaken => String::from_str("Username is already taken"),
            ChatError::MessageNotFound => String::from_str("Message not found"),
            ChatError::MessageNotFoundInThread => String::from_str(
                "Message not found in thread",
            ),
            ChatError::ThreadNotFound => String::from_str("Thread not found"),
            ChatError::NotOwnMessage => String::from_str("You can only edit your own messages"),
            ChatError::NoDeletePermission => String::from_str(
                "You don't have permission to delete this message",
            ),
            ChatError::SelfDM => String::from_str("Cannot create DM with yourself"),
            ChatError::DMAlreadyExists => String::from_str("DM already exists"),
            ChatError::DMNotFound => String::from_str("DM does not exist"),
            ChatError::NotInviter => String::from_str("Only the inviter may do this"),
        }
    }
}

} // verus!

//! Replicated group-chat core.
//!
//! The domain and consistency rules of a replicated group chat: channels and
//! their membership, threaded messages with reactions, per-member unread and
//! mention tracking, and the handshake that establishes private
//! direct-message conversations under rotating identities.  The replicated
//! storage engine, the host clock, the caller-identity accessor and the event
//! bus are external collaborators: every operation here takes the caller and
//! the current time as plain values and transforms one chat state into the
//! next, so the whole core is verified as a state machine over plain data.

pub mod assoc;
pub mod channel;
pub mod channel_ops;
pub mod dm;
pub mod dm_ops;
pub mod errors;
pub mod events;
pub mod init;
pub mod laws;
pub mod lww;
pub mod member_ops;
pub mod message;
pub mod message_ops;
pub mod pagination;
pub mod reaction_ops;
pub mod response;
pub mod state;
pub mod tracking;
pub mod tracking_ops;

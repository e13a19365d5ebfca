//! The chat aggregate: one replica's complete local state.
//!
//! Every operation of the core is a method on [`CurbChat`] that takes the
//! caller's identity — and, where it matters, the current time — as plain
//! values, and either transforms the state or reports a typed failure
//! leaving the state as it was.

use vstd::prelude::*;
use crate::assoc::assoc_find;
use crate::assoc::has_key;
use crate::assoc::has_str;
use crate::assoc::lemma_key_idx;
use crate::assoc::lookup;
use crate::assoc::str_contains;
use crate::assoc::uniq_keys;
use crate::assoc::uniq_strs;
use crate::channel::ChannelInfo;
use crate::dm::DMChatInfo;
use crate::dm::dm_list_wf;
use crate::message::Message;
use crate::message::UserId;

verus! {

/// One replica's chat state.
pub struct CurbChat {
    /// The chat's owner: the member who initialized it.
    pub owner: UserId,
    /// The chat's display name.
    pub name: String,
    /// When the chat was initialized.
    pub created_at: u64,
    /// Whether this chat is a direct-message conversation.
    pub is_dm: bool,
    /// The chat's members, distinct by content.
    pub members: Vec<UserId>,
    /// Each member's display name.
    pub member_usernames: Vec<(UserId, String)>,
    /// The chat's moderators.
    pub moderators: Vec<UserId>,
    /// The channel registry: name to everything the channel owns.
    pub channels: Vec<(String, ChannelInfo)>,
    /// Each member's direct-message conversation records.
    pub dm_chats: Vec<(UserId, Vec<DMChatInfo>)>,
}

impl CurbChat {
    /// Well-formedness of the whole aggregate: member and key sets are
    /// distinct by content, every channel's owned state is well-formed,
    /// and each member holds at most one conversation record per peer.
    pub open spec fn wf(self) -> bool {
        &&& uniq_strs(self.members@)
        &&& uniq_keys(self.member_usernames@)
        &&& uniq_keys(self.channels@)
        &&& forall|i: int| 0 <= i < self.channels@.len() ==> (#[trigger] self.channels@[i]).1.wf()
        &&& uniq_keys(self.dm_chats@)
        &&& forall|i: int|
            0 <= i < self.dm_chats@.len() ==> dm_list_wf((#[trigger] self.dm_chats@[i]).1@)
    }

    /// The display name recorded for `u`, or the placeholder for an
    /// unknown member.
    pub open spec fn username_view(self, u: Seq<char>) -> Seq<char> {
        if has_key(self.member_usernames@, u) {
            lookup(self.member_usernames@, u)@
        } else {
            "Unknown"@
        }
    }

    /// Looks up a member's display name; unknown members read as
    /// "Unknown".
    pub fn get_username(&self, user_id: &UserId) -> (r: String)
        requires
            self.wf(),
        ensures
            r@ == self.username_view(user_id@),
    {
        let found = assoc_find(&self.member_usernames, user_id);
        match found {
            Some(i) => {
                proof {
                    lemma_key_idx(self.member_usernames@, user_id@, i as int);
                }
                self.member_usernames[i].1.clone()
            },
            None => String::from_str("Unknown"),
        }
    }

    /// Whether `u` is a member of the channel named `c`: determined
    /// solely by that channel's own member set.
    pub open spec fn is_channel_member_spec(self, c: Seq<char>, u: Seq<char>) -> bool {
        has_key(self.channels@, c) && has_str(lookup(self.channels@, c).members@, u)
    }

    /// Whether `user_id` is a member of the channel named `channel_name`.
    pub fn is_channel_member(&self, channel_name: &String, user_id: &UserId) -> (r: bool)
        requires
            self.wf(),
        ensures
            r == self.is_channel_member_spec(channel_name@, user_id@),
    {
        let found = assoc_find(&self.channels, channel_name);
        match found {
            Some(i) => {
                proof {
                    lemma_key_idx(self.channels@, channel_name@, i as int);
                }
                str_contains(&self.channels[i].1.members, user_id)
            },
            None => false,
        }
    }

    /// Whether `u` may delete `m`: its sender, any moderator, and the
    /// chat owner may.
    pub open spec fn can_delete_spec(self, m: Message, u: Seq<char>) -> bool {
        m.sender.value@ == u || has_str(self.moderators@, u) || self.owner@ == u
    }

    /// Whether `user_id` may delete `message`.
    pub fn can_delete_message(&self, message: &Message, user_id: &UserId) -> (r: bool)
        ensures
            r == self.can_delete_spec(*message, user_id@),
    {
        if message.sender.value == *user_id {
            return true;
        }
        if str_contains(&self.moderators, user_id) {
            return true;
        }
        self.owner == *user_id
    }

    /// The chat's display name.
    pub fn get_chat_name(&self) -> (r: String)
        ensures
            r@ == self.name@,
    {
        self.name.clone()
    }

    /// The chat's members.
    pub fn get_chat_members(&self) -> (r: Vec<UserId>)
        ensures
            r@ == self.members@,
    {
        let mut result: Vec<UserId> = Vec::new();
        let mut i: usize = 0;
        while i < self.members.len()
            invariant
                i <= self.members@.len(),
                result@ == self.members@.subrange(0, i as int),
            decreases self.members@.len() - i,
        {
            result.push(self.members[i].clone());
            proof {
                assert(result@ =~= self.members@.subrange(0, i as int + 1));
            }
            i += 1;
        }
        proof {
            assert(result@ =~= self.members@);
        }
        result
    }

    /// Every member's display name, as recorded.
    pub fn get_chat_usernames(&self) -> (r: Vec<(UserId, String)>)
        ensures
            r@ == self.member_usernames@,
    {
        let mut result: Vec<(UserId, String)> = Vec::new();
        let mut i: usize = 0;
        while i < self.member_usernames.len()
            invariant
                i <= self.member_usernames@.len(),
                result@ == self.member_usernames@.subrange(0, i as int),
            decreases self.member_usernames@.len() - i,
        {
            result.push(
                (self.member_usernames[i].0.clone(), self.member_usernames[i].1.clone()),
            );
            proof {
                assert(result@ =~= self.member_usernames@.subrange(0, i as int + 1));
            }
            i += 1;
        }
        proof {
            assert(result@ =~= self.member_usernames@);
        }
        result
    }
}

} // verus!

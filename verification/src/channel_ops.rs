//! The channel lifecycle: create, join, invite, leave.
//!
//! Channels are keyed by name.  Default and public channels are visible to
//! every chat member; private channels only to their own members.  Default
//! channels cannot be left, public channels may be joined freely, private
//! channels only by invitation.

use vstd::prelude::*;
use crate::assoc::assoc_find;
use crate::assoc::has_key;
use crate::assoc::has_str;
use crate::assoc::lemma_has_str_subrange_step;
use crate::assoc::lemma_key_idx;
use crate::assoc::lemma_push_new_key;
use crate::assoc::lemma_push_new_str;
use crate::assoc::lemma_remove_key;
use crate::assoc::lemma_remove_str;
use crate::assoc::lemma_update_same_key;
use crate::assoc::lookup;
use crate::assoc::str_contains;
use crate::assoc::str_find;
use crate::assoc::uniq_strs;
use crate::channel::Channel;
use crate::channel::ChannelInfo;
use crate::channel::ChannelMetadata;
use crate::channel::ChannelType;
use crate::channel::PublicChannelMetadata;
use crate::errors::ChatError;
use crate::init::seed_tracking;
use crate::member_ops::enroll_member;
use crate::member_ops::enrolled;
use crate::message::UserId;
use crate::state::CurbChat;

verus! {

/// The union of the supplied moderators and the creator, distinct by
/// content.
fn member_set_from(moderators: &Vec<UserId>, creator: &UserId) -> (r: Vec<UserId>)
    ensures
        uniq_strs(r@),
        forall|u: Seq<char>| has_str(r@, u) == (has_str(moderators@, u) || u == creator@),
{
    let mut r: Vec<UserId> = Vec::new();
    let mut i: usize = 0;
    while i < moderators.len()
        invariant
            i <= moderators@.len(),
            uniq_strs(r@),
            forall|u: Seq<char>| has_str(r@, u) == has_str(moderators@.subrange(0, i as int), u),
        decreases moderators@.len() - i,
    {
        proof {
            lemma_has_str_subrange_step(moderators@, i as int);
        }
        let ghost before = r@;
        let present = str_contains(&r, &moderators[i]);
        if !present {
            proof {
                lemma_push_new_str(r@, moderators@[i as int]);
            }
            r.push(moderators[i].clone());
        }
        proof {
            assert forall|u: Seq<char>|
                has_str(r@, u) == has_str(moderators@.subrange(0, i as int + 1), u) by {
                if u == moderators@[i as int]@ {
                    assert(has_str(r@, u));
                    assert(has_str(moderators@.subrange(0, i as int + 1), u));
                } else {
                    if !present {
                        assert(has_str(r@, u) == has_str(before, u));
                    }
                }
            }
        }
        i += 1;
    }
    proof {
        assert(moderators@.subrange(0, moderators@.len() as int) =~= moderators@);
    }
    let ghost before_creator = r@;
    let creator_present = str_contains(&r, creator);
    if !creator_present {
        proof {
            lemma_push_new_str(r@, *creator);
        }
        r.push(creator.clone());
    }
    proof {
        assert forall|u: Seq<char>|
            has_str(r@, u) == (has_str(moderators@, u) || u == creator@) by {
            if u == creator@ {
                assert(has_str(r@, u));
            } else {
                if !creator_present {
                    assert(has_str(r@, u) == has_str(before_creator, u));
                }
            }
        }
    }
    r
}

impl CurbChat {
    /// Which rule, if any, rejects creating a channel named `cn`: channels
    /// cannot be created in a direct-message chat, and the name must be
    /// free.
    pub open spec fn create_channel_error(self, cn: Seq<char>) -> Option<ChatError> {
        if self.is_dm {
            Option::Some(ChatError::ForbiddenInDM)
        } else if has_key(self.channels@, cn) {
            Option::Some(ChatError::ChannelExists)
        } else {
            Option::None
        }
    }

    /// Creates a channel: the caller and the supplied moderators become
    /// its initial members with their tracking seeded to nothing unread
    /// and nothing mentioned; the message log starts empty.
    pub fn create_channel(
        &mut self,
        caller: UserId,
        channel: Channel,
        channel_type: ChannelType,
        read_only: bool,
        moderators: Vec<UserId>,
        links_allowed: bool,
        now: u64,
    ) -> (r: Result<(), ChatError>)
        requires
            old(self).wf(),
        ensures
            final(self).wf(),
            match r {
                Err(e) => old(self).create_channel_error(channel.name@) == Option::Some(e)
                    && *final(self) == *old(self),
                Ok(()) => old(self).create_channel_error(channel.name@) is None,
            },
            r is Ok ==> {
                &&& final(self).channels@.len() == old(self).channels@.len() + 1
                &&& forall|k: Seq<char>|
                    k != channel.name@ ==> #[trigger] has_key(final(self).channels@, k)
                        == has_key(old(self).channels@, k)
                &&& forall|k: Seq<char>|
                    has_key(old(self).channels@, k) ==> #[trigger] lookup(
                        final(self).channels@,
                        k,
                    ) == lookup(old(self).channels@, k)
                &&& has_key(final(self).channels@, channel.name@)
                &&& {
                    let info = lookup(final(self).channels@, channel.name@);
                    &&& info.channel_type == channel_type
                    &&& info.read_only == read_only
                    &&& info.messages@.len() == 0
                    &&& info.meta.created_at == now
                    &&& info.meta.created_by == caller
                    &&& info.meta.links_allowed == links_allowed
                    &&& match info.meta.created_by_username {
                        Option::Some(n) => n@ == old(self).username_view(caller@),
                        Option::None => false,
                    }
                    &&& info.meta.moderators == moderators
                    &&& info.meta.read_only@.len() == 0
                    &&& forall|u: Seq<char>|
                        has_str(info.members@, u) == (has_str(moderators@, u) || u == caller@)
                    &&& forall|u: Seq<char>|
                        has_str(info.members@, u) ==> #[trigger] has_key(
                            info.unread_tracking@,
                            u,
                        ) && lookup(info.unread_tracking@, u).unread_count == 0 && has_key(
                            info.mentions_tracking@,
                            u,
                        ) && lookup(info.mentions_tracking@, u)@.len() == 0
                }
                &&& final(self).owner == old(self).owner
                &&& final(self).name == old(self).name
                &&& final(self).is_dm == old(self).is_dm
                &&& final(self).members == old(self).members
                &&& final(self).member_usernames == old(self).member_usernames
                &&& final(self).moderators == old(self).moderators
                &&& final(self).dm_chats == old(self).dm_chats
            },
    {
        if self.is_dm {
            return Err(ChatError::ForbiddenInDM);
        }
        if let Some(_i) = assoc_find(&self.channels, &channel.name) {
            proof {
                assert(has_key(self.channels@, channel.name@));
            }
            return Err(ChatError::ChannelExists);
        }
        let username = self.get_username(&caller);
        let chan_members = member_set_from(&moderators, &caller);
        let tracking = seed_tracking(&chan_members);
        let info = ChannelInfo {
            messages: Vec::new(),
            channel_type,
            read_only,
            meta: ChannelMetadata {
                created_at: now,
                created_by: caller,
                created_by_username: Option::Some(username),
                read_only: Vec::new(),
                moderators,
                links_allowed,
            },
            members: chan_members,
            unread_tracking: tracking.0,
            mentions_tracking: tracking.1,
        };
        let pair = (channel.name, info);
        proof {
            assert(pair.1.wf());
            lemma_push_new_key(self.channels@, pair);
        }
        self.channels.push(pair);
        Ok(())
    }

    /// Which rule, if any, rejects the caller's self-join: the channel
    /// must exist, be public, and not already count them as a member.
    pub open spec fn join_channel_error(self, caller: Seq<char>, cn: Seq<char>) -> Option<
        ChatError,
    > {
        if !has_key(self.channels@, cn) {
            Option::Some(ChatError::ChannelNotFound)
        } else if lookup(self.channels@, cn).channel_type != ChannelType::Public {
            Option::Some(ChatError::JoinRestricted)
        } else if has_str(lookup(self.channels@, cn).members@, caller) {
            Option::Some(ChatError::AlreadyChannelMember)
        } else {
            Option::None
        }
    }

    /// Joins the caller to the public channel `cn`, with fresh tracking.
    pub open spec fn join_channel_ok_rel(
        pre: CurbChat,
        post: CurbChat,
        caller: Seq<char>,
        cn: Seq<char>,
    ) -> bool {
        &&& has_key(pre.channels@, cn)
        &&& post.channels@.len() == pre.channels@.len()
        &&& forall|k: Seq<char>|
            #[trigger] has_key(post.channels@, k) == has_key(pre.channels@, k)
        &&& enrolled(lookup(pre.channels@, cn), lookup(post.channels@, cn), caller, 0)
        &&& forall|k: Seq<char>|
            k != cn && has_key(pre.channels@, k) ==> #[trigger] lookup(post.channels@, k)
                == lookup(pre.channels@, k)
        &&& post.owner == pre.owner
        &&& post.name == pre.name
        &&& post.created_at == pre.created_at
        &&& post.is_dm == pre.is_dm
        &&& post.members == pre.members
        &&& post.member_usernames == pre.member_usernames
        &&& post.moderators == pre.moderators
        &&& post.dm_chats == pre.dm_chats
    }

    /// Self-joins a public channel: fails when the channel is missing, not
    /// public, or the caller is already in it; on success adds the caller
    /// and seeds their tracking.
    pub fn join_channel(&mut self, caller: UserId, channel: &Channel) -> (r: Result<
        (),
        ChatError,
    >)
        requires
            old(self).wf(),
        ensures
            final(self).wf(),
            match r {
                Err(e) => old(self).join_channel_error(caller@, channel.name@) == Option::Some(e)
                    && *final(self) == *old(self),
                Ok(()) => old(self).join_channel_error(caller@, channel.name@) is None
                    && CurbChat::join_channel_ok_rel(*old(self), *final(self), caller@, channel.name@),
            },
    {
        let found = assoc_find(&self.channels, &channel.name);
        let i = match found {
            None => {
                return Err(ChatError::ChannelNotFound);
            },
            Some(i) => i,
        };
        proof {
            lemma_key_idx(self.channels@, channel.name@, i as int);
        }
        let is_public = match self.channels[i].1.channel_type {
            ChannelType::Public => true,
            _ => false,
        };
        if !is_public {
            return Err(ChatError::JoinRestricted);
        }
        if str_contains(&self.channels[i].1.members, &caller) {
            return Err(ChatError::AlreadyChannelMember);
        }
        let ghost pre = self.channels@;
        enroll_member(&mut self.channels[i].1, &caller, 0);
        proof {
            assert(self.channels@ == pre.update(
                i as int,
                (pre[i as int].0, self.channels@[i as int].1),
            ));
            lemma_update_same_key(
                pre,
                i as int,
                (pre[i as int].0, self.channels@[i as int].1),
            );
        }
        Ok(())
    }

    /// Which rule, if any, rejects inviting `user` into `cn`: invitations
    /// are not available in direct-message chats, the invitee must be a
    /// chat member, the channel must exist and must not already count the
    /// invitee as a member.
    pub open spec fn invite_error(self, user: Seq<char>, cn: Seq<char>) -> Option<ChatError> {
        if self.is_dm {
            Option::Some(ChatError::ForbiddenInDM)
        } else if !has_str(self.members@, user) {
            Option::Some(ChatError::NotChatMember)
        } else if !has_key(self.channels@, cn) {
            Option::Some(ChatError::ChannelNotFound)
        } else if has_str(lookup(self.channels@, cn).members@, user) {
            Option::Some(ChatError::AlreadyChannelMemberInvite)
        } else {
            Option::None
        }
    }

    /// Invites a chat member into a channel: on success adds them and
    /// seeds their tracking.
    pub fn invite_to_channel(&mut self, channel: &Channel, user_id: UserId) -> (r: Result<
        (),
        ChatError,
    >)
        requires
            old(self).wf(),
        ensures
            final(self).wf(),
            match r {
                Err(e) => old(self).invite_error(user_id@, channel.name@) == Option::Some(e)
                    && *final(self) == *old(self),
                Ok(()) => old(self).invite_error(user_id@, channel.name@) is None
                    && CurbChat::join_channel_ok_rel(*old(self), *final(self), user_id@, channel.name@),
            },
    {
        if self.is_dm {
            return Err(ChatError::ForbiddenInDM);
        }
        if !str_contains(&self.members, &user_id) {
            return Err(ChatError::NotChatMember);
        }
        let found = assoc_find(&self.channels, &channel.name);
        let i = match found {
            None => {
                return Err(ChatError::ChannelNotFound);
            },
            Some(i) => i,
        };
        proof {
            lemma_key_idx(self.channels@, channel.name@, i as int);
        }
        if str_contains(&self.channels[i].1.members, &user_id) {
            return Err(ChatError::AlreadyChannelMemberInvite);
        }
        let ghost pre = self.channels@;
        enroll_member(&mut self.channels[i].1, &user_id, 0);
        proof {
            assert(self.channels@ == pre.update(
                i as int,
                (pre[i as int].0, self.channels@[i as int].1),
            ));
            lemma_update_same_key(
                pre,
                i as int,
                (pre[i as int].0, self.channels@[i as int].1),
            );
        }
        Ok(())
    }

    /// Which rule, if any, rejects the caller leaving `cn`: leaving is not
    /// available in direct-message chats, the channel must exist, default
    /// channels cannot be left, and the caller must be a member.
    pub open spec fn leave_channel_error(self, caller: Seq<char>, cn: Seq<char>) -> Option<
        ChatError,
    > {
        if self.is_dm {
            Option::Some(ChatError::ForbiddenInDM)
        } else if !has_key(self.channels@, cn) {
            Option::Some(ChatError::ChannelNotFound)
        } else if lookup(self.channels@, cn).channel_type == ChannelType::Default {
            Option::Some(ChatError::CannotLeaveDefault)
        } else if !has_str(lookup(self.channels@, cn).members@, caller) {
            Option::Some(ChatError::NotMember)
        } else {
            Option::None
        }
    }

    /// Leaves a channel: on success removes the caller's membership and
    /// clears their tracking records for the channel.
    pub fn leave_channel(&mut self, caller: UserId, channel: &Channel) -> (r: Result<
        (),
        ChatError,
    >)
        requires
            old(self).wf(),
        ensures
            final(self).wf(),
            match r {
                Err(e) => old(self).leave_channel_error(caller@, channel.name@) == Option::Some(e)
                    && *final(self) == *old(self),
                Ok(()) => old(self).leave_channel_error(caller@, channel.name@) is None,
            },
            r is Ok ==> {
                &&& forall|k: Seq<char>|
                    #[trigger] has_key(final(self).channels@, k) == has_key(old(self).channels@, k)
                &&& forall|k: Seq<char>|
                    k != channel.name@ && has_key(old(self).channels@, k) ==> #[trigger] lookup(
                        final(self).channels@,
                        k,
                    ) == lookup(old(self).channels@, k)
                &&& {
                    let oldi = lookup(old(self).channels@, channel.name@);
                    let newi = lookup(final(self).channels@, channel.name@);
                    &&& forall|x: Seq<char>|
                        has_str(newi.members@, x) == (has_str(oldi.members@, x) && x != caller@)
                    &&& !has_key(newi.unread_tracking@, caller@)
                    &&& !has_key(newi.mentions_tracking@, caller@)
                    &&& forall|x: Seq<char>|
                        x != caller@ ==> #[trigger] has_key(newi.unread_tracking@, x) == has_key(
                            oldi.unread_tracking@,
                            x,
                        ) && has_key(newi.mentions_tracking@, x) == has_key(
                            oldi.mentions_tracking@,
                            x,
                        )
                    &&& forall|x: Seq<char>|
                        x != caller@ && has_key(oldi.unread_tracking@, x) ==> #[trigger] lookup(
                            newi.unread_tracking@,
                            x,
                        ) == lookup(oldi.unread_tracking@, x)
                    &&& forall|x: Seq<char>|
                        x != caller@ && has_key(oldi.mentions_tracking@, x) ==> #[trigger] lookup(
                            newi.mentions_tracking@,
                            x,
                        ) == lookup(oldi.mentions_tracking@, x)
                    &&& newi.messages == oldi.messages
                    &&& newi.channel_type == oldi.channel_type
                    &&& newi.read_only == oldi.read_only
                    &&& newi.meta == oldi.meta
                }
                &&& final(self).owner == old(self).owner
                &&& final(self).name == old(self).name
                &&& final(self).is_dm == old(self).is_dm
                &&& final(self).members == old(self).members
                &&& final(self).member_usernames == old(self).member_usernames
                &&& final(self).moderators == old(self).moderators
                &&& final(self).dm_chats == old(self).dm_chats
            },
    {
        if self.is_dm {
            return Err(ChatError::ForbiddenInDM);
        }
        let found = assoc_find(&self.channels, &channel.name);
        let i = match found {
            None => {
                return Err(ChatError::ChannelNotFound);
            },
            Some(i) => i,
        };
        proof {
            lemma_key_idx(self.channels@, channel.name@, i as int);
        }
        let is_default = match self.channels[i].1.channel_type {
            ChannelType::Default => true,
            _ => false,
        };
        if is_default {
            return Err(ChatError::CannotLeaveDefault);
        }
        let member_pos = str_find(&self.channels[i].1.members, &caller);
        let mp = match member_pos {
            None => {
                return Err(ChatError::NotMember);
            },
            Some(mp) => mp,
        };
        let ghost pre = self.channels@;
        let ghost oldi = self.channels@[i as int].1;
        proof {
            lemma_remove_str(oldi.members@, mp as int);
            crate::assoc::lemma_str_idx(oldi.members@, caller@, mp as int);
        }
        self.channels[i].1.members.remove(mp);
        let unread_pos = assoc_find(&self.channels[i].1.unread_tracking, &caller);
        match unread_pos {
            Some(up) => {
                proof {
                    lemma_remove_key(self.channels@[i as int].1.unread_tracking@, up as int);
                }
                self.channels[i].1.unread_tracking.remove(up);
            },
            None => {},
        }
        let mention_pos = assoc_find(&self.channels[i].1.mentions_tracking, &caller);
        match mention_pos {
            Some(mp2) => {
                proof {
                    lemma_remove_key(self.channels@[i as int].1.mentions_tracking@, mp2 as int);
                }
                self.channels[i].1.mentions_tracking.remove(mp2);
            },
            None => {},
        }
        proof {
            let newi = self.channels@[i as int].1;
            assert(newi.wf()) by {
                assert forall|x: Seq<char>| has_str(newi.members@, x) implies has_key(
                    newi.unread_tracking@,
                    x,
                ) && has_key(newi.mentions_tracking@, x) by {
                    assert(x != caller@);
                    assert(has_str(oldi.members@, x));
                }
            }
            assert(self.channels@ == pre.update(i as int, (pre[i as int].0, newi)));
            lemma_update_same_key(pre, i as int, (pre[i as int].0, newi));
        }
        Ok(())
    }
}

/// How a channel summary reads from one member's point of view.
pub open spec fn summary_ok(
    info: ChannelInfo,
    u: Seq<char>,
    out: crate::response::PublicChannelInfo,
) -> bool {
    &&& out.channel_type == info.channel_type
    &&& out.read_only == info.read_only
    &&& out.created_at == info.meta.created_at
    &&& out.created_by == info.meta.created_by
    &&& out.created_by_username@ == (match info.meta.created_by_username {
        Option::Some(n) => n@,
        Option::None => "Unknown"@,
    })
    &&& out.links_allowed == info.meta.links_allowed
    &&& out.unread_count as int == (if has_key(info.unread_tracking@, u) {
        lookup(info.unread_tracking@, u).unread_count as int
    } else {
        0int
    })
    &&& out.last_read_timestamp as int == (if has_key(info.unread_tracking@, u) {
        lookup(info.unread_tracking@, u).last_read_timestamp as int
    } else {
        0int
    })
    &&& out.unread_mention_count as int == (if has_key(info.mentions_tracking@, u) {
        lookup(info.mentions_tracking@, u)@.len() as int
    } else {
        0int
    })
}

/// The registry entries whose channels count `u` as a member, in order.
pub open spec fn visible_pairs(chs: Seq<(String, ChannelInfo)>, u: Seq<char>) -> Seq<
    (String, ChannelInfo),
>
    decreases chs.len(),
{
    if chs.len() == 0 {
        Seq::empty()
    } else {
        visible_pairs(chs.drop_last(), u) + if has_str(chs.last().1.members@, u) {
            seq![chs.last()]
        } else {
            Seq::empty()
        }
    }
}

/// The channel-visibility rule: default and public channels are visible
/// to every chat member, private channels only to their own members.
pub open spec fn chan_visible(info: ChannelInfo, u: Seq<char>) -> bool {
    info.channel_type != ChannelType::Private || has_str(info.members@, u)
}

/// The registry entries visible to `u` under the visibility rule, in
/// order.
pub open spec fn all_visible_pairs(chs: Seq<(String, ChannelInfo)>, u: Seq<char>) -> Seq<
    (String, ChannelInfo),
>
    decreases chs.len(),
{
    if chs.len() == 0 {
        Seq::empty()
    } else {
        all_visible_pairs(chs.drop_last(), u) + if chan_visible(chs.last().1, u) {
            seq![chs.last()]
        } else {
            Seq::empty()
        }
    }
}

/// The chat members missing from `chan_members`, in order.
pub open spec fn absent_members(members: Seq<String>, chan_members: Seq<String>) -> Seq<String>
    decreases members.len(),
{
    if members.len() == 0 {
        Seq::empty()
    } else {
        absent_members(members.drop_last(), chan_members) + if !has_str(
            chan_members,
            members.last()@,
        ) {
            seq![members.last()]
        } else {
            Seq::empty()
        }
    }
}

/// Summarizes one channel from one member's point of view.
fn summarize(info: &ChannelInfo, caller: &UserId) -> (out: crate::response::PublicChannelInfo)
    requires
        info.wf(),
    ensures
        summary_ok(*info, caller@, out),
{
    let upos = assoc_find(&info.unread_tracking, caller);
    let unread: (u32, u64) = match upos {
        None => (0, 0),
        Some(k) => {
            proof {
                lemma_key_idx(info.unread_tracking@, caller@, k as int);
            }
            (info.unread_tracking[k].1.unread_count, info.unread_tracking[k].1.last_read_timestamp)
        },
    };
    let mpos = assoc_find(&info.mentions_tracking, caller);
    let mentions: u32 = match mpos {
        None => 0,
        Some(k) => {
            proof {
                lemma_key_idx(info.mentions_tracking@, caller@, k as int);
            }
            info.mentions_tracking[k].1.len() as u32
        },
    };
    crate::response::PublicChannelInfo {
        channel_type: info.channel_type,
        read_only: info.read_only,
        created_at: info.meta.created_at,
        created_by_username: match &info.meta.created_by_username {
            Option::Some(n) => n.clone(),
            Option::None => String::from_str("Unknown"),
        },
        created_by: info.meta.created_by.clone(),
        links_allowed: info.meta.links_allowed,
        unread_count: unread.0,
        last_read_timestamp: unread.1,
        unread_mention_count: mentions,
    }
}

impl CurbChat {
    /// Checks that `user_id` is a member of the channel.
    pub fn validate_channel_membership(&self, channel: &Channel, user_id: &UserId) -> (r: Result<
        (),
        ChatError,
    >)
        requires
            self.wf(),
        ensures
            match r {
                Ok(()) => self.is_channel_member_spec(channel.name@, user_id@),
                Err(e) => e == ChatError::NotMember && !self.is_channel_member_spec(
                    channel.name@,
                    user_id@,
                ),
            },
    {
        if self.is_channel_member(&channel.name, user_id) {
            Ok(())
        } else {
            Err(ChatError::NotMember)
        }
    }

    /// The channels the caller belongs to, each summarized from their
    /// point of view.
    pub fn get_channels(&self, caller: &UserId) -> (r: Vec<
        (String, crate::response::PublicChannelInfo),
    >)
        requires
            self.wf(),
        ensures
            r@.len() == visible_pairs(self.channels@, caller@).len(),
            forall|j: int|
                0 <= j < r@.len() ==> (#[trigger] r@[j]).0 == visible_pairs(
                    self.channels@,
                    caller@,
                )[j].0 && summary_ok(
                    visible_pairs(self.channels@, caller@)[j].1,
                    caller@,
                    r@[j].1,
                ),
    {
        let mut out: Vec<(String, crate::response::PublicChannelInfo)> = Vec::new();
        let mut i: usize = 0;
        while i < self.channels.len()
            invariant
                self.wf(),
                i <= self.channels@.len(),
                out@.len() == visible_pairs(self.channels@.subrange(0, i as int), caller@).len(),
                forall|j: int|
                    0 <= j < out@.len() ==> (#[trigger] out@[j]).0 == visible_pairs(
                        self.channels@.subrange(0, i as int),
                        caller@,
                    )[j].0 && summary_ok(
                        visible_pairs(self.channels@.subrange(0, i as int), caller@)[j].1,
                        caller@,
                        out@[j].1,
                    ),
            decreases self.channels@.len() - i,
        {
            proof {
                assert(self.channels@.subrange(0, i as int + 1).drop_last() =~= self.channels@
                    .subrange(0, i as int));
                assert(self.channels@.subrange(0, i as int + 1).last()
                    == self.channels@[i as int]);
                assert(self.channels@[i as int].1.wf());
            }
            if str_contains(&self.channels[i].1.members, caller) {
                let summary = summarize(&self.channels[i].1, caller);
                out.push((self.channels[i].0.clone(), summary));
            }
            i += 1;
        }
        proof {
            assert(self.channels@.subrange(0, self.channels@.len() as int) =~= self.channels@);
        }
        out
    }

    /// Every channel visible to the caller — default and public channels
    /// always, private channels only when the caller is in them — each
    /// summarized from the caller's point of view.
    pub fn get_all_channels(&self, caller: &UserId) -> (r: Vec<
        (String, crate::response::PublicChannelInfo),
    >)
        requires
            self.wf(),
        ensures
            r@.len() == all_visible_pairs(self.channels@, caller@).len(),
            forall|j: int|
                0 <= j < r@.len() ==> (#[trigger] r@[j]).0 == all_visible_pairs(
                    self.channels@,
                    caller@,
                )[j].0 && summary_ok(
                    all_visible_pairs(self.channels@, caller@)[j].1,
                    caller@,
                    r@[j].1,
                ),
    {
        let mut out: Vec<(String, crate::response::PublicChannelInfo)> = Vec::new();
        let mut i: usize = 0;
        while i < self.channels.len()
            invariant
                self.wf(),
                i <= self.channels@.len(),
                out@.len() == all_visible_pairs(
                    self.channels@.subrange(0, i as int),
                    caller@,
                ).len(),
                forall|j: int|
                    0 <= j < out@.len() ==> (#[trigger] out@[j]).0 == all_visible_pairs(
                        self.channels@.subrange(0, i as int),
                        caller@,
                    )[j].0 && summary_ok(
                        all_visible_pairs(self.channels@.subrange(0, i as int), caller@)[j].1,
                        caller@,
                        out@[j].1,
                    ),
            decreases self.channels@.len() - i,
        {
            proof {
                assert(self.channels@.subrange(0, i as int + 1).drop_last() =~= self.channels@
                    .subrange(0, i as int));
                assert(self.channels@.subrange(0, i as int + 1).last()
                    == self.channels@[i as int]);
                assert(self.channels@[i as int].1.wf());
            }
            let is_private = match self.channels[i].1.channel_type {
                ChannelType::Private => true,
                _ => false,
            };
            let visible = !is_private || str_contains(&self.channels[i].1.members, caller);
            if visible {
                let summary = summarize(&self.channels[i].1, caller);
                out.push((self.channels[i].0.clone(), summary));
            }
            i += 1;
        }
        proof {
            assert(self.channels@.subrange(0, self.channels@.len() as int) =~= self.channels@);
        }
        out
    }

    /// A channel's members with their display names.
    pub fn get_channel_members(&self, channel: &Channel) -> (r: Result<
        Vec<(UserId, String)>,
        ChatError,
    >)
        requires
            self.wf(),
        ensures
            match r {
                Err(e) => e == ChatError::ChannelNotFound && !has_key(
                    self.channels@,
                    channel.name@,
                ),
                Ok(v) => has_key(self.channels@, channel.name@) && {
                    let members = lookup(self.channels@, channel.name@).members@;
                    &&& v@.len() == members.len()
                    &&& forall|j: int|
                        0 <= j < members.len() ==> (#[trigger] v@[j]).0 == members[j] && v@[
                            j
                        ].1@ == self.username_view(members[j]@)
                },
            },
    {
        let found = assoc_find(&self.channels, &channel.name);
        let ci = match found {
            None => {
                return Err(ChatError::ChannelNotFound);
            },
            Some(ci) => ci,
        };
        proof {
            lemma_key_idx(self.channels@, channel.name@, ci as int);
        }
        let mut out: Vec<(UserId, String)> = Vec::new();
        let mut i: usize = 0;
        while i < self.channels[ci].1.members.len()
            invariant
                self.wf(),
                ci < self.channels@.len(),
                i <= self.channels@[ci as int].1.members@.len(),
                out@.len() == i,
                forall|j: int|
                    0 <= j < i ==> (#[trigger] out@[j]).0 == self.channels@[
                        ci as int
                    ].1.members@[j] && out@[j].1@ == self.username_view(
                        self.channels@[ci as int].1.members@[j]@,
                    ),
            decreases self.channels@[ci as int].1.members@.len() - i,
        {
            let member = self.channels[ci].1.members[i].clone();
            let name = self.get_username(&member);
            out.push((member, name));
            i += 1;
        }
        Ok(out)
    }

    /// A channel's public metadata.
    pub fn get_channel_info(&self, channel: &Channel) -> (r: Result<
        PublicChannelMetadata,
        ChatError,
    >)
        requires
            self.wf(),
        ensures
            match r {
                Err(e) => e == ChatError::ChannelNotFound && !has_key(
                    self.channels@,
                    channel.name@,
                ),
                Ok(meta) => has_key(self.channels@, channel.name@) && {
                    let info = lookup(self.channels@, channel.name@);
                    &&& meta.created_at == info.meta.created_at
                    &&& meta.created_by == info.meta.created_by
                    &&& meta.created_by_username@ == (match info.meta.created_by_username {
                        Option::Some(n) => n@,
                        Option::None => "Unknown"@,
                    })
                    &&& meta.links_allowed == info.meta.links_allowed
                },
            },
    {
        let found = assoc_find(&self.channels, &channel.name);
        let ci = match found {
            None => {
                return Err(ChatError::ChannelNotFound);
            },
            Some(ci) => ci,
        };
        proof {
            lemma_key_idx(self.channels@, channel.name@, ci as int);
        }
        let info = &self.channels[ci].1;
        Ok(
            PublicChannelMetadata {
                created_at: info.meta.created_at,
                created_by: info.meta.created_by.clone(),
                created_by_username: match &info.meta.created_by_username {
                    Option::Some(n) => n.clone(),
                    Option::None => String::from_str("Unknown"),
                },
                links_allowed: info.meta.links_allowed,
            },
        )
    }

    /// The chat members who are not in the channel, with their display
    /// names — the candidates for an invitation.
    pub fn get_non_member_users(&self, channel: &Channel) -> (r: Result<
        Vec<(UserId, String)>,
        ChatError,
    >)
        requires
            self.wf(),
        ensures
            match r {
                Err(e) => e == ChatError::ChannelNotFound && !has_key(
                    self.channels@,
                    channel.name@,
                ),
                Ok(v) => has_key(self.channels@, channel.name@) && {
                    let absent = absent_members(
                        self.members@,
                        lookup(self.channels@, channel.name@).members@,
                    );
                    &&& v@.len() == absent.len()
                    &&& forall|j: int|
                        0 <= j < absent.len() ==> (#[trigger] v@[j]).0 == absent[j] && v@[j].1@
                            == self.username_view(absent[j]@)
                },
            },
    {
        let found = assoc_find(&self.channels, &channel.name);
        let ci = match found {
            None => {
                return Err(ChatError::ChannelNotFound);
            },
            Some(ci) => ci,
        };
        proof {
            lemma_key_idx(self.channels@, channel.name@, ci as int);
        }
        let mut out: Vec<(UserId, String)> = Vec::new();
        let mut i: usize = 0;
        while i < self.members.len()
            invariant
                self.wf(),
                ci < self.channels@.len(),
                self.channels@[ci as int].0@ == channel.name@,
                i <= self.members@.len(),
                out@.len() == absent_members(
                    self.members@.subrange(0, i as int),
                    self.channels@[ci as int].1.members@,
                ).len(),
                forall|j: int|
                    0 <= j < out@.len() ==> (#[trigger] out@[j]).0 == absent_members(
                        self.members@.subrange(0, i as int),
                        self.channels@[ci as int].1.members@,
                    )[j] && out@[j].1@ == self.username_view(
                        absent_members(
                            self.members@.subrange(0, i as int),
                            self.channels@[ci as int].1.members@,
                        )[j]@,
                    ),
            decreases self.members@.len() - i,
        {
            proof {
                assert(self.members@.subrange(0, i as int + 1).drop_last() =~= self.members@
                    .subrange(0, i as int));
                assert(self.members@.subrange(0, i as int + 1).last() == self.members@[i as int]);
            }
            if !str_contains(&self.channels[ci].1.members, &self.members[i]) {
                let member = self.members[i].clone();
                let name = self.get_username(&member);
                out.push((member, name));
            }
            i += 1;
        }
        proof {
            assert(self.members@.subrange(0, self.members@.len() as int) =~= self.members@);
            lemma_key_idx(self.channels@, channel.name@, ci as int);
        }
        Ok(out)
    }
}

} // verus!

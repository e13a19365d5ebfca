//! Chat membership: admission and display names.
//!
//! A member joins the chat once, under a display name that is non-empty,
//! at most [`MAX_USERNAME_LENGTH`] characters, and — outside
//! direct-message chats — not already in use.  Admission auto-enrolls the
//! new member in every default channel and seeds their tracking there:
//! nothing mentioned yet, and every already-sent message unread.

use vstd::prelude::*;
use crate::assoc::assoc_find;
use crate::assoc::has_key;
use crate::assoc::has_str;
use crate::assoc::lemma_key_idx;
use crate::assoc::lemma_push_new_key;
use crate::assoc::lemma_push_new_str;
use crate::assoc::lemma_update_same_key;
use crate::assoc::lookup;
use crate::assoc::str_contains;
use crate::assoc::uniq_keys;
use crate::assoc::uniq_strs;
use crate::channel::ChannelInfo;
use crate::channel::ChannelType;
use crate::errors::ChatError;
use crate::message::UserId;
use crate::state::CurbChat;
use crate::tracking::UserChannelMentions;
use crate::tracking::UserChannelUnread;

verus! {

/// Display names may not exceed this many characters.
pub const MAX_USERNAME_LENGTH: usize = 50;

/// Some member's recorded display name has content `n`.
pub open spec fn username_taken(um: Seq<(String, String)>, n: Seq<char>) -> bool {
    exists|i: int| 0 <= i < um.len() && um[i].1@ == n
}

/// Whether `c` is a whitespace character: the code points that carry the
/// White_Space property, which trimming removes.
pub open spec fn is_space_char(c: char) -> bool {
    let n = c as u32;
    ||| n == 0x09
    ||| n == 0x0A
    ||| n == 0x0B
    ||| n == 0x0C
    ||| n == 0x0D
    ||| n == 0x20
    ||| n == 0x85
    ||| n == 0xA0
    ||| n == 0x1680
    ||| (0x2000 <= n && n <= 0x200A)
    ||| n == 0x2028
    ||| n == 0x2029
    ||| n == 0x202F
    ||| n == 0x205F
    ||| n == 0x3000
}

/// A name is blank when it has no non-whitespace character; the empty
/// name is blank.
pub open spec fn is_blank(s: Seq<char>) -> bool {
    forall|i: int| 0 <= i < s.len() ==> is_space_char(#[trigger] s[i])
}

/// Whether `c` is whitespace.
fn char_is_space(c: char) -> (r: bool)
    ensures
        r == is_space_char(c),
{
    let n = c as u32;
    n == 0x09 || n == 0x0A || n == 0x0B || n == 0x0C || n == 0x0D || n == 0x20 || n == 0x85
        || n == 0xA0 || n == 0x1680 || (0x2000 <= n && n <= 0x200A) || n == 0x2028
        || n == 0x2029 || n == 0x202F || n == 0x205F || n == 0x3000
}

/// Whether the string consists of whitespace only (or is empty).
fn string_is_blank(s: &String) -> (r: bool)
    ensures
        r == is_blank(s@),
{
    let n = s.as_str().unicode_len();
    let mut i: usize = 0;
    while i < n
        invariant
            n == s@.len(),
            i <= n,
            forall|j: int| 0 <= j < i ==> is_space_char(#[trigger] s@[j]),
        decreases n - i,
    {
        let c = s.as_str().get_char(i);
        if !char_is_space(c) {
            proof {
                assert(!is_space_char(s@[i as int]));
            }
            return false;
        }
        i += 1;
    }
    true
}

/// `newi` is `oldi` with `u` enrolled: `u` added to the member set, `u`'s
/// unread record overwritten to `cnt` messages unread and nothing read,
/// `u`'s mention record overwritten to empty, and everything else — other
/// members' records included — untouched.
pub open spec fn enrolled(oldi: ChannelInfo, newi: ChannelInfo, u: Seq<char>, cnt: u32) -> bool {
    &&& newi.channel_type == oldi.channel_type
    &&& newi.read_only == oldi.read_only
    &&& newi.meta == oldi.meta
    &&& newi.messages == oldi.messages
    &&& forall|x: Seq<char>| has_str(newi.members@, x) == (has_str(oldi.members@, x) || x == u)
    &&& has_key(newi.unread_tracking@, u)
    &&& lookup(newi.unread_tracking@, u) == (UserChannelUnread {
        last_read_timestamp: 0,
        unread_count: cnt,
    })
    &&& forall|x: Seq<char>|
        x != u ==> #[trigger] has_key(newi.unread_tracking@, x) == has_key(
            oldi.unread_tracking@,
            x,
        )
    &&& forall|x: Seq<char>|
        x != u && has_key(oldi.unread_tracking@, x) ==> #[trigger] lookup(
            newi.unread_tracking@,
            x,
        ) == lookup(oldi.unread_tracking@, x)
    &&& has_key(newi.mentions_tracking@, u)
    &&& lookup(newi.mentions_tracking@, u)@.len() == 0
    &&& forall|x: Seq<char>|
        x != u ==> #[trigger] has_key(newi.mentions_tracking@, x) == has_key(
            oldi.mentions_tracking@,
            x,
        )
    &&& forall|x: Seq<char>|
        x != u && has_key(oldi.mentions_tracking@, x) ==> #[trigger] lookup(
            newi.mentions_tracking@,
            x,
        ) == lookup(oldi.mentions_tracking@, x)
}

/// Enrolls `user` in one channel: membership, an unread record of `cnt`
/// unread messages, and an empty mention record.
pub(crate) fn enroll_member(info: &mut ChannelInfo, user: &UserId, cnt: u32)
    requires
        old(info).wf(),
        cnt <= old(info).messages@.len(),
    ensures
        final(info).wf(),
        enrolled(*old(info), *final(info), user@, cnt),
{
    if !str_contains(&info.members, user) {
        proof {
            lemma_push_new_str(info.members@, *user);
        }
        info.members.push(user.clone());
    }
    let seed = UserChannelUnread { last_read_timestamp: 0, unread_count: cnt };
    let found = assoc_find(&info.unread_tracking, user);
    match found {
        Some(i) => {
            let ghost pre = info.unread_tracking@;
            info.unread_tracking[i].1 = seed;
            proof {
                assert(info.unread_tracking@ == pre.update(i as int, (pre[i as int].0, seed)));
                lemma_update_same_key(pre, i as int, (pre[i as int].0, seed));
            }
        },
        None => {
            proof {
                lemma_push_new_key(info.unread_tracking@, (*user, seed));
            }
            info.unread_tracking.push((user.clone(), seed));
        },
    }
    let empty_mentions: Vec<UserChannelMentions> = Vec::new();
    let found_m = assoc_find(&info.mentions_tracking, user);
    match found_m {
        Some(i) => {
            let ghost pre = info.mentions_tracking@;
            info.mentions_tracking[i].1 = empty_mentions;
            proof {
                lemma_update_same_key(pre, i as int, (pre[i as int].0, info.mentions_tracking@[i as int].1));
                assert(info.mentions_tracking@ == pre.update(
                    i as int,
                    (pre[i as int].0, info.mentions_tracking@[i as int].1),
                ));
            }
        },
        None => {
            proof {
                lemma_push_new_key(info.mentions_tracking@, (*user, empty_mentions));
            }
            info.mentions_tracking.push((user.clone(), empty_mentions));
        },
    }
    proof {
        assert forall|x: Seq<char>| has_str(info.members@, x) implies has_key(
            info.unread_tracking@,
            x,
        ) && has_key(info.mentions_tracking@, x) by {
            if x != user@ {
                assert(has_str(old(info).members@, x));
            }
        }
    }
}

impl CurbChat {
    /// Whether any recorded display name already equals `username`.
    pub fn check_username_uniqueness(&self, username: &String) -> (r: Result<(), ChatError>)
        ensures
            r matches Err(e) ==> e == ChatError::UsernameTaken,
            (r is Err) == username_taken(self.member_usernames@, username@),
    {
        let mut i: usize = 0;
        while i < self.member_usernames.len()
            invariant
                i <= self.member_usernames@.len(),
                forall|j: int| 0 <= j < i ==> (#[trigger] self.member_usernames@[j]).1@ != username@,
            decreases self.member_usernames@.len() - i,
        {
            if self.member_usernames[i].1 == *username {
                return Err(ChatError::UsernameTaken);
            }
            i += 1;
        }
        Ok(())
    }

    /// Which rule, if any, rejects `n` as a display name: blank (empty or
    /// whitespace only), over the length limit (counted in characters),
    /// or — outside direct-message chats — already taken.
    pub open spec fn username_error(self, n: Seq<char>, is_dm: bool) -> Option<ChatError> {
        if is_blank(n) {
            Option::Some(ChatError::UsernameEmpty)
        } else if n.len() > MAX_USERNAME_LENGTH {
            Option::Some(ChatError::UsernameTooLong)
        } else if !is_dm && username_taken(self.member_usernames@, n) {
            Option::Some(ChatError::UsernameTaken)
        } else {
            Option::None
        }
    }

    /// Validates a display name against the admission rules.
    pub fn validate_username(&self, username: &String, is_dm: bool) -> (r: Result<(), ChatError>)
        ensures
            match r {
                Ok(()) => self.username_error(username@, is_dm) is None,
                Err(e) => self.username_error(username@, is_dm) == Option::Some(e),
            },
    {
        if string_is_blank(username) {
            return Err(ChatError::UsernameEmpty);
        }
        let n = username.as_str().unicode_len();
        if n > MAX_USERNAME_LENGTH {
            return Err(ChatError::UsernameTooLong);
        }
        if !is_dm {
            let unique = self.check_username_uniqueness(username);
            match unique {
                Ok(()) => Ok(()),
                Err(e) => Err(e),
            }
        } else {
            Ok(())
        }
    }

    /// Which rule, if any, rejects this admission: already a member, or an
    /// invalid display name.
    pub open spec fn join_chat_error(
        self,
        caller: Seq<char>,
        username: Seq<char>,
        is_dm: bool,
    ) -> Option<ChatError> {
        if has_str(self.members@, caller) {
            Option::Some(ChatError::AlreadyMember)
        } else {
            self.username_error(username, is_dm)
        }
    }

    /// Enrolls `user` in every default channel, seeding their unread
    /// record to the channel's current message count and their mention
    /// record to empty.
    pub(crate) fn add_user_to_default_channels(&mut self, user: &UserId)
        requires
            old(self).wf(),
        ensures
            final(self).wf(),
            final(self).channels@.len() == old(self).channels@.len(),
            forall|j: int|
                0 <= j < old(self).channels@.len() ==> (#[trigger] final(self).channels@[j]).0
                    == old(self).channels@[j].0,
            forall|j: int|
                0 <= j < old(self).channels@.len()
                    && old(self).channels@[j].1.channel_type == ChannelType::Default ==> enrolled(
                    old(self).channels@[j].1,
                    (#[trigger] final(self).channels@[j]).1,
                    user@,
                    old(self).channels@[j].1.messages@.len() as u32,
                ),
            forall|j: int|
                0 <= j < old(self).channels@.len()
                    && old(self).channels@[j].1.channel_type != ChannelType::Default
                    ==> (#[trigger] final(self).channels@[j]).1 == old(self).channels@[j].1,
            final(self).owner == old(self).owner,
            final(self).name == old(self).name,
            final(self).created_at == old(self).created_at,
            final(self).is_dm == old(self).is_dm,
            final(self).members == old(self).members,
            final(self).member_usernames == old(self).member_usernames,
            final(self).moderators == old(self).moderators,
            final(self).dm_chats == old(self).dm_chats,
    {
        let mut i: usize = 0;
        while i < self.channels.len()
            invariant
                i <= self.channels@.len(),
                self.channels@.len() == old(self).channels@.len(),
                uniq_keys(old(self).channels@),
                forall|j: int|
                    0 <= j < old(self).channels@.len() ==> (#[trigger] self.channels@[j]).0
                        == old(self).channels@[j].0,
                forall|j: int|
                    0 <= j < i && old(self).channels@[j].1.channel_type == ChannelType::Default
                        ==> enrolled(
                        old(self).channels@[j].1,
                        (#[trigger] self.channels@[j]).1,
                        user@,
                        old(self).channels@[j].1.messages@.len() as u32,
                    ),
                forall|j: int|
                    0 <= j < i && old(self).channels@[j].1.channel_type != ChannelType::Default
                        ==> (#[trigger] self.channels@[j]).1 == old(self).channels@[j].1,
                forall|j: int|
                    i <= j < old(self).channels@.len() ==> (#[trigger] self.channels@[j]).1 == old(
                        self,
                    ).channels@[j].1,
                forall|j: int|
                    0 <= j < self.channels@.len() ==> (#[trigger] self.channels@[j]).1.wf(),
                self.owner == old(self).owner,
                self.name == old(self).name,
                self.created_at == old(self).created_at,
                self.is_dm == old(self).is_dm,
                self.members == old(self).members,
                self.member_usernames == old(self).member_usernames,
                self.moderators == old(self).moderators,
                self.dm_chats == old(self).dm_chats,
            decreases self.channels@.len() - i,
        {
            let is_default = match self.channels[i].1.channel_type {
                ChannelType::Default => true,
                _ => false,
            };
            if is_default {
                let cnt = self.channels[i].1.messages.len() as u32;
                proof {
                    assert(self.channels@[i as int].1.wf());
                }
                enroll_member(&mut self.channels[i].1, user, cnt);
            }
            i += 1;
        }
        proof {
            assert(uniq_keys(self.channels@));
            assert(self.wf());
        }
    }

    /// Admits the caller to the chat under `username`: fails if they are
    /// already a member or the name is invalid; on success registers the
    /// member and display name, enrolls them in every default channel and
    /// seeds their tracking there.
    pub fn join_chat(&mut self, caller: UserId, username: String, is_dm: bool) -> (r: Result<
        (),
        ChatError,
    >)
        requires
            old(self).wf(),
        ensures
            final(self).wf(),
            match r {
                Err(e) => old(self).join_chat_error(caller@, username@, is_dm)
                    == Option::Some(e) && *final(self) == *old(self),
                Ok(()) => old(self).join_chat_error(caller@, username@, is_dm) is None,
            },
            r is Ok ==> {
                &&& final(self).members@ == old(self).members@.push(caller)
                &&& has_key(final(self).member_usernames@, caller@)
                &&& lookup(final(self).member_usernames@, caller@) == username
                &&& forall|k: Seq<char>|
                    k != caller@ ==> #[trigger] has_key(final(self).member_usernames@, k)
                        == has_key(old(self).member_usernames@, k)
                &&& forall|k: Seq<char>|
                    k != caller@ && has_key(old(self).member_usernames@, k)
                        ==> #[trigger] lookup(final(self).member_usernames@, k) == lookup(
                        old(self).member_usernames@,
                        k,
                    )
                &&& final(self).channels@.len() == old(self).channels@.len()
                &&& forall|j: int|
                    0 <= j < old(self).channels@.len()
                        ==> (#[trigger] final(self).channels@[j]).0
                        == old(self).channels@[j].0
                &&& forall|j: int|
                    0 <= j < old(self).channels@.len()
                        && old(self).channels@[j].1.channel_type == ChannelType::Default
                        ==> enrolled(
                        old(self).channels@[j].1,
                        (#[trigger] final(self).channels@[j]).1,
                        caller@,
                        old(self).channels@[j].1.messages@.len() as u32,
                    )
                &&& forall|j: int|
                    0 <= j < old(self).channels@.len()
                        && old(self).channels@[j].1.channel_type != ChannelType::Default
                        ==> (#[trigger] final(self).channels@[j]).1 == old(self).channels@[j].1
                &&& final(self).owner == old(self).owner
                &&& final(self).name == old(self).name
                &&& final(self).is_dm == old(self).is_dm
                &&& final(self).moderators == old(self).moderators
                &&& final(self).dm_chats == old(self).dm_chats
            },
    {
        if str_contains(&self.members, &caller) {
            return Err(ChatError::AlreadyMember);
        }
        let valid = self.validate_username(&username, is_dm);
        match valid {
            Err(e) => {
                return Err(e);
            },
            Ok(()) => {},
        }

        proof {
            lemma_push_new_str(self.members@, caller);
        }
        let found = assoc_find(&self.member_usernames, &caller);
        match found {
            Some(i) => {
                let ghost pre = self.member_usernames@;
                self.member_usernames[i].1 = username;
                proof {
                    lemma_update_same_key(
                        pre,
                        i as int,
                        (pre[i as int].0, self.member_usernames@[i as int].1),
                    );
                    assert(self.member_usernames@ == pre.update(
                        i as int,
                        (pre[i as int].0, self.member_usernames@[i as int].1),
                    ));
                    lemma_key_idx(pre, caller@, i as int);
                }
            },
            None => {
                proof {
                    lemma_push_new_key(self.member_usernames@, (caller, username));
                }
                self.member_usernames.push((caller.clone(), username));
            },
        }
        self.members.push(caller.clone());
        proof {
            assert(self.wf());
        }
        self.add_user_to_default_channels(&caller);
        Ok(())
    }
}

} // verus!

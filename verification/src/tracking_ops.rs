//! Unread and mention bookkeeping.
//!
//! Every count is scoped to one member in one channel; the chat-wide
//! totals are computed on demand.  Marking a channel read records the
//! given timestamp, recomputes the unread count as the number of messages
//! sent strictly after it — so "mark read up to here" works — and clears
//! the member's mention records.

use vstd::prelude::*;
use crate::assoc::assoc_find;
use crate::assoc::has_key;
use crate::assoc::lemma_key_idx;
use crate::assoc::lemma_push_new_key;
use crate::assoc::lemma_update_same_key;
use crate::assoc::lookup;
use crate::channel::Channel;
use crate::channel::ChannelInfo;
use crate::errors::ChatError;
use crate::message::MessageEntry;
use crate::message::UserId;
use crate::state::CurbChat;
use crate::tracking::UserChannelMentions;
use crate::tracking::UserChannelUnread;

verus! {

/// How many of the channel's messages were sent strictly after `t`.
pub open spec fn count_after(ms: Seq<MessageEntry>, t: u64) -> int
    decreases ms.len(),
{
    if ms.len() == 0 {
        0
    } else {
        count_after(ms.drop_last(), t) + if ms.last().message.timestamp.value > t {
            1int
        } else {
            0int
        }
    }
}

/// The count of later messages never exceeds the message count.
pub proof fn lemma_count_after_bounds(ms: Seq<MessageEntry>, t: u64)
    ensures
        0 <= count_after(ms, t) <= ms.len(),
    decreases ms.len(),
{
    if ms.len() > 0 {
        lemma_count_after_bounds(ms.drop_last(), t);
    }
}

/// Counts the messages sent strictly after `t`.
fn count_unread_after(ms: &Vec<MessageEntry>, t: u64) -> (r: u32)
    requires
        ms@.len() <= u32::MAX,
    ensures
        r as int == count_after(ms@, t),
{
    let mut acc: u32 = 0;
    let mut i: usize = 0;
    while i < ms.len()
        invariant
            i <= ms@.len(),
            ms@.len() <= u32::MAX,
            acc as int == count_after(ms@.subrange(0, i as int), t),
        decreases ms@.len() - i,
    {
        proof {
            lemma_count_after_bounds(ms@.subrange(0, i as int), t);
            assert(ms@.subrange(0, i as int + 1).drop_last() =~= ms@.subrange(0, i as int));
            assert(ms@.subrange(0, i as int + 1).last() == ms@[i as int]);
        }
        if ms[i].message.timestamp.value > t {
            acc = acc + 1;
        }
        i += 1;
    }
    proof {
        assert(ms@.subrange(0, ms@.len() as int) =~= ms@);
    }
    acc
}

/// `n` clamped into the range of the response counters.
pub open spec fn clamp_u32(n: int) -> int {
    if n > u32::MAX {
        u32::MAX as int
    } else {
        n
    }
}

/// The caller's unread count in channel `cn`, zero when either the
/// channel or the record is missing.
pub open spec fn channel_unread_of(s: CurbChat, cn: Seq<char>, u: Seq<char>) -> int {
    if has_key(s.channels@, cn) && has_key(lookup(s.channels@, cn).unread_tracking@, u) {
        lookup(lookup(s.channels@, cn).unread_tracking@, u).unread_count as int
    } else {
        0
    }
}

/// The caller's last-read timestamp in channel `cn`, zero when missing.
pub open spec fn channel_last_read_of(s: CurbChat, cn: Seq<char>, u: Seq<char>) -> int {
    if has_key(s.channels@, cn) && has_key(lookup(s.channels@, cn).unread_tracking@, u) {
        lookup(lookup(s.channels@, cn).unread_tracking@, u).last_read_timestamp as int
    } else {
        0
    }
}

/// The caller's mention count in channel `cn`, zero when missing.
pub open spec fn channel_mentions_of(s: CurbChat, cn: Seq<char>, u: Seq<char>) -> int {
    if has_key(s.channels@, cn) && has_key(lookup(s.channels@, cn).mentions_tracking@, u) {
        lookup(lookup(s.channels@, cn).mentions_tracking@, u)@.len() as int
    } else {
        0
    }
}

/// The caller's unread count summed over every channel, by registry
/// order.
pub open spec fn total_unread(chs: Seq<(String, ChannelInfo)>, u: Seq<char>) -> int
    decreases chs.len(),
{
    if chs.len() == 0 {
        0
    } else {
        total_unread(chs.drop_last(), u) + if has_key(chs.last().1.unread_tracking@, u) {
            lookup(chs.last().1.unread_tracking@, u).unread_count as int
        } else {
            0int
        }
    }
}

/// The caller's mention count summed over every channel.
pub open spec fn total_mentions(chs: Seq<(String, ChannelInfo)>, u: Seq<char>) -> int
    decreases chs.len(),
{
    if chs.len() == 0 {
        0
    } else {
        total_mentions(chs.drop_last(), u) + if has_key(chs.last().1.mentions_tracking@, u) {
            lookup(chs.last().1.mentions_tracking@, u)@.len() as int
        } else {
            0int
        }
    }
}

impl CurbChat {
    /// Marks the channel read for the caller up to `timestamp`: the
    /// unread count becomes the number of messages sent strictly after
    /// that time — not unconditionally zero — and the caller's mention
    /// records are cleared to an empty sequence.
    pub fn mark_messages_as_read(&mut self, caller: UserId, channel: &Channel, timestamp: u64)
        -> (r: Result<(), ChatError>)
        requires
            old(self).wf(),
        ensures
            final(self).wf(),
            match r {
                Err(e) => e == ChatError::ChannelNotFound && !has_key(
                    old(self).channels@,
                    channel.name@,
                ) && *final(self) == *old(self),
                Ok(()) => has_key(old(self).channels@, channel.name@),
            },
            r is Ok ==> {
                let oldi = lookup(old(self).channels@, channel.name@);
                let newi = lookup(final(self).channels@, channel.name@);
                &&& forall|k: Seq<char>|
                    #[trigger] has_key(final(self).channels@, k) == has_key(
                        old(self).channels@,
                        k,
                    )
                &&& forall|k: Seq<char>|
                    k != channel.name@ && has_key(old(self).channels@, k) ==> #[trigger] lookup(
                        final(self).channels@,
                        k,
                    ) == lookup(old(self).channels@, k)
                &&& newi.messages == oldi.messages
                &&& newi.members == oldi.members
                &&& newi.channel_type == oldi.channel_type
                &&& newi.read_only == oldi.read_only
                &&& newi.meta == oldi.meta
                &&& has_key(newi.unread_tracking@, caller@)
                &&& lookup(newi.unread_tracking@, caller@) == (UserChannelUnread {
                    last_read_timestamp: timestamp,
                    unread_count: count_after(oldi.messages@, timestamp) as u32,
                })
                &&& forall|x: Seq<char>|
                    x != caller@ ==> #[trigger] has_key(newi.unread_tracking@, x) == has_key(
                        oldi.unread_tracking@,
                        x,
                    )
                &&& forall|x: Seq<char>|
                    x != caller@ && has_key(oldi.unread_tracking@, x) ==> #[trigger] lookup(
                        newi.unread_tracking@,
                        x,
                    ) == lookup(oldi.unread_tracking@, x)
                &&& has_key(newi.mentions_tracking@, caller@)
                &&& lookup(newi.mentions_tracking@, caller@)@.len() == 0
                &&& forall|x: Seq<char>|
                    x != caller@ ==> #[trigger] has_key(newi.mentions_tracking@, x) == has_key(
                        oldi.mentions_tracking@,
                        x,
                    )
                &&& forall|x: Seq<char>|
                    x != caller@ && has_key(oldi.mentions_tracking@, x) ==> #[trigger] lookup(
                        newi.mentions_tracking@,
                        x,
                    ) == lookup(oldi.mentions_tracking@, x)
                &&& final(self).owner == old(self).owner
                &&& final(self).name == old(self).name
                &&& final(self).created_at == old(self).created_at
                &&& final(self).is_dm == old(self).is_dm
                &&& final(self).members == old(self).members
                &&& final(self).member_usernames == old(self).member_usernames
                &&& final(self).moderators == old(self).moderators
                &&& final(self).dm_chats == old(self).dm_chats
            },
    {
        let found = assoc_find(&self.channels, &channel.name);
        let ci = match found {
            None => {
                return Err(ChatError::ChannelNotFound);
            },
            Some(ci) => ci,
        };
        proof {
            lemma_key_idx(self.channels@, channel.name@, ci as int);
            assert(self.channels@[ci as int].1.wf());
        }
        let count = count_unread_after(&self.channels[ci].1.messages, timestamp);
        proof {
            lemma_count_after_bounds(self.channels@[ci as int].1.messages@, timestamp);
        }
        let rec = UserChannelUnread { last_read_timestamp: timestamp, unread_count: count };
        let ghost pre = self.channels@;
        let ghost oldi = self.channels@[ci as int].1;
        let upos = assoc_find(&self.channels[ci].1.unread_tracking, &caller);
        match upos {
            Some(k) => {
                let ghost before = self.channels@[ci as int].1.unread_tracking@;
                self.channels[ci].1.unread_tracking[k].1 = rec;
                proof {
                    assert(self.channels@[ci as int].1.unread_tracking@ == before.update(
                        k as int,
                        (before[k as int].0, rec),
                    ));
                    lemma_update_same_key(before, k as int, (before[k as int].0, rec));
                }
            },
            None => {
                proof {
                    lemma_push_new_key(
                        self.channels@[ci as int].1.unread_tracking@,
                        (caller, rec),
                    );
                }
                self.channels[ci].1.unread_tracking.push((caller.clone(), rec));
            },
        }
        let empty_mentions: Vec<UserChannelMentions> = Vec::new();
        let mpos = assoc_find(&self.channels[ci].1.mentions_tracking, &caller);
        match mpos {
            Some(k) => {
                let ghost before = self.channels@[ci as int].1.mentions_tracking@;
                self.channels[ci].1.mentions_tracking[k].1 = empty_mentions;
                proof {
                    assert(self.channels@[ci as int].1.mentions_tracking@ == before.update(
                        k as int,
                        (before[k as int].0, self.channels@[ci as int].1.mentions_tracking@[
                            k as int
                        ].1),
                    ));
                    lemma_update_same_key(
                        before,
                        k as int,
                        (before[k as int].0, self.channels@[ci as int].1.mentions_tracking@[
                            k as int
                        ].1),
                    );
                }
            },
            None => {
                proof {
                    lemma_push_new_key(
                        self.channels@[ci as int].1.mentions_tracking@,
                        (caller, empty_mentions),
                    );
                }
                self.channels[ci].1.mentions_tracking.push((caller.clone(), empty_mentions));
            },
        }
        proof {
            let newi = self.channels@[ci as int].1;
            assert(newi.wf()) by {
                assert forall|x: Seq<char>| crate::assoc::has_str(newi.members@, x) implies
                    has_key(newi.unread_tracking@, x) && has_key(newi.mentions_tracking@, x) by {
                    if x != caller@ {
                        assert(crate::assoc::has_str(oldi.members@, x));
                    }
                }
            }
            assert(self.channels@ == pre.update(ci as int, (pre[ci as int].0, newi)));
            lemma_update_same_key(pre, ci as int, (pre[ci as int].0, newi));
        }
        Ok(())
    }

    /// The caller's unread count in one channel.
    pub fn get_channel_unread_count(&self, caller: &UserId, channel: &Channel) -> (r: u32)
        requires
            self.wf(),
        ensures
            r as int == channel_unread_of(*self, channel.name@, caller@),
    {
        let found = assoc_find(&self.channels, &channel.name);
        match found {
            None => 0,
            Some(ci) => {
                proof {
                    lemma_key_idx(self.channels@, channel.name@, ci as int);
                }
                let upos = assoc_find(&self.channels[ci].1.unread_tracking, caller);
                match upos {
                    None => 0,
                    Some(k) => {
                        proof {
                            lemma_key_idx(
                                self.channels@[ci as int].1.unread_tracking@,
                                caller@,
                                k as int,
                            );
                        }
                        self.channels[ci].1.unread_tracking[k].1.unread_count
                    },
                }
            },
        }
    }

    /// The caller's last-read timestamp in one channel.
    pub fn get_channel_last_read_timestamp(&self, caller: &UserId, channel: &Channel) -> (r: u64)
        requires
            self.wf(),
        ensures
            r as int == channel_last_read_of(*self, channel.name@, caller@),
    {
        let found = assoc_find(&self.channels, &channel.name);
        match found {
            None => 0,
            Some(ci) => {
                proof {
                    lemma_key_idx(self.channels@, channel.name@, ci as int);
                }
                let upos = assoc_find(&self.channels[ci].1.unread_tracking, caller);
                match upos {
                    None => 0,
                    Some(k) => {
                        proof {
                            lemma_key_idx(
                                self.channels@[ci as int].1.unread_tracking@,
                                caller@,
                                k as int,
                            );
                        }
                        self.channels[ci].1.unread_tracking[k].1.last_read_timestamp
                    },
                }
            },
        }
    }

    /// The caller's mention count in one channel.
    pub fn get_channel_mention_count(&self, caller: &UserId, channel: &Channel) -> (r: u32)
        requires
            self.wf(),
        ensures
            r as int == channel_mentions_of(*self, channel.name@, caller@),
    {
        let found = assoc_find(&self.channels, &channel.name);
        match found {
            None => 0,
            Some(ci) => {
                proof {
                    lemma_key_idx(self.channels@, channel.name@, ci as int);
                    assert(self.channels@[ci as int].1.wf());
                }
                let mpos = assoc_find(&self.channels[ci].1.mentions_tracking, caller);
                match mpos {
                    None => 0,
                    Some(k) => {
                        proof {
                            lemma_key_idx(
                                self.channels@[ci as int].1.mentions_tracking@,
                                caller@,
                                k as int,
                            );
                        }
                        self.channels[ci].1.mentions_tracking[k].1.len() as u32
                    },
                }
            },
        }
    }

    /// The caller's unread count summed over every channel, clamped to
    /// the counter's range.
    pub fn get_total_unread_count(&self, caller: &UserId) -> (r: u32)
        requires
            self.wf(),
        ensures
            r as int == clamp_u32(total_unread(self.channels@, caller@)),
    {
        let mut acc: u32 = 0;
        let mut i: usize = 0;
        while i < self.channels.len()
            invariant
                i <= self.channels@.len(),
                self.wf(),
                acc as int == clamp_u32(total_unread(self.channels@.subrange(0, i as int), caller@)),
            decreases self.channels@.len() - i,
        {
            proof {
                lemma_total_unread_nonneg(self.channels@.subrange(0, i as int), caller@);
                assert(self.channels@.subrange(0, i as int + 1).drop_last() =~= self.channels@
                    .subrange(0, i as int));
                assert(self.channels@.subrange(0, i as int + 1).last()
                    == self.channels@[i as int]);
            }
            let upos = assoc_find(&self.channels[i].1.unread_tracking, caller);
            let add = match upos {
                None => 0u32,
                Some(k) => {
                    proof {
                        lemma_key_idx(
                            self.channels@[i as int].1.unread_tracking@,
                            caller@,
                            k as int,
                        );
                    }
                    self.channels[i].1.unread_tracking[k].1.unread_count
                },
            };
            if add > u32::MAX - acc {
                acc = u32::MAX;
            } else {
                acc = acc + add;
            }
            i += 1;
        }
        proof {
            assert(self.channels@.subrange(0, self.channels@.len() as int) =~= self.channels@);
        }
        acc
    }

    /// The caller's mention count summed over every channel, clamped to
    /// the counter's range.
    pub fn get_total_mention_count(&self, caller: &UserId) -> (r: u32)
        requires
            self.wf(),
        ensures
            r as int == clamp_u32(total_mentions(self.channels@, caller@)),
    {
        let mut acc: u32 = 0;
        let mut i: usize = 0;
        while i < self.channels.len()
            invariant
                i <= self.channels@.len(),
                self.wf(),
                acc as int == clamp_u32(
                    total_mentions(self.channels@.subrange(0, i as int), caller@),
                ),
            decreases self.channels@.len() - i,
        {
            proof {
                lemma_total_mentions_nonneg(self.channels@.subrange(0, i as int), caller@);
                assert(self.channels@.subrange(0, i as int + 1).drop_last() =~= self.channels@
                    .subrange(0, i as int));
                assert(self.channels@.subrange(0, i as int + 1).last()
                    == self.channels@[i as int]);
                assert(self.channels@[i as int].1.wf());
            }
            let mpos = assoc_find(&self.channels[i].1.mentions_tracking, caller);
            let add = match mpos {
                None => 0u32,
                Some(k) => {
                    proof {
                        lemma_key_idx(
                            self.channels@[i as int].1.mentions_tracking@,
                            caller@,
                            k as int,
                        );
                    }
                    self.channels[i].1.mentions_tracking[k].1.len() as u32
                },
            };
            if add > u32::MAX - acc {
                acc = u32::MAX;
            } else {
                acc = acc + add;
            }
            i += 1;
        }
        proof {
            assert(self.channels@.subrange(0, self.channels@.len() as int) =~= self.channels@);
        }
        acc
    }
}

/// Channel-wise unread sums are never negative.
pub proof fn lemma_total_unread_nonneg(chs: Seq<(String, ChannelInfo)>, u: Seq<char>)
    ensures
        total_unread(chs, u) >= 0,
    decreases chs.len(),
{
    if chs.len() > 0 {
        lemma_total_unread_nonneg(chs.drop_last(), u);
    }
}

/// Channel-wise mention sums are never negative.
pub proof fn lemma_total_mentions_nonneg(chs: Seq<(String, ChannelInfo)>, u: Seq<char>)
    ensures
        total_mentions(chs, u) >= 0,
    decreases chs.len(),
{
    if chs.len() > 0 {
        lemma_total_mentions_nonneg(chs.drop_last(), u);
    }
}

} // verus!

//! Sending, editing and deleting messages.
//!
//! A message is appended to its channel's sequence — or, for a reply, to
//! the thread of a direct channel message — and never physically removed:
//! editing overwrites text in place, deletion leaves a tombstone.  Sending
//! a top-level message increments every other channel member's unread
//! count and appends one mention record per mentioned member.

use vstd::prelude::*;
use crate::assoc::assoc_find;
use crate::assoc::has_key;
use crate::assoc::has_str;
use crate::assoc::lemma_has_str_subrange_step;
use crate::assoc::lemma_key_idx;
use crate::assoc::lemma_push_new_key;
use crate::assoc::lemma_push_new_str;
use crate::assoc::lemma_update_same_key;
use crate::assoc::lookup;
use crate::assoc::str_contains;
use crate::assoc::uniq_keys;
use crate::assoc::uniq_strs;
use crate::channel::Channel;
use crate::errors::ChatError;
use crate::lww::LwwReg;
use crate::message::Message;
use crate::message::MessageEntry;
use crate::message::MessageId;
use crate::message::UserId;
use crate::state::CurbChat;
use crate::tracking::UserChannelMentions;
use crate::tracking::UserChannelUnread;

verus! {

/// The listed users with duplicates dropped, distinct by content.
fn distinct_users(list: &Vec<UserId>) -> (r: Vec<UserId>)
    ensures
        uniq_strs(r@),
        forall|u: Seq<char>| has_str(r@, u) == has_str(list@, u),
{
    let mut r: Vec<UserId> = Vec::new();
    let mut i: usize = 0;
    while i < list.len()
        invariant
            i <= list@.len(),
            uniq_strs(r@),
            forall|u: Seq<char>| has_str(r@, u) == has_str(list@.subrange(0, i as int), u),
        decreases list@.len() - i,
    {
        proof {
            lemma_has_str_subrange_step(list@, i as int);
        }
        let ghost before = r@;
        let present = str_contains(&r, &list[i]);
        if !present {
            proof {
                lemma_push_new_str(r@, list@[i as int]);
            }
            r.push(list[i].clone());
        }
        proof {
            assert forall|u: Seq<char>|
                has_str(r@, u) == has_str(list@.subrange(0, i as int + 1), u) by {
                if u == list@[i as int]@ {
                    assert(has_str(r@, u));
                    assert(has_str(list@.subrange(0, i as int + 1), u));
                } else {
                    if !present {
                        assert(has_str(r@, u) == has_str(before, u));
                    }
                }
            }
        }
        i += 1;
    }
    proof {
        assert(list@.subrange(0, list@.len() as int) =~= list@);
    }
    r
}

/// `newt` is `oldt` with one more unread message for every listed member
/// except the sender: tracked members' counts grow by one, untracked
/// members get a record of one unread message, everyone else's record is
/// untouched.
pub open spec fn unread_bumped(
    oldt: Seq<(String, UserChannelUnread)>,
    newt: Seq<(String, UserChannelUnread)>,
    members: Seq<String>,
    sender: Seq<char>,
) -> bool {
    &&& forall|x: Seq<char>|
        #[trigger] has_key(newt, x) == (has_key(oldt, x) || (has_str(members, x) && x
            != sender))
    &&& forall|x: Seq<char>|
        has_str(members, x) && x != sender && has_key(oldt, x) ==> #[trigger] lookup(newt, x)
            == (UserChannelUnread {
            last_read_timestamp: lookup(oldt, x).last_read_timestamp,
            unread_count: (lookup(oldt, x).unread_count + 1) as u32,
        })
    &&& forall|x: Seq<char>|
        has_str(members, x) && x != sender && !has_key(oldt, x) ==> #[trigger] lookup(newt, x)
            == (UserChannelUnread { last_read_timestamp: 0, unread_count: 1 })
    &&& forall|x: Seq<char>|
        !(has_str(members, x) && x != sender) && has_key(oldt, x) ==> #[trigger] lookup(
            newt,
            x,
        ) == lookup(oldt, x)
}

/// Adds one unread message for every listed member except the sender.
fn bump_unread(
    tracking: &mut Vec<(UserId, UserChannelUnread)>,
    members: &Vec<UserId>,
    sender: &UserId,
)
    requires
        uniq_keys(old(tracking)@),
        uniq_strs(members@),
        forall|j: int|
            0 <= j < old(tracking)@.len() ==> (#[trigger] old(tracking)@[j]).1.unread_count
                < u32::MAX,
    ensures
        uniq_keys(final(tracking)@),
        unread_bumped(old(tracking)@, final(tracking)@, members@, sender@),
        final(tracking)@.len() >= old(tracking)@.len(),
        forall|j: int|
            0 <= j < final(tracking)@.len() ==> (#[trigger] final(tracking)@[j]).1.unread_count
                <= u32::MAX,
{
    let ghost orig = tracking@;
    let mut i: usize = 0;
    while i < members.len()
        invariant
            i <= members@.len(),
            uniq_keys(tracking@),
            uniq_strs(members@),
            tracking@.len() >= orig.len(),
            unread_bumped(orig, tracking@, members@.subrange(0, i as int), sender@),
            forall|j: int|
                0 <= j < orig.len() ==> (#[trigger] orig[j]).1.unread_count < u32::MAX,
            forall|j: int|
                0 <= j < tracking@.len() ==> (#[trigger] tracking@[j]).1.unread_count
                    <= u32::MAX,
        decreases members@.len() - i,
    {
        proof {
            lemma_has_str_subrange_step(members@, i as int);
        }
        let ghost before = tracking@;
        let is_sender = members[i] == *sender;
        if !is_sender {
            let found = assoc_find(tracking, &members[i]);
            match found {
                Some(k) => {
                    proof {
                        lemma_key_idx(before, members@[i as int]@, k as int);
                        assert(has_key(orig, members@[i as int]@));
                        assert(lookup(before, members@[i as int]@).unread_count < u32::MAX)
                            by {
                            assert(!(has_str(members@.subrange(0, i as int), members@[i as int]@)
                                && members@[i as int]@ != sender@)) by {
                                if has_str(members@.subrange(0, i as int), members@[i as int]@) {
                                    let j = choose|j: int|
                                        0 <= j < i && members@.subrange(0, i as int)[j]@
                                            == members@[i as int]@;
                                    assert(members@[j]@ == members@[i as int]@);
                                }
                            }
                            assert(lookup(before, members@[i as int]@) == lookup(
                                orig,
                                members@[i as int]@,
                            ));
                            let ko = crate::assoc::key_idx(orig, members@[i as int]@);
                            assert(orig[ko].1.unread_count < u32::MAX);
                        }
                    }
                    let old_rec = tracking[k].1;
                    tracking[k].1 = UserChannelUnread {
                        last_read_timestamp: old_rec.last_read_timestamp,
                        unread_count: old_rec.unread_count + 1,
                    };
                    proof {
                        assert(tracking@ == before.update(
                            k as int,
                            (before[k as int].0, tracking@[k as int].1),
                        ));
                        lemma_update_same_key(
                            before,
                            k as int,
                            (before[k as int].0, tracking@[k as int].1),
                        );
                    }
                },
                None => {
                    let seed = UserChannelUnread { last_read_timestamp: 0, unread_count: 1 };
                    proof {
                        lemma_push_new_key(tracking@, (members@[i as int], seed));
                    }
                    tracking.push((members[i].clone(), seed));
                },
            }
        }
        proof {
            assert forall|x: Seq<char>|
                #[trigger] has_key(tracking@, x) == (has_key(orig, x) || (has_str(
                    members@.subrange(0, i as int + 1),
                    x,
                ) && x != sender@)) by {
                if x == members@[i as int]@ && !is_sender {
                    assert(has_key(tracking@, x));
                } else {
                    assert(has_key(tracking@, x) == has_key(before, x));
                }
            }
            assert(unread_bumped(orig, tracking@, members@.subrange(0, i as int + 1), sender@))
                by {
                assert forall|x: Seq<char>|
                    has_str(members@.subrange(0, i as int + 1), x) && x != sender@ && has_key(
                        orig,
                        x,
                    ) implies #[trigger] lookup(tracking@, x) == (UserChannelUnread {
                    last_read_timestamp: lookup(orig, x).last_read_timestamp,
                    unread_count: (lookup(orig, x).unread_count + 1) as u32,
                }) by {
                    if x == members@[i as int]@ {
                        if has_str(members@.subrange(0, i as int), x) {
                            assert(lookup(tracking@, x) == lookup(before, x));
                        }
                    } else {
                        assert(lookup(tracking@, x) == lookup(before, x));
                    }
                }
                assert forall|x: Seq<char>|
                    has_str(members@.subrange(0, i as int + 1), x) && x != sender@ && !has_key(
                        orig,
                        x,
                    ) implies #[trigger] lookup(tracking@, x) == (UserChannelUnread {
                    last_read_timestamp: 0,
                    unread_count: 1,
                }) by {
                    if x == members@[i as int]@ {
                        if has_str(members@.subrange(0, i as int), x) {
                            assert(lookup(tracking@, x) == lookup(before, x));
                        }
                    } else {
                        assert(lookup(tracking@, x) == lookup(before, x));
                    }
                }
                assert forall|x: Seq<char>|
                    !(has_str(members@.subrange(0, i as int + 1), x) && x != sender@) && has_key(
                        orig,
                        x,
                    ) implies #[trigger] lookup(tracking@, x) == lookup(orig, x) by {
                    assert(!(has_str(members@.subrange(0, i as int), x) && x != sender@));
                    assert(lookup(tracking@, x) == lookup(before, x));
                }
            }
        }
        i += 1;
    }
    proof {
        assert(members@.subrange(0, members@.len() as int) =~= members@);
    }
}

/// The mention record a send appends: one mention of kind direct-mention,
/// stamped with the message and its send time.
pub open spec fn mention_rec_ok(e: UserChannelMentions, id: MessageId, now: u64) -> bool {
    &&& e.message_id == id
    &&& e.mention_count == 1
    &&& e.timestamp == now
    &&& e.mention_types@.len() == 1
    &&& e.mention_types@[0]@ == "@user"@
}

/// `newt` is `oldt` with one fresh mention record appended for every
/// listed member: an already-tracked member's sequence grows by that one
/// record, an untracked member starts a fresh sequence of one, and every
/// other member's records are untouched.
pub open spec fn mentions_appended(
    oldt: Seq<(String, Vec<UserChannelMentions>)>,
    newt: Seq<(String, Vec<UserChannelMentions>)>,
    mentioned: Seq<String>,
    id: MessageId,
    now: u64,
) -> bool {
    &&& forall|x: Seq<char>|
        #[trigger] has_key(newt, x) == (has_key(oldt, x) || has_str(mentioned, x))
    &&& forall|x: Seq<char>|
        has_str(mentioned, x) && has_key(oldt, x) ==> #[trigger] lookup(newt, x)@.len()
            == lookup(oldt, x)@.len() + 1 && lookup(newt, x)@.subrange(
            0,
            lookup(oldt, x)@.len() as int,
        ) == lookup(oldt, x)@ && mention_rec_ok(lookup(newt, x)@.last(), id, now)
    &&& forall|x: Seq<char>|
        has_str(mentioned, x) && !has_key(oldt, x) ==> #[trigger] lookup(newt, x)@.len() == 1
            && mention_rec_ok(lookup(newt, x)@.last(), id, now)
    &&& forall|x: Seq<char>|
        !has_str(mentioned, x) && has_key(oldt, x) ==> #[trigger] lookup(newt, x) == lookup(
            oldt,
            x,
        )
}

/// Appends one copy of `rec` to every listed member's mention records.
fn append_mentions(
    tracking: &mut Vec<(UserId, Vec<UserChannelMentions>)>,
    mentioned: &Vec<UserId>,
    rec: &UserChannelMentions,
)
    requires
        uniq_keys(old(tracking)@),
        uniq_strs(mentioned@),
        forall|j: int|
            0 <= j < old(tracking)@.len() ==> (#[trigger] old(tracking)@[j]).1@.len()
                < u32::MAX,
    ensures
        uniq_keys(final(tracking)@),
        forall|x: Seq<char>|
            #[trigger] has_key(final(tracking)@, x) == (has_key(old(tracking)@, x) || has_str(
                mentioned@,
                x,
            )),
        forall|x: Seq<char>|
            has_str(mentioned@, x) && has_key(old(tracking)@, x) ==> #[trigger] lookup(
                final(tracking)@,
                x,
            )@.len() == lookup(old(tracking)@, x)@.len() + 1 && lookup(
                final(tracking)@,
                x,
            )@.subrange(0, lookup(old(tracking)@, x)@.len() as int) == lookup(
                old(tracking)@,
                x,
            )@ && mentions_last_like(lookup(final(tracking)@, x)@.last(), *rec),
        forall|x: Seq<char>|
            has_str(mentioned@, x) && !has_key(old(tracking)@, x) ==> #[trigger] lookup(
                final(tracking)@,
                x,
            )@.len() == 1 && mentions_last_like(lookup(final(tracking)@, x)@.last(), *rec),
        forall|x: Seq<char>|
            !has_str(mentioned@, x) && has_key(old(tracking)@, x) ==> #[trigger] lookup(
                final(tracking)@,
                x,
            ) == lookup(old(tracking)@, x),
{
    let ghost orig = tracking@;
    let mut i: usize = 0;
    while i < mentioned.len()
        invariant
            i <= mentioned@.len(),
            uniq_keys(tracking@),
            uniq_strs(mentioned@),
            forall|x: Seq<char>|
                #[trigger] has_key(tracking@, x) == (has_key(orig, x) || has_str(
                    mentioned@.subrange(0, i as int),
                    x,
                )),
            forall|x: Seq<char>|
                has_str(mentioned@.subrange(0, i as int), x) && has_key(orig, x)
                    ==> #[trigger] lookup(tracking@, x)@.len() == lookup(orig, x)@.len() + 1
                    && lookup(tracking@, x)@.subrange(0, lookup(orig, x)@.len() as int)
                    == lookup(orig, x)@ && mentions_last_like(
                    lookup(tracking@, x)@.last(),
                    *rec,
                ),
            forall|x: Seq<char>|
                has_str(mentioned@.subrange(0, i as int), x) && !has_key(orig, x)
                    ==> #[trigger] lookup(tracking@, x)@.len() == 1 && mentions_last_like(
                    lookup(tracking@, x)@.last(),
                    *rec,
                ),
            forall|x: Seq<char>|
                !has_str(mentioned@.subrange(0, i as int), x) && has_key(orig, x)
                    ==> #[trigger] lookup(tracking@, x) == lookup(orig, x),
            forall|x: Seq<char>|
                !has_str(mentioned@.subrange(0, i as int), x) && !has_key(orig, x) && has_key(
                    tracking@,
                    x,
                ) ==> false,
        decreases mentioned@.len() - i,
    {
        proof {
            lemma_has_str_subrange_step(mentioned@, i as int);
        }
        let ghost before = tracking@;
        let ghost u = mentioned@[i as int]@;
        let ghost fresh_in_prefix = !has_str(mentioned@.subrange(0, i as int), u);
        let copy = rec.duplicate();
        let found = assoc_find(tracking, &mentioned[i]);
        match found {
            Some(k) => {
                proof {
                    lemma_key_idx(before, u, k as int);
                }
                tracking[k].1.push(copy);
                proof {
                    assert(tracking@ == before.update(
                        k as int,
                        (before[k as int].0, tracking@[k as int].1),
                    ));
                    lemma_update_same_key(
                        before,
                        k as int,
                        (before[k as int].0, tracking@[k as int].1),
                    );
                    assert(lookup(tracking@, u)@ == lookup(before, u)@.push(copy));
                }
            },
            None => {
                let mut fresh: Vec<UserChannelMentions> = Vec::new();
                fresh.push(copy);
                proof {
                    lemma_push_new_key(tracking@, (mentioned@[i as int], fresh));
                }
                tracking.push((mentioned[i].clone(), fresh));
            },
        }
        proof {
            assert(fresh_in_prefix) by {
                if has_str(mentioned@.subrange(0, i as int), u) {
                    let j = choose|j: int|
                        0 <= j < i && mentioned@.subrange(0, i as int)[j]@ == u;
                    assert(mentioned@[j]@ == u);
                }
            }
            assert forall|x: Seq<char>|
                #[trigger] has_key(tracking@, x) == (has_key(orig, x) || has_str(
                    mentioned@.subrange(0, i as int + 1),
                    x,
                )) by {
                if x == u {
                    assert(has_key(tracking@, x));
                } else {
                    assert(has_key(tracking@, x) == has_key(before, x));
                }
            }
            assert forall|x: Seq<char>|
                has_str(mentioned@.subrange(0, i as int + 1), x) && has_key(orig, x)
                    implies #[trigger] lookup(tracking@, x)@.len() == lookup(orig, x)@.len() + 1
                && lookup(tracking@, x)@.subrange(0, lookup(orig, x)@.len() as int) == lookup(
                orig,
                x,
            )@ && mentions_last_like(lookup(tracking@, x)@.last(), *rec) by {
                if x == u {
                    assert(lookup(before, u) == lookup(orig, u));
                    assert(lookup(tracking@, u)@ == lookup(orig, u)@.push(copy));
                    assert(lookup(tracking@, u)@.subrange(0, lookup(orig, u)@.len() as int)
                        =~= lookup(orig, u)@);
                    assert(mentions_last_like(copy, *rec));
                } else {
                    assert(has_str(mentioned@.subrange(0, i as int), x));
                    if has_key(before, x) {
                        assert(lookup(tracking@, x) == lookup(before, x));
                    }
                }
            }
            assert forall|x: Seq<char>|
                has_str(mentioned@.subrange(0, i as int + 1), x) && !has_key(orig, x)
                    implies #[trigger] lookup(tracking@, x)@.len() == 1 && mentions_last_like(
                lookup(tracking@, x)@.last(),
                *rec,
            ) by {
                if x == u {
                    assert(!has_key(before, u));
                    assert(lookup(tracking@, u)@.len() == 1);
                    assert(lookup(tracking@, u)@.last() == copy);
                    assert(mentions_last_like(copy, *rec));
                } else {
                    assert(has_str(mentioned@.subrange(0, i as int), x));
                    if has_key(before, x) {
                        assert(lookup(tracking@, x) == lookup(before, x));
                    }
                }
            }
            assert forall|x: Seq<char>|
                !has_str(mentioned@.subrange(0, i as int + 1), x) && has_key(orig, x)
                    implies #[trigger] lookup(tracking@, x) == lookup(orig, x) by {
                assert(x != u);
                assert(lookup(tracking@, x) == lookup(before, x));
            }
        }
        i += 1;
    }
    proof {
        assert(mentioned@.subrange(0, mentioned@.len() as int) =~= mentioned@);
    }
}

/// Whether some top-level entry of `ms` carries the identifier `pid`.
pub open spec fn top_match_in(ms: Seq<MessageEntry>, pid: MessageId) -> bool {
    exists|j: int| 0 <= j < ms.len() && ms[j].message.id.value.matches_spec(pid)
}

/// `j` is the first top-level entry of `ms` carrying the identifier `pid`.
pub open spec fn top_first_at(ms: Seq<MessageEntry>, pid: MessageId, j: int) -> bool {
    &&& 0 <= j < ms.len()
    &&& ms[j].message.id.value.matches_spec(pid)
    &&& forall|j2: int| 0 <= j2 < j ==> !(#[trigger] ms[j2].message.id.value.matches_spec(pid))
}

/// Finds the first top-level entry carrying the identifier `pid`.
pub fn find_entry_by_id(ms: &Vec<MessageEntry>, pid: &MessageId) -> (r: Option<usize>)
    ensures
        match r {
            Some(j) => top_first_at(ms@, *pid, j as int),
            None => !top_match_in(ms@, *pid),
        },
{
    let mut j: usize = 0;
    while j < ms.len()
        invariant
            j <= ms@.len(),
            forall|j2: int|
                0 <= j2 < j ==> !(#[trigger] ms@[j2].message.id.value.matches_spec(*pid)),
        decreases ms@.len() - j,
    {
        if ms[j].message.id.value.same_as(pid) {
            return Some(j);
        }
        j += 1;
    }
    None
}

/// A message as a send constructs it: every register stamped `now`, the
/// identifier and text as given, the sender and mention names captured
/// from the chat's current display names, no reactions yet.
pub open spec fn sent_message_ok(
    m: Message,
    pre: CurbChat,
    caller: UserId,
    text: String,
    mentions: Seq<UserId>,
    id: MessageId,
    group: Seq<char>,
    now: u64,
) -> bool {
    &&& m.timestamp == (LwwReg { value: now, written_at: now })
    &&& m.sender == (LwwReg { value: caller, written_at: now })
    &&& m.sender_username.value@ == pre.username_view(caller@)
    &&& m.sender_username.written_at == now
    &&& m.mentions@ == mentions
    &&& m.mentions_usernames@.len() == mentions.len()
    &&& forall|k: int|
        0 <= k < mentions.len() ==> (#[trigger] m.mentions_usernames@[k])@ == pre.username_view(
            mentions[k]@,
        )
    &&& m.id == (LwwReg { value: id, written_at: now })
    &&& m.text == (LwwReg { value: text, written_at: now })
    &&& m.edited_on == (LwwReg { value: 0u64, written_at: now })
    &&& m.deleted == (LwwReg { value: false, written_at: now })
    &&& m.group.value@ == group
    &&& m.group.written_at == now
    &&& m.reactions@.len() == 0
}

/// One channel's message and reply counts stay clear of the range the
/// response counters assume.
pub open spec fn chan_capacity_ok(info: crate::channel::ChannelInfo) -> bool {
    info.messages@.len() < u32::MAX && forall|j: int|
        0 <= j < info.messages@.len() ==> (#[trigger] info.messages@[j]).replies@.len()
            < u32::MAX
}

impl CurbChat {
    /// Message and reply counts everywhere stay clear of the range the
    /// response types and identifiers assume, so one more message fits.
    pub open spec fn can_accept_message(self) -> bool {
        forall|i: int|
            0 <= i < self.channels@.len() ==> chan_capacity_ok(
                (#[trigger] self.channels@[i]).1,
            )
    }

    /// Decides [`Self::can_accept_message`], so a caller can test the
    /// capacity bound that sending requires.
    pub fn has_message_capacity(&self) -> (r: bool)
        requires
            self.wf(),
        ensures
            r == self.can_accept_message(),
    {
        let mut i: usize = 0;
        while i < self.channels.len()
            invariant
                self.wf(),
                i <= self.channels@.len(),
                forall|i2: int|
                    0 <= i2 < i ==> chan_capacity_ok((#[trigger] self.channels@[i2]).1),
            decreases self.channels@.len() - i,
        {
            if self.channels[i].1.messages.len() >= u32::MAX as usize {
                proof {
                    assert(!chan_capacity_ok(self.channels@[i as int].1));
                }
                return false;
            }
            let mut j: usize = 0;
            while j < self.channels[i].1.messages.len()
                invariant
                    i < self.channels@.len(),
                    j <= self.channels@[i as int].1.messages@.len(),
                    forall|j2: int|
                        0 <= j2 < j ==> (#[trigger] self.channels@[i as int].1.messages@[
                            j2
                        ]).replies@.len() < u32::MAX,
                decreases self.channels@[i as int].1.messages@.len() - j,
            {
                if self.channels[i].1.messages[j].replies.len() >= u32::MAX as usize {
                    proof {
                        assert(self.channels@[i as int].1.messages@[j as int].replies@.len()
                            >= u32::MAX);
                        assert(!chan_capacity_ok(self.channels@[i as int].1));
                    }
                    return false;
                }
                j += 1;
            }
            proof {
                assert(chan_capacity_ok(self.channels@[i as int].1));
            }
            i += 1;
        }
        true
    }

    /// Which rule, if any, rejects this send: the channel must exist and,
    /// for a reply, the parent must be one of its direct messages.
    pub open spec fn send_error(self, cn: Seq<char>, parent: Option<MessageId>) -> Option<
        ChatError,
    > {
        if !has_key(self.channels@, cn) {
            Option::Some(ChatError::ChannelNotFound)
        } else {
            match parent {
                Option::Some(pid) => {
                    if !top_match_in(lookup(self.channels@, cn).messages@, pid) {
                        Option::Some(ChatError::ThreadNotFound)
                    } else {
                        Option::None
                    }
                },
                Option::None => Option::None,
            }
        }
    }

    /// A top-level send: the new message is appended to the channel's
    /// sequence under the next running identifier, every other channel
    /// member gains one unread message, and every mentioned member gains
    /// one mention record.  Nothing else changes.
    pub open spec fn sent_top_rel(
        pre: CurbChat,
        post: CurbChat,
        caller: UserId,
        cn: Seq<char>,
        text: String,
        mentions: Seq<UserId>,
        id: MessageId,
        now: u64,
    ) -> bool {
        &&& has_key(pre.channels@, cn)
        &&& forall|k: Seq<char>|
            #[trigger] has_key(post.channels@, k) == has_key(pre.channels@, k)
        &&& forall|k: Seq<char>|
            k != cn && has_key(pre.channels@, k) ==> #[trigger] lookup(post.channels@, k)
                == lookup(pre.channels@, k)
        &&& {
            let oldi = lookup(pre.channels@, cn);
            let newi = lookup(post.channels@, cn);
            &&& id.channel@ == cn
            &&& id.index == oldi.messages@.len()
            &&& id.reply is None
            &&& newi.messages@.len() == oldi.messages@.len() + 1
            &&& newi.messages@.subrange(0, oldi.messages@.len() as int) == oldi.messages@
            &&& newi.messages@.last().replies@.len() == 0
            &&& sent_message_ok(
                newi.messages@.last().message,
                pre,
                caller,
                text,
                mentions,
                id,
                cn,
                now,
            )
            &&& newi.members == oldi.members
            &&& newi.channel_type == oldi.channel_type
            &&& newi.read_only == oldi.read_only
            &&& newi.meta == oldi.meta
            &&& unread_bumped(oldi.unread_tracking@, newi.unread_tracking@, oldi.members@, caller@)
            &&& mentions_appended(
                oldi.mentions_tracking@,
                newi.mentions_tracking@,
                mentions,
                id,
                now,
            )
        }
        &&& post.owner == pre.owner
        &&& post.name == pre.name
        &&& post.created_at == pre.created_at
        &&& post.is_dm == pre.is_dm
        &&& post.members == pre.members
        &&& post.member_usernames == pre.member_usernames
        &&& post.moderators == pre.moderators
        &&& post.dm_chats == pre.dm_chats
    }

    /// A reply send: the new message is appended to the thread of the
    /// first channel message carrying the parent identifier.  Thread
    /// replies trigger no unread or mention bookkeeping, and nothing else
    /// changes.
    pub open spec fn sent_reply_rel(
        pre: CurbChat,
        post: CurbChat,
        caller: UserId,
        cn: Seq<char>,
        pid: MessageId,
        text: String,
        mentions: Seq<UserId>,
        id: MessageId,
        now: u64,
    ) -> bool {
        &&& has_key(pre.channels@, cn)
        &&& forall|k: Seq<char>|
            #[trigger] has_key(post.channels@, k) == has_key(pre.channels@, k)
        &&& forall|k: Seq<char>|
            k != cn && has_key(pre.channels@, k) ==> #[trigger] lookup(post.channels@, k)
                == lookup(pre.channels@, k)
        &&& {
            let oldi = lookup(pre.channels@, cn);
            let newi = lookup(post.channels@, cn);
            &&& exists|j: int|
                {
                    &&& #[trigger] top_first_at(oldi.messages@, pid, j)
                    &&& newi.messages@.len() == oldi.messages@.len()
                    &&& forall|j2: int|
                        0 <= j2 < oldi.messages@.len() && j2 != j
                            ==> #[trigger] newi.messages@[j2] == oldi.messages@[j2]
                    &&& newi.messages@[j].message == oldi.messages@[j].message
                    &&& newi.messages@[j].replies@.len() == oldi.messages@[j].replies@.len() + 1
                    &&& newi.messages@[j].replies@.subrange(
                        0,
                        oldi.messages@[j].replies@.len() as int,
                    ) == oldi.messages@[j].replies@
                    &&& sent_message_ok(
                        newi.messages@[j].replies@.last(),
                        pre,
                        caller,
                        text,
                        mentions,
                        id,
                        cn,
                        now,
                    )
                    &&& id.channel@ == pid.channel@
                    &&& id.index == pid.index
                    &&& id.reply == Option::Some(oldi.messages@[j].replies@.len() as u64)
                }
            &&& newi.members == oldi.members
            &&& newi.channel_type == oldi.channel_type
            &&& newi.read_only == oldi.read_only
            &&& newi.meta == oldi.meta
            &&& newi.unread_tracking == oldi.unread_tracking
            &&& newi.mentions_tracking == oldi.mentions_tracking
        }
        &&& post.owner == pre.owner
        &&& post.name == pre.name
        &&& post.created_at == pre.created_at
        &&& post.is_dm == pre.is_dm
        &&& post.members == pre.members
        &&& post.member_usernames == pre.member_usernames
        &&& post.moderators == pre.moderators
        &&& post.dm_chats == pre.dm_chats
    }

    /// Sends a message to a channel — or, when a parent identifier is
    /// given, a reply into that message's thread.  A top-level send
    /// increments every other channel member's unread count and records
    /// every mentioned member's mention; thread replies do neither.
    pub fn send_message(
        &mut self,
        caller: UserId,
        channel: &Channel,
        text: String,
        mentions: Vec<UserId>,
        parent_id: Option<MessageId>,
        now: u64,
    ) -> (r: Result<MessageId, ChatError>)
        requires
            old(self).wf(),
            old(self).can_accept_message(),
        ensures
            final(self).wf(),
            match r {
                Err(e) => old(self).send_error(channel.name@, parent_id) == Option::Some(e)
                    && *final(self) == *old(self),
                Ok(id) => old(self).send_error(channel.name@, parent_id) is None && match parent_id {
                    Option::None => CurbChat::sent_top_rel(
                        *old(self),
                        *final(self),
                        caller,
                        channel.name@,
                        text,
                        mentions@,
                        id,
                        now,
                    ),
                    Option::Some(pid) => CurbChat::sent_reply_rel(
                        *old(self),
                        *final(self),
                        caller,
                        channel.name@,
                        pid,
                        text,
                        mentions@,
                        id,
                        now,
                    ),
                },
            },
    {
        let found = assoc_find(&self.channels, &channel.name);
        let ci = match found {
            None => {
                return Err(ChatError::ChannelNotFound);
            },
            Some(ci) => ci,
        };
        proof {
            lemma_key_idx(self.channels@, channel.name@, ci as int);
            assert(self.channels@[ci as int].1.wf());
        }
        let username = self.get_username(&caller);
        let mut mentions_usernames: Vec<String> = Vec::new();
        let mut mi: usize = 0;
        while mi < mentions.len()
            invariant
                mi <= mentions@.len(),
                mentions_usernames@.len() == mi,
                forall|k: int|
                    0 <= k < mi ==> (#[trigger] mentions_usernames@[k])@ == self.username_view(
                        mentions@[k]@,
                    ),
                self.wf(),
                *self == *old(self),
            decreases mentions@.len() - mi,
        {
            let name = self.get_username(&mentions[mi]);
            mentions_usernames.push(name);
            mi += 1;
        }

        match parent_id {
            Option::Some(pid) => {
                let pj = match find_entry_by_id(&self.channels[ci].1.messages, &pid) {
                    None => {
                        return Err(ChatError::ThreadNotFound);
                    },
                    Some(pj) => pj,
                };
                let reply_pos = self.channels[ci].1.messages[pj].replies.len();
                let id = MessageId {
                    channel: pid.channel.clone(),
                    index: pid.index,
                    reply: Option::Some(reply_pos as u64),
                };
                let msg = Message {
                    timestamp: LwwReg::new(now, now),
                    sender: LwwReg::new(caller, now),
                    sender_username: LwwReg::new(username, now),
                    mentions,
                    mentions_usernames,
                    id: LwwReg::new(id.duplicate(), now),
                    text: LwwReg::new(text, now),
                    edited_on: LwwReg::new(0, now),
                    deleted: LwwReg::new(false, now),
                    group: LwwReg::new(channel.name.clone(), now),
                    reactions: Vec::new(),
                };
                let ghost pre = self.channels@;
                let ghost oldentry = self.channels@[ci as int].1.messages@[pj as int];
                self.channels[ci].1.messages[pj].replies.push(msg);
                proof {
                    let newi = self.channels@[ci as int].1;
                    let oldi = pre[ci as int].1;
                    assert(newi.messages@[pj as int].replies@.subrange(
                        0,
                        oldentry.replies@.len() as int,
                    ) =~= oldentry.replies@);
                    assert(newi.wf()) by {
                        assert forall|j: int|
                            0 <= j < newi.messages@.len() implies (
                        #[trigger] newi.messages@[j]).wf() by {
                            if j != pj as int {
                                assert(newi.messages@[j] == oldi.messages@[j]);
                            } else {
                                assert(newi.messages@[j].message == oldentry.message);
                                assert(newi.messages@[j].replies@.len() == oldentry.replies@.len()
                                    + 1);
                                assert forall|k: int|
                                    0 <= k < newi.messages@[j].replies@.len() implies (
                                #[trigger] newi.messages@[j].replies@[k]).wf() by {
                                    if k < oldentry.replies@.len() {
                                        assert(newi.messages@[j].replies@[k]
                                            == oldentry.replies@[k]);
                                    } else {
                                        assert(newi.messages@[j].replies@[k].reactions@.len()
                                            == 0);
                                    }
                                }
                            }
                        }
                    }
                    assert(self.channels@ == pre.update(
                        ci as int,
                        (pre[ci as int].0, newi),
                    ));
                    lemma_update_same_key(pre, ci as int, (pre[ci as int].0, newi));
                    assert(top_first_at(oldi.messages@, pid, pj as int));
                }
                Ok(id)
            },
            Option::None => {
                let old_len = self.channels[ci].1.messages.len();
                let id = MessageId {
                    channel: channel.name.clone(),
                    index: old_len as u64,
                    reply: Option::None,
                };
                let rec = UserChannelMentions {
                    message_id: id.duplicate(),
                    mention_count: 1,
                    mention_types: {
                        let mut t: Vec<String> = Vec::new();
                        t.push(String::from_str("@user"));
                        t
                    },
                    timestamp: now,
                };
                let mentioned = distinct_users(&mentions);
                let members_copy = clone_user_vec(&self.channels[ci].1.members);
                let msg = Message {
                    timestamp: LwwReg::new(now, now),
                    sender: LwwReg::new(caller.clone(), now),
                    sender_username: LwwReg::new(username, now),
                    mentions,
                    mentions_usernames,
                    id: LwwReg::new(id.duplicate(), now),
                    text: LwwReg::new(text, now),
                    edited_on: LwwReg::new(0, now),
                    deleted: LwwReg::new(false, now),
                    group: LwwReg::new(channel.name.clone(), now),
                    reactions: Vec::new(),
                };
                let entry = MessageEntry { message: msg, replies: Vec::new() };
                let ghost pre = self.channels@;
                let ghost oldi = self.channels@[ci as int].1;
                self.channels[ci].1.messages.push(entry);
                proof {
                    assert(self.channels@[ci as int].1.messages@.subrange(
                        0,
                        oldi.messages@.len() as int,
                    ) =~= oldi.messages@);
                    assert forall|j: int|
                        0 <= j < oldi.unread_tracking@.len() implies (
                    #[trigger] oldi.unread_tracking@[j]).1.unread_count < u32::MAX by {
                        assert(oldi.unread_tracking@[j].1.unread_count <= oldi.messages@.len());
                    }
                }
                bump_unread(
                    &mut self.channels[ci].1.unread_tracking,
                    &members_copy,
                    &caller,
                );
                proof {
                    assert forall|j: int|
                        0 <= j < self.channels@[ci as int].1.mentions_tracking@.len() implies (
                    #[trigger] self.channels@[ci as int].1.mentions_tracking@[j]).1@.len()
                        < u32::MAX by {
                        assert(oldi.mentions_tracking@[j].1@.len() <= oldi.messages@.len());
                    }
                }
                append_mentions(
                    &mut self.channels[ci].1.mentions_tracking,
                    &mentioned,
                    &rec,
                );
                proof {
                    let newi = self.channels@[ci as int].1;
                    let new_len = oldi.messages@.len() + 1;
                    assert(mentions_appended(
                        oldi.mentions_tracking@,
                        newi.mentions_tracking@,
                        mentions@,
                        id,
                        now,
                    )) by {
                        assert(mention_rec_ok(rec, id, now));
                        assert forall|x: Seq<char>|
                            #[trigger] has_key(newi.mentions_tracking@, x) == (has_key(
                                oldi.mentions_tracking@,
                                x,
                            ) || has_str(mentions@, x)) by {
                            assert(has_str(mentioned@, x) == has_str(mentions@, x));
                        }
                        assert forall|x: Seq<char>|
                            has_str(mentions@, x) && has_key(oldi.mentions_tracking@, x)
                                implies #[trigger] lookup(newi.mentions_tracking@, x)@.len()
                            == lookup(oldi.mentions_tracking@, x)@.len() + 1 && lookup(
                            newi.mentions_tracking@,
                            x,
                        )@.subrange(0, lookup(oldi.mentions_tracking@, x)@.len() as int)
                            == lookup(oldi.mentions_tracking@, x)@ && mention_rec_ok(
                            lookup(newi.mentions_tracking@, x)@.last(),
                            id,
                            now,
                        ) by {
                            assert(has_str(mentioned@, x));
                            assert(mentions_last_like(
                                lookup(newi.mentions_tracking@, x)@.last(),
                                rec,
                            ));
                        }
                        assert forall|x: Seq<char>|
                            has_str(mentions@, x) && !has_key(oldi.mentions_tracking@, x)
                                implies #[trigger] lookup(newi.mentions_tracking@, x)@.len() == 1
                            && mention_rec_ok(lookup(newi.mentions_tracking@, x)@.last(), id, now)
                            by {
                            assert(has_str(mentioned@, x));
                            assert(mentions_last_like(
                                lookup(newi.mentions_tracking@, x)@.last(),
                                rec,
                            ));
                        }
                        assert forall|x: Seq<char>|
                            !has_str(mentions@, x) && has_key(oldi.mentions_tracking@, x)
                                implies #[trigger] lookup(newi.mentions_tracking@, x) == lookup(
                            oldi.mentions_tracking@,
                            x,
                        ) by {
                            assert(!has_str(mentioned@, x));
                        }
                    }
                    assert(newi.wf()) by {
                        assert(newi.messages@.len() == new_len);
                        assert forall|j: int|
                            0 <= j < newi.messages@.len() implies (
                        #[trigger] newi.messages@[j]).wf() by {
                            if j < oldi.messages@.len() {
                                assert(newi.messages@[j] == oldi.messages@[j]);
                            } else {
                                assert(newi.messages@[j].message.reactions@.len() == 0);
                                assert(newi.messages@[j].replies@.len() == 0);
                            }
                        }
                        assert forall|j: int|
                            0 <= j < newi.unread_tracking@.len() implies (
                        #[trigger] newi.unread_tracking@[j]).1.unread_count
                            <= newi.messages@.len() by {
                            let x = newi.unread_tracking@[j].0@;
                            lemma_key_idx(newi.unread_tracking@, x, j);
                            if has_str(members_copy@, x) && x != caller@ {
                                if has_key(oldi.unread_tracking@, x) {
                                    let jo = crate::assoc::key_idx(oldi.unread_tracking@, x);
                                    assert(oldi.unread_tracking@[jo].1.unread_count
                                        <= oldi.messages@.len());
                                }
                            } else {
                                assert(has_key(oldi.unread_tracking@, x));
                                let jo = crate::assoc::key_idx(oldi.unread_tracking@, x);
                                assert(oldi.unread_tracking@[jo].1.unread_count
                                    <= oldi.messages@.len());
                            }
                        }
                        assert forall|j: int|
                            0 <= j < newi.mentions_tracking@.len() implies (
                        #[trigger] newi.mentions_tracking@[j]).1@.len() <= newi.messages@.len()
                            by {
                            let x = newi.mentions_tracking@[j].0@;
                            lemma_key_idx(newi.mentions_tracking@, x, j);
                            if has_str(mentioned@, x) {
                                if has_key(oldi.mentions_tracking@, x) {
                                    let jo = crate::assoc::key_idx(oldi.mentions_tracking@, x);
                                    assert(oldi.mentions_tracking@[jo].1@.len()
                                        <= oldi.messages@.len());
                                }
                            } else {
                                assert(has_key(oldi.mentions_tracking@, x));
                                let jo = crate::assoc::key_idx(oldi.mentions_tracking@, x);
                                assert(oldi.mentions_tracking@[jo].1@.len()
                                    <= oldi.messages@.len());
                            }
                        }
                        assert forall|u: Seq<char>| has_str(newi.members@, u) implies has_key(
                            newi.unread_tracking@,
                            u,
                        ) && has_key(newi.mentions_tracking@, u) by {
                            assert(has_str(oldi.members@, u));
                            assert(has_key(oldi.unread_tracking@, u));
                            assert(has_key(oldi.mentions_tracking@, u));
                        }
                    }
                    assert(self.channels@ == pre.update(
                        ci as int,
                        (pre[ci as int].0, newi),
                    ));
                    lemma_update_same_key(pre, ci as int, (pre[ci as int].0, newi));
                }
                Ok(id)
            },
        }
    }
}

/// Whether some reply in `e`'s thread carries the identifier `pid`.
pub open spec fn reply_match_in_entry(e: MessageEntry, pid: MessageId) -> bool {
    exists|k: int| 0 <= k < e.replies@.len() && e.replies@[k].id.value.matches_spec(pid)
}

/// Whether some reply anywhere in `ms` carries the identifier `pid`.
pub open spec fn reply_match_in(ms: Seq<MessageEntry>, pid: MessageId) -> bool {
    exists|j: int| 0 <= j < ms.len() && reply_match_in_entry(#[trigger] ms[j], pid)
}

/// `(j, k)` is the first reply position in `ms` carrying `pid`, in entry
/// order then reply order.
pub open spec fn reply_first_at(ms: Seq<MessageEntry>, pid: MessageId, j: int, k: int) -> bool {
    &&& 0 <= j < ms.len()
    &&& 0 <= k < ms[j].replies@.len()
    &&& ms[j].replies@[k].id.value.matches_spec(pid)
    &&& forall|j2: int| 0 <= j2 < j ==> !reply_match_in_entry(#[trigger] ms[j2], pid)
    &&& forall|k2: int|
        0 <= k2 < k ==> !(#[trigger] ms[j].replies@[k2].id.value.matches_spec(pid))
}

/// Finds the first reply position in `ms` carrying `pid`.
fn find_reply_in_entries(ms: &Vec<MessageEntry>, pid: &MessageId) -> (r: Option<(usize, usize)>)
    ensures
        match r {
            Some(p) => reply_first_at(ms@, *pid, p.0 as int, p.1 as int),
            None => !reply_match_in(ms@, *pid),
        },
{
    let mut j: usize = 0;
    while j < ms.len()
        invariant
            j <= ms@.len(),
            forall|j2: int| 0 <= j2 < j ==> !reply_match_in_entry(#[trigger] ms@[j2], *pid),
        decreases ms@.len() - j,
    {
        let mut k: usize = 0;
        while k < ms[j].replies.len()
            invariant
                j < ms@.len(),
                k <= ms@[j as int].replies@.len(),
                forall|j2: int| 0 <= j2 < j ==> !reply_match_in_entry(#[trigger] ms@[j2], *pid),
                forall|k2: int|
                    0 <= k2 < k ==> !(#[trigger] ms@[j as int].replies@[k2].id.value.matches_spec(
                        *pid,
                    )),
            decreases ms@[j as int].replies@.len() - k,
        {
            if ms[j].replies[k].id.value.same_as(pid) {
                return Some((j, k));
            }
            k += 1;
        }
        proof {
            assert(!reply_match_in_entry(ms@[j as int], *pid));
        }
        j += 1;
    }
    None
}

/// The same message with its text overwritten and its edit time stamped.
pub open spec fn edited_msg(m: Message, text: String, now: u64) -> Message {
    Message {
        text: LwwReg { value: text, written_at: now },
        edited_on: LwwReg { value: now, written_at: now },
        ..m
    }
}

/// `newm` is `m` turned into a tombstone: text cleared, deleted flag set,
/// every other field untouched.  The slot the message occupies is kept.
pub open spec fn tombstoned(m: Message, newm: Message, now: u64) -> bool {
    &&& newm.text.value@ == Seq::<char>::empty()
    &&& newm.text.written_at == now
    &&& newm.deleted == (LwwReg { value: true, written_at: now })
    &&& newm.timestamp == m.timestamp
    &&& newm.sender == m.sender
    &&& newm.sender_username == m.sender_username
    &&& newm.mentions == m.mentions
    &&& newm.mentions_usernames == m.mentions_usernames
    &&& newm.id == m.id
    &&& newm.edited_on == m.edited_on
    &&& newm.group == m.group
    &&& newm.reactions == m.reactions
}

impl CurbChat {
    /// `(ci, mi)` is the position of the first top-level message carrying
    /// `pid`, scanning channels in registry order.
    pub open spec fn scan_top_at(self, pid: MessageId, ci: int, mi: int) -> bool {
        &&& 0 <= ci < self.channels@.len()
        &&& top_first_at(self.channels@[ci].1.messages@, pid, mi)
        &&& forall|c2: int|
            0 <= c2 < ci ==> !top_match_in((#[trigger] self.channels@[c2]).1.messages@, pid)
    }

    /// Whether any channel holds a top-level message carrying `pid`.
    pub open spec fn any_top_match(self, pid: MessageId) -> bool {
        exists|ci: int|
            0 <= ci < self.channels@.len() && top_match_in(
                (#[trigger] self.channels@[ci]).1.messages@,
                pid,
            )
    }

    /// `(ci, mi, ti)` is the position of the first thread reply carrying
    /// `pid`, scanning channels in registry order.
    pub open spec fn scan_reply_at(self, pid: MessageId, ci: int, mi: int, ti: int) -> bool {
        &&& 0 <= ci < self.channels@.len()
        &&& reply_first_at(self.channels@[ci].1.messages@, pid, mi, ti)
        &&& forall|c2: int|
            0 <= c2 < ci ==> !reply_match_in((#[trigger] self.channels@[c2]).1.messages@, pid)
    }

    /// Whether any thread holds a reply carrying `pid`.
    pub open spec fn any_reply_match(self, pid: MessageId) -> bool {
        exists|ci: int|
            0 <= ci < self.channels@.len() && reply_match_in(
                (#[trigger] self.channels@[ci]).1.messages@,
                pid,
            )
    }

    /// Finds the first top-level message carrying `pid` across channels.
    pub(crate) fn find_top_message(&self, pid: &MessageId) -> (r: Option<(usize, usize)>)
        ensures
            match r {
                Some(p) => self.scan_top_at(*pid, p.0 as int, p.1 as int),
                None => !self.any_top_match(*pid),
            },
    {
        let mut ci: usize = 0;
        while ci < self.channels.len()
            invariant
                ci <= self.channels@.len(),
                forall|c2: int|
                    0 <= c2 < ci ==> !top_match_in(
                        (#[trigger] self.channels@[c2]).1.messages@,
                        *pid,
                    ),
            decreases self.channels@.len() - ci,
        {
            let found = find_entry_by_id(&self.channels[ci].1.messages, pid);
            match found {
                Some(mi) => {
                    return Some((ci, mi));
                },
                None => {},
            }
            ci += 1;
        }
        None
    }

    /// Finds the first thread reply carrying `pid` across channels.
    pub(crate) fn find_reply_message(&self, pid: &MessageId) -> (r: Option<(usize, usize, usize)>)
        ensures
            match r {
                Some(p) => self.scan_reply_at(*pid, p.0 as int, p.1 as int, p.2 as int),
                None => !self.any_reply_match(*pid),
            },
    {
        let mut ci: usize = 0;
        while ci < self.channels.len()
            invariant
                ci <= self.channels@.len(),
                forall|c2: int|
                    0 <= c2 < ci ==> !reply_match_in(
                        (#[trigger] self.channels@[c2]).1.messages@,
                        *pid,
                    ),
            decreases self.channels@.len() - ci,
        {
            let found = find_reply_in_entries(&self.channels[ci].1.messages, pid);
            match found {
                Some(p) => {
                    return Some((ci, p.0, p.1));
                },
                None => {},
            }
            ci += 1;
        }
        None
    }

    /// The entry at the first top-level scan position for `pid`.
    pub open spec fn top_entry(self, pid: MessageId) -> MessageEntry {
        let p = choose|p: (int, int)| self.scan_top_at(pid, p.0, p.1);
        self.channels@[p.0].1.messages@[p.1]
    }

    /// The message at the first top-level scan position for `pid`.
    pub open spec fn top_msg(self, pid: MessageId) -> Message {
        self.top_entry(pid).message
    }

    /// The reply at the first thread scan position for `pid`.
    pub open spec fn reply_msg(self, pid: MessageId) -> Message {
        let p = choose|p: (int, int, int)| self.scan_reply_at(pid, p.0, p.1, p.2);
        self.channels@[p.0].1.messages@[p.1].replies@[p.2]
    }

    /// The message the identifier `pid` resolves to: the first top-level
    /// match, or failing that the first thread match.
    pub open spec fn located_msg(self, pid: MessageId) -> Message {
        if self.any_top_match(pid) {
            self.top_msg(pid)
        } else {
            self.reply_msg(pid)
        }
    }

    /// A scan position pins the scanned-for message.
    pub proof fn lemma_scan_top_unique(self, pid: MessageId, ci: int, mi: int)
        requires
            self.scan_top_at(pid, ci, mi),
        ensures
            self.any_top_match(pid),
            self.top_entry(pid) == self.channels@[ci].1.messages@[mi],
            self.top_msg(pid) == self.channels@[ci].1.messages@[mi].message,
    {
        assert(self.channels@[ci].1.messages@[mi].message.id.value.matches_spec(pid));
        assert(top_match_in(self.channels@[ci].1.messages@, pid));
        assert(self.any_top_match(pid));
        let w = (ci, mi);
        assert(self.scan_top_at(pid, w.0, w.1));
        let p = choose|p: (int, int)| self.scan_top_at(pid, p.0, p.1);
        assert(self.scan_top_at(pid, p.0, p.1));
        if p.0 < ci {
            assert(top_match_in(self.channels@[p.0].1.messages@, pid));
        } else if ci < p.0 {
            assert(top_match_in(self.channels@[ci].1.messages@, pid));
        }
        assert(p.0 == ci);
        if p.1 < mi {
            assert(self.channels@[ci].1.messages@[p.1].message.id.value.matches_spec(pid));
        } else if mi < p.1 {
            assert(self.channels@[ci].1.messages@[mi].message.id.value.matches_spec(pid));
        }
        assert(p.1 == mi);
    }

    /// A thread scan position pins the scanned-for reply.
    pub proof fn lemma_scan_reply_unique(self, pid: MessageId, ci: int, mi: int, ti: int)
        requires
            self.scan_reply_at(pid, ci, mi, ti),
        ensures
            self.any_reply_match(pid),
            self.reply_msg(pid) == self.channels@[ci].1.messages@[mi].replies@[ti],
    {
        assert(reply_match_in_entry(self.channels@[ci].1.messages@[mi], pid));
        assert(reply_match_in(self.channels@[ci].1.messages@, pid));
        assert(self.any_reply_match(pid));
        let w = (ci, mi, ti);
        assert(self.scan_reply_at(pid, w.0, w.1, w.2));
        let p = choose|p: (int, int, int)| self.scan_reply_at(pid, p.0, p.1, p.2);
        assert(self.scan_reply_at(pid, p.0, p.1, p.2));
        if p.0 < ci {
            assert(reply_match_in(self.channels@[p.0].1.messages@, pid));
        } else if ci < p.0 {
            assert(reply_match_in(self.channels@[ci].1.messages@, pid));
        }
        assert(p.0 == ci);
        if p.1 < mi {
            assert(reply_match_in_entry(self.channels@[ci].1.messages@[p.1], pid));
        } else if mi < p.1 {
            assert(reply_match_in_entry(self.channels@[ci].1.messages@[mi], pid));
        }
        assert(p.1 == mi);
        if p.2 < ti {
            assert(self.channels@[ci].1.messages@[mi].replies@[p.2].id.value.matches_spec(pid));
        } else if ti < p.2 {
            assert(self.channels@[ci].1.messages@[mi].replies@[ti].id.value.matches_spec(pid));
        }
        assert(p.2 == ti);
    }
}

/// Every field of the channel but its message store is untouched.
pub open spec fn info_messages_changed(oldi: crate::channel::ChannelInfo, newi: crate::channel::ChannelInfo) -> bool {
    &&& newi.channel_type == oldi.channel_type
    &&& newi.read_only == oldi.read_only
    &&& newi.meta == oldi.meta
    &&& newi.members == oldi.members
    &&& newi.unread_tracking == oldi.unread_tracking
    &&& newi.mentions_tracking == oldi.mentions_tracking
}

/// Exactly one channel entry changed, and none of the chat's other state.
pub open spec fn channels_updated_at(pre: CurbChat, post: CurbChat, ci: int) -> bool {
    &&& 0 <= ci < pre.channels@.len()
    &&& post.channels@ == pre.channels@.update(ci, (pre.channels@[ci].0, post.channels@[ci].1))
    &&& post.owner == pre.owner
    &&& post.name == pre.name
    &&& post.created_at == pre.created_at
    &&& post.is_dm == pre.is_dm
    &&& post.members == pre.members
    &&& post.member_usernames == pre.member_usernames
    &&& post.moderators == pre.moderators
    &&& post.dm_chats == pre.dm_chats
}

/// Exactly the top-level message at `(ci, mi)` became `newm`; its thread,
/// its channel's other state and every other channel are untouched.
pub open spec fn updated_top_msg(
    pre: CurbChat,
    post: CurbChat,
    ci: int,
    mi: int,
    newm: Message,
) -> bool {
    &&& channels_updated_at(pre, post, ci)
    &&& 0 <= mi < pre.channels@[ci].1.messages@.len()
    &&& info_messages_changed(pre.channels@[ci].1, post.channels@[ci].1)
    &&& post.channels@[ci].1.messages@ == pre.channels@[ci].1.messages@.update(
        mi,
        (MessageEntry { message: newm, replies: pre.channels@[ci].1.messages@[mi].replies }),
    )
}

/// Exactly the reply at `(ci, mi, ti)` became `newm`; everything else is
/// untouched.
pub open spec fn updated_reply_msg(
    pre: CurbChat,
    post: CurbChat,
    ci: int,
    mi: int,
    ti: int,
    newm: Message,
) -> bool {
    &&& channels_updated_at(pre, post, ci)
    &&& 0 <= mi < pre.channels@[ci].1.messages@.len()
    &&& 0 <= ti < pre.channels@[ci].1.messages@[mi].replies@.len()
    &&& info_messages_changed(pre.channels@[ci].1, post.channels@[ci].1)
    &&& post.channels@[ci].1.messages@ == pre.channels@[ci].1.messages@.update(
        mi,
        (MessageEntry {
            message: pre.channels@[ci].1.messages@[mi].message,
            replies: post.channels@[ci].1.messages@[mi].replies,
        }),
    )
    &&& post.channels@[ci].1.messages@[mi].replies@ == pre.channels@[ci].1.messages@[mi].replies@
        .update(ti, newm)
}

/// A message-store-only change with equally many, individually
/// well-formed entries preserves the whole aggregate's well-formedness.
pub proof fn lemma_wf_msg_store(pre: CurbChat, post: CurbChat, ci: int)
    requires
        pre.wf(),
        channels_updated_at(pre, post, ci),
        info_messages_changed(pre.channels@[ci].1, post.channels@[ci].1),
        post.channels@[ci].1.messages@.len() == pre.channels@[ci].1.messages@.len(),
        forall|j: int|
            0 <= j < post.channels@[ci].1.messages@.len() ==> (#[trigger] post.channels@[
                ci
            ].1.messages@[j]).wf(),
    ensures
        post.wf(),
{
    let oldi = pre.channels@[ci].1;
    let newi = post.channels@[ci].1;
    assert(newi.wf()) by {
        assert forall|j: int|
            0 <= j < newi.unread_tracking@.len() implies (
        #[trigger] newi.unread_tracking@[j]).1.unread_count <= newi.messages@.len() by {
            assert(oldi.unread_tracking@[j].1.unread_count <= oldi.messages@.len());
        }
        assert forall|j: int|
            0 <= j < newi.mentions_tracking@.len() implies (
        #[trigger] newi.mentions_tracking@[j]).1@.len() <= newi.messages@.len() by {
            assert(oldi.mentions_tracking@[j].1@.len() <= oldi.messages@.len());
        }
    }
    assert forall|i: int| 0 <= i < post.channels@.len() implies (
    #[trigger] post.channels@[i]).1.wf() by {
        if i != ci {
            assert(post.channels@[i] == pre.channels@[i]);
        }
    }
    assert(uniq_keys(post.channels@)) by {
        assert(forall|i: int|
            0 <= i < post.channels@.len() ==> (#[trigger] post.channels@[i]).0
                == pre.channels@[i].0);
    }
}

/// The edit a successful call performs: the located message's text is
/// overwritten and its edit time stamped; nothing else changes.
pub open spec fn edited_rel(
    pre: CurbChat,
    post: CurbChat,
    pid: MessageId,
    text: String,
    now: u64,
) -> bool {
    if pre.any_top_match(pid) {
        exists|p: (int, int)|
            #[trigger] pre.scan_top_at(pid, p.0, p.1) && updated_top_msg(
                pre,
                post,
                p.0,
                p.1,
                edited_msg(pre.top_msg(pid), text, now),
            )
    } else {
        exists|p: (int, int, int)|
            #[trigger] pre.scan_reply_at(pid, p.0, p.1, p.2) && updated_reply_msg(
                pre,
                post,
                p.0,
                p.1,
                p.2,
                edited_msg(pre.reply_msg(pid), text, now),
            )
    }
}

/// The deletion a successful call performs: the located message becomes a
/// tombstone in place; nothing else changes.
pub open spec fn deleted_rel(pre: CurbChat, post: CurbChat, pid: MessageId, now: u64) -> bool {
    if pre.any_top_match(pid) {
        exists|p: (int, int)|
            #[trigger] pre.scan_top_at(pid, p.0, p.1) && updated_top_msg(
                pre,
                post,
                p.0,
                p.1,
                post.channels@[p.0].1.messages@[p.1].message,
            ) && tombstoned(
                pre.top_msg(pid),
                post.channels@[p.0].1.messages@[p.1].message,
                now,
            )
    } else {
        exists|p: (int, int, int)|
            #[trigger] pre.scan_reply_at(pid, p.0, p.1, p.2) && updated_reply_msg(
                pre,
                post,
                p.0,
                p.1,
                p.2,
                post.channels@[p.0].1.messages@[p.1].replies@[p.2],
            ) && tombstoned(
                pre.reply_msg(pid),
                post.channels@[p.0].1.messages@[p.1].replies@[p.2],
                now,
            )
    }
}

impl CurbChat {
    /// Which rule, if any, rejects this edit: the identifier must resolve
    /// to a message, and only its author may edit it — moderators and the
    /// owner have no edit override.
    pub open spec fn edit_error(self, pid: MessageId, caller: Seq<char>) -> Option<ChatError> {
        if self.any_top_match(pid) {
            if self.top_msg(pid).sender.value@ != caller {
                Option::Some(ChatError::NotOwnMessage)
            } else {
                Option::None
            }
        } else if self.any_reply_match(pid) {
            if self.reply_msg(pid).sender.value@ != caller {
                Option::Some(ChatError::NotOwnMessage)
            } else {
                Option::None
            }
        } else {
            Option::Some(ChatError::MessageNotFound)
        }
    }

    /// Edits a message in place: locates it by identifier across all
    /// channels (top-level messages first, then threads), rejects callers
    /// other than the author, then overwrites the text and stamps the
    /// edit time.
    pub fn edit_message(
        &mut self,
        caller: UserId,
        message_id: &MessageId,
        new_text: String,
        now: u64,
    ) -> (r: Result<(), ChatError>)
        requires
            old(self).wf(),
        ensures
            final(self).wf(),
            match r {
                Err(e) => old(self).edit_error(*message_id, caller@) == Option::Some(e)
                    && *final(self) == *old(self),
                Ok(()) => old(self).edit_error(*message_id, caller@) is None && edited_rel(
                    *old(self),
                    *final(self),
                    *message_id,
                    new_text,
                    now,
                ),
            },
    {
        let top = self.find_top_message(message_id);
        match top {
            Some(p) => {
                let (ci, mi) = p;
                proof {
                    self.lemma_scan_top_unique(*message_id, ci as int, mi as int);
                }
                if !(self.channels[ci].1.messages[mi].message.sender.value == caller) {
                    return Err(ChatError::NotOwnMessage);
                }
                let ghost pre = *self;
                self.channels[ci].1.messages[mi].message.text.set(new_text, now);
                self.channels[ci].1.messages[mi].message.edited_on.set(now, now);
                proof {
                    let newm = self.channels@[ci as int].1.messages@[mi as int].message;
                    assert(newm == edited_msg(pre.top_msg(*message_id), new_text, now));
                    assert(self.channels@[ci as int].1.messages@ == pre.channels@[
                        ci as int
                    ].1.messages@.update(
                        mi as int,
                        (MessageEntry {
                            message: newm,
                            replies: pre.channels@[ci as int].1.messages@[mi as int].replies,
                        }),
                    ));
                    assert(self.channels@ == pre.channels@.update(
                        ci as int,
                        (pre.channels@[ci as int].0, self.channels@[ci as int].1),
                    ));
                    assert(updated_top_msg(pre, *self, ci as int, mi as int, newm));
                    assert forall|j: int|
                        0 <= j < self.channels@[ci as int].1.messages@.len() implies (
                    #[trigger] self.channels@[ci as int].1.messages@[j]).wf() by {
                        if j != mi as int {
                            assert(self.channels@[ci as int].1.messages@[j]
                                == pre.channels@[ci as int].1.messages@[j]);
                        } else {
                            assert(newm.reactions
                                == pre.channels@[ci as int].1.messages@[j].message.reactions);
                        }
                    }
                    lemma_wf_msg_store(pre, *self, ci as int);
                }
                Ok(())
            },
            None => {
                let rep = self.find_reply_message(message_id);
                match rep {
                    Some(p) => {
                        let (ci, mi, ti) = p;
                        proof {
                            self.lemma_scan_reply_unique(
                                *message_id,
                                ci as int,
                                mi as int,
                                ti as int,
                            );
                        }
                        if !(self.channels[ci].1.messages[mi].replies[ti].sender.value
                            == caller) {
                            return Err(ChatError::NotOwnMessage);
                        }
                        let ghost pre = *self;
                        self.channels[ci].1.messages[mi].replies[ti].text.set(new_text, now);
                        self.channels[ci].1.messages[mi].replies[ti].edited_on.set(now, now);
                        proof {
                            let newm = self.channels@[ci as int].1.messages@[mi as int].replies@[
                                ti as int
                            ];
                            assert(newm == edited_msg(pre.reply_msg(*message_id), new_text, now));
                            assert(self.channels@[ci as int].1.messages@[mi as int].replies@
                                == pre.channels@[ci as int].1.messages@[mi as int].replies@.update(
                                ti as int,
                                newm,
                            ));
                            assert(self.channels@[ci as int].1.messages@ == pre.channels@[
                                ci as int
                            ].1.messages@.update(
                                mi as int,
                                (MessageEntry {
                                    message: pre.channels@[ci as int].1.messages@[
                                        mi as int
                                    ].message,
                                    replies: self.channels@[ci as int].1.messages@[
                                        mi as int
                                    ].replies,
                                }),
                            ));
                            assert(self.channels@ == pre.channels@.update(
                                ci as int,
                                (pre.channels@[ci as int].0, self.channels@[ci as int].1),
                            ));
                            assert(updated_reply_msg(
                                pre,
                                *self,
                                ci as int,
                                mi as int,
                                ti as int,
                                newm,
                            ));
                            assert forall|j: int|
                                0 <= j < self.channels@[ci as int].1.messages@.len() implies (
                            #[trigger] self.channels@[ci as int].1.messages@[j]).wf() by {
                                if j != mi as int {
                                    assert(self.channels@[ci as int].1.messages@[j]
                                        == pre.channels@[ci as int].1.messages@[j]);
                                } else {
                                    let olde = pre.channels@[ci as int].1.messages@[j];
                                    let newe = self.channels@[ci as int].1.messages@[j];
                                    assert(newe.message == olde.message);
                                    assert forall|k: int|
                                        0 <= k < newe.replies@.len() implies (
                                    #[trigger] newe.replies@[k]).wf() by {
                                        if k != ti as int {
                                            assert(newe.replies@[k] == olde.replies@[k]);
                                        } else {
                                            assert(newm.reactions
                                                == olde.replies@[k as int].reactions);
                                        }
                                    }
                                }
                            }
                            lemma_wf_msg_store(pre, *self, ci as int);
                        }
                        Ok(())
                    },
                    None => Err(ChatError::MessageNotFound),
                }
            },
        }
    }

    /// Which rule, if any, rejects this deletion: the identifier must
    /// resolve to a message, and only its sender, a moderator or the chat
    /// owner may delete it.
    pub open spec fn delete_error(self, pid: MessageId, caller: Seq<char>) -> Option<ChatError> {
        if self.any_top_match(pid) {
            if !self.can_delete_spec(self.top_msg(pid), caller) {
                Option::Some(ChatError::NoDeletePermission)
            } else {
                Option::None
            }
        } else if self.any_reply_match(pid) {
            if !self.can_delete_spec(self.reply_msg(pid), caller) {
                Option::Some(ChatError::NoDeletePermission)
            } else {
                Option::None
            }
        } else {
            Option::Some(ChatError::MessageNotFound)
        }
    }

    /// Deletes a message as a tombstone: locates it by identifier, checks
    /// that the caller is its sender, a moderator or the chat owner, then
    /// clears the text and sets the deleted flag.  The message keeps its
    /// position; history length and indices are preserved.
    pub fn delete_message(&mut self, caller: UserId, message_id: &MessageId, now: u64) -> (r:
        Result<(), ChatError>)
        requires
            old(self).wf(),
        ensures
            final(self).wf(),
            match r {
                Err(e) => old(self).delete_error(*message_id, caller@) == Option::Some(e)
                    && *final(self) == *old(self),
                Ok(()) => old(self).delete_error(*message_id, caller@) is None && deleted_rel(
                    *old(self),
                    *final(self),
                    *message_id,
                    now,
                ),
            },
    {
        let top = self.find_top_message(message_id);
        match top {
            Some(p) => {
                let (ci, mi) = p;
                proof {
                    self.lemma_scan_top_unique(*message_id, ci as int, mi as int);
                }
                let allowed = {
                    let m = &self.channels[ci].1.messages[mi].message;
                    self.can_delete_message(m, &caller)
                };
                if !allowed {
                    return Err(ChatError::NoDeletePermission);
                }
                let ghost pre = *self;
                self.channels[ci].1.messages[mi].message.text.set(String::new(), now);
                self.channels[ci].1.messages[mi].message.deleted.set(true, now);
                proof {
                    let newm = self.channels@[ci as int].1.messages@[mi as int].message;
                    assert(tombstoned(pre.top_msg(*message_id), newm, now));
                    assert(self.channels@[ci as int].1.messages@ == pre.channels@[
                        ci as int
                    ].1.messages@.update(
                        mi as int,
                        (MessageEntry {
                            message: newm,
                            replies: pre.channels@[ci as int].1.messages@[mi as int].replies,
                        }),
                    ));
                    assert(self.channels@ == pre.channels@.update(
                        ci as int,
                        (pre.channels@[ci as int].0, self.channels@[ci as int].1),
                    ));
                    assert(updated_top_msg(pre, *self, ci as int, mi as int, newm));
                    assert forall|j: int|
                        0 <= j < self.channels@[ci as int].1.messages@.len() implies (
                    #[trigger] self.channels@[ci as int].1.messages@[j]).wf() by {
                        if j != mi as int {
                            assert(self.channels@[ci as int].1.messages@[j]
                                == pre.channels@[ci as int].1.messages@[j]);
                        } else {
                            assert(newm.reactions
                                == pre.channels@[ci as int].1.messages@[j].message.reactions);
                        }
                    }
                    lemma_wf_msg_store(pre, *self, ci as int);
                }
                Ok(())
            },
            None => {
                let rep = self.find_reply_message(message_id);
                match rep {
                    Some(p) => {
                        let (ci, mi, ti) = p;
                        proof {
                            self.lemma_scan_reply_unique(
                                *message_id,
                                ci as int,
                                mi as int,
                                ti as int,
                            );
                        }
                        let allowed = {
                            let m = &self.channels[ci].1.messages[mi].replies[ti];
                            self.can_delete_message(m, &caller)
                        };
                        if !allowed {
                            return Err(ChatError::NoDeletePermission);
                        }
                        let ghost pre = *self;
                        self.channels[ci].1.messages[mi].replies[ti].text.set(
                            String::new(),
                            now,
                        );
                        self.channels[ci].1.messages[mi].replies[ti].deleted.set(true, now);
                        proof {
                            let newm = self.channels@[ci as int].1.messages@[mi as int].replies@[
                                ti as int
                            ];
                            assert(tombstoned(pre.reply_msg(*message_id), newm, now));
                            assert(self.channels@[ci as int].1.messages@[mi as int].replies@
                                == pre.channels@[ci as int].1.messages@[mi as int].replies@.update(
                                ti as int,
                                newm,
                            ));
                            assert(self.channels@[ci as int].1.messages@ == pre.channels@[
                                ci as int
                            ].1.messages@.update(
                                mi as int,
                                (MessageEntry {
                                    message: pre.channels@[ci as int].1.messages@[
                                        mi as int
                                    ].message,
                                    replies: self.channels@[ci as int].1.messages@[
                                        mi as int
                                    ].replies,
                                }),
                            ));
                            assert(self.channels@ == pre.channels@.update(
                                ci as int,
                                (pre.channels@[ci as int].0, self.channels@[ci as int].1),
                            ));
                            assert(updated_reply_msg(
                                pre,
                                *self,
                                ci as int,
                                mi as int,
                                ti as int,
                                newm,
                            ));
                            assert forall|j: int|
                                0 <= j < self.channels@[ci as int].1.messages@.len() implies (
                            #[trigger] self.channels@[ci as int].1.messages@[j]).wf() by {
                                if j != mi as int {
                                    assert(self.channels@[ci as int].1.messages@[j]
                                        == pre.channels@[ci as int].1.messages@[j]);
                                } else {
                                    let olde = pre.channels@[ci as int].1.messages@[j];
                                    let newe = self.channels@[ci as int].1.messages@[j];
                                    assert(newe.message == olde.message);
                                    assert forall|k: int|
                                        0 <= k < newe.replies@.len() implies (
                                    #[trigger] newe.replies@[k]).wf() by {
                                        if k != ti as int {
                                            assert(newe.replies@[k] == olde.replies@[k]);
                                        } else {
                                            assert(newm.reactions
                                                == olde.replies@[k as int].reactions);
                                        }
                                    }
                                }
                            }
                            lemma_wf_msg_store(pre, *self, ci as int);
                        }
                        Ok(())
                    },
                    None => Err(ChatError::MessageNotFound),
                }
            },
        }
    }
}

/// A copy of a user list, equal element by element.
pub(crate) fn clone_user_vec(v: &Vec<UserId>) -> (r: Vec<UserId>)
    ensures
        r@ == v@,
{
    let mut r: Vec<UserId> = Vec::new();
    let mut i: usize = 0;
    while i < v.len()
        invariant
            i <= v@.len(),
            r@ == v@.subrange(0, i as int),
        decreases v@.len() - i,
    {
        r.push(v[i].clone());
        proof {
            assert(r@ =~= v@.subrange(0, i as int + 1));
        }
        i += 1;
    }
    proof {
        assert(r@ =~= v@);
    }
    r
}

/// The appended record carries the same mention facts as `rec`.
pub open spec fn mentions_last_like(e: UserChannelMentions, rec: UserChannelMentions) -> bool {
    &&& e.message_id == rec.message_id
    &&& e.mention_count == rec.mention_count
    &&& e.mention_types@ == rec.mention_types@
    &&& e.timestamp == rec.timestamp
}

} // verus!

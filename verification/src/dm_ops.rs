//! The direct-message handshake and conversation bookkeeping.
//!
//! A conversation is created by an inviter, recorded symmetrically under
//! both participants, and completed in steps: each side may rotate in a
//! conversation-scoped identity, the inviter propagates the invitation
//! payload, and the invitee accepts.  A content-hash pair per record
//! detects whether the peer has sent something since the owner last
//! looked.

use vstd::prelude::*;
use crate::assoc::assoc_find;
use crate::assoc::has_key;
use crate::assoc::lemma_key_idx;
use crate::assoc::lemma_push_new_key;
use crate::assoc::lemma_update_same_key;
use crate::assoc::lookup;
use crate::assoc::uniq_keys;
use crate::channel::ChannelType;
use crate::dm::DMChatInfo;
use crate::dm::dm_find;
use crate::dm::dm_find_old;
use crate::dm::dm_has_old;
use crate::dm::dm_list_wf;
use crate::dm::dm_match_at;
use crate::dm::dm_match_has;
use crate::dm::dm_match_idx;
use crate::dm::dm_matches;
use crate::dm::dm_old_at;
use crate::dm::dm_old_idx;
use crate::dm::lemma_dm_first_match;
use crate::dm::lemma_dm_old_idx;
use crate::errors::ChatError;
use crate::message::UserId;
use crate::state::CurbChat;

verus! {

/// The conversation records `u` owns; empty when none were created yet.
pub open spec fn dm_list_of(m: Seq<(String, Vec<DMChatInfo>)>, u: Seq<char>) -> Seq<DMChatInfo> {
    if has_key(m, u) {
        lookup(m, u)@
    } else {
        Seq::empty()
    }
}

/// Everything but the conversation records is untouched.
pub open spec fn only_dms_changed(pre: CurbChat, post: CurbChat) -> bool {
    &&& post.owner == pre.owner
    &&& post.name == pre.name
    &&& post.created_at == pre.created_at
    &&& post.is_dm == pre.is_dm
    &&& post.members == pre.members
    &&& post.member_usernames == pre.member_usernames
    &&& post.moderators == pre.moderators
    &&& post.channels == pre.channels
}

/// What a freshly created conversation record owned by `me` looks like:
/// created by `inviter` at `created_at` under the shared context, both
/// identities seeded from the chat-wide ones, the display names captured,
/// the content hashes empty and nothing unread.
pub open spec fn dm_created_rec(
    rec: DMChatInfo,
    pre: CurbChat,
    me: UserId,
    peer: UserId,
    context: Seq<char>,
    payload: Seq<char>,
    created_at: u64,
    inviter: UserId,
    joined: bool,
) -> bool {
    &&& rec.created_at == created_at
    &&& rec.context_id@ == context
    &&& rec.channel_type == ChannelType::Private
    &&& rec.created_by == inviter
    &&& rec.own_identity_old == me
    &&& rec.own_identity == Option::Some(me)
    &&& rec.own_username@ == pre.username_view(me@)
    &&& rec.other_identity_old == peer
    &&& rec.other_identity_new == Option::Some(peer)
    &&& rec.other_username@ == pre.username_view(peer@)
    &&& rec.did_join == joined
    &&& rec.invitation_payload@ == payload
    &&& rec.old_hash@ == Seq::<char>::empty()
    &&& rec.new_hash@ == Seq::<char>::empty()
    &&& rec.unread_messages == 0
}

/// Some record of the list carries this conversation context.
pub open spec fn context_match_has(s: Seq<DMChatInfo>, context: Seq<char>) -> bool {
    exists|i: int| 0 <= i < s.len() && s[i].context_id@ == context
}

/// `i` is the first record carrying this conversation context.
pub open spec fn context_first_at(s: Seq<DMChatInfo>, context: Seq<char>, i: int) -> bool {
    &&& 0 <= i < s.len()
    &&& s[i].context_id@ == context
    &&& forall|j: int| 0 <= j < i ==> (#[trigger] s[j]).context_id@ != context
}

/// The unread counters of a record list, summed in order.
pub open spec fn total_dm_unread(s: Seq<DMChatInfo>) -> int
    decreases s.len(),
{
    if s.len() == 0 {
        0
    } else {
        total_dm_unread(s.drop_last()) + s.last().unread_messages as int
    }
}

/// Unread sums are never negative.
pub proof fn lemma_total_dm_unread_nonneg(s: Seq<DMChatInfo>)
    ensures
        total_dm_unread(s) >= 0,
    decreases s.len(),
{
    if s.len() > 0 {
        lemma_total_dm_unread_nonneg(s.drop_last());
    }
}

/// `newr` is `oldr` with only its invitation payload overwritten to
/// `payload`.
pub open spec fn payload_set(oldr: DMChatInfo, newr: DMChatInfo, payload: Seq<char>) -> bool {
    &&& newr.invitation_payload@ == payload
    &&& newr == (DMChatInfo { invitation_payload: newr.invitation_payload, ..oldr })
}

/// Appends `rec` to `user`'s conversation records, creating them when
/// absent.
fn push_dm(m: &mut Vec<(UserId, Vec<DMChatInfo>)>, user: &UserId, rec: DMChatInfo)
    requires
        uniq_keys(old(m)@),
        forall|i: int| 0 <= i < old(m)@.len() ==> dm_list_wf((#[trigger] old(m)@[i]).1@),
        !dm_has_old(dm_list_of(old(m)@, user@), rec.other_identity_old@),
    ensures
        uniq_keys(final(m)@),
        forall|i: int| 0 <= i < final(m)@.len() ==> dm_list_wf((#[trigger] final(m)@[i]).1@),
        has_key(final(m)@, user@),
        lookup(final(m)@, user@)@ == dm_list_of(old(m)@, user@).push(rec),
        forall|k: Seq<char>|
            k != user@ ==> #[trigger] has_key(final(m)@, k) == has_key(old(m)@, k),
        forall|k: Seq<char>|
            k != user@ && has_key(old(m)@, k) ==> #[trigger] lookup(final(m)@, k) == lookup(
                old(m)@,
                k,
            ),
{
    let found = assoc_find(m, user);
    match found {
        Some(i) => {
            proof {
                lemma_key_idx(m@, user@, i as int);
            }
            let ghost pre = m@;
            let ghost oldlist = m@[i as int].1@;
            m[i].1.push(rec);
            proof {
                assert(m@ == pre.update(i as int, (pre[i as int].0, m@[i as int].1)));
                lemma_update_same_key(pre, i as int, (pre[i as int].0, m@[i as int].1));
                assert(dm_list_wf(oldlist.push(rec))) by {
                    assert forall|a: int, b: int|
                        0 <= a < b < oldlist.push(rec).len() implies oldlist.push(rec)[
                        a
                    ].other_identity_old@ != oldlist.push(rec)[b].other_identity_old@ by {
                        if b < oldlist.len() {
                            assert(oldlist[a].other_identity_old@
                                != oldlist[b].other_identity_old@);
                        } else {
                            assert(oldlist.push(rec)[b] == rec);
                            if oldlist[a].other_identity_old@ == rec.other_identity_old@ {
                                assert(dm_has_old(oldlist, rec.other_identity_old@));
                            }
                        }
                    }
                }
                assert forall|j: int| 0 <= j < m@.len() implies dm_list_wf(
                    (#[trigger] m@[j]).1@,
                ) by {
                    if j != i as int {
                        assert(m@[j] == pre[j]);
                    }
                }
            }
        },
        None => {
            let mut fresh: Vec<DMChatInfo> = Vec::new();
            fresh.push(rec);
            proof {
                lemma_push_new_key(m@, (*user, fresh));
            }
            m.push((user.clone(), fresh));
            proof {
                assert(dm_list_of(old(m)@, user@) == Seq::<DMChatInfo>::empty());
                assert(lookup(m@, user@)@ =~= dm_list_of(old(m)@, user@).push(rec));
                assert forall|j: int| 0 <= j < m@.len() implies dm_list_wf(
                    (#[trigger] m@[j]).1@,
                ) by {
                    if j < m@.len() - 1 {
                        assert(m@[j] == old(m)@[j]);
                    }
                }
            }
        },
    }
}

impl CurbChat {
    /// Which rule, if any, rejects creating this conversation: a member
    /// cannot converse with themselves, and at most one conversation may
    /// exist per pair, checked on either participant's records.
    pub open spec fn create_dm_error(self, caller: Seq<char>, other: Seq<char>) -> Option<
        ChatError,
    > {
        if caller == other {
            Option::Some(ChatError::SelfDM)
        } else if dm_match_has(dm_list_of(self.dm_chats@, caller), other) {
            Option::Some(ChatError::DMAlreadyExists)
        } else if dm_match_has(dm_list_of(self.dm_chats@, other), caller) {
            Option::Some(ChatError::DMAlreadyExists)
        } else {
            Option::None
        }
    }

    /// Creates a direct-message conversation: one record under each
    /// participant, sharing the context and starting hashes, with the
    /// inviter's side already joined and the invitee's side not yet.
    pub fn create_dm_chat(
        &mut self,
        caller: UserId,
        other_user: UserId,
        context_id: String,
        invitation_payload: String,
        created_at: u64,
    ) -> (r: Result<(), ChatError>)
        requires
            old(self).wf(),
        ensures
            final(self).wf(),
            match r {
                Err(e) => old(self).create_dm_error(caller@, other_user@) == Option::Some(e)
                    && *final(self) == *old(self),
                Ok(()) => old(self).create_dm_error(caller@, other_user@) is None,
            },
            r is Ok ==> {
                let cl = dm_list_of(old(self).dm_chats@, caller@);
                let ol = dm_list_of(old(self).dm_chats@, other_user@);
                &&& has_key(final(self).dm_chats@, caller@)
                &&& has_key(final(self).dm_chats@, other_user@)
                &&& lookup(final(self).dm_chats@, caller@)@.len() == cl.len() + 1
                &&& lookup(final(self).dm_chats@, caller@)@.subrange(0, cl.len() as int) == cl
                &&& dm_created_rec(
                    lookup(final(self).dm_chats@, caller@)@.last(),
                    *old(self),
                    caller,
                    other_user,
                    context_id@,
                    invitation_payload@,
                    created_at,
                    caller,
                    true,
                )
                &&& lookup(final(self).dm_chats@, other_user@)@.len() == ol.len() + 1
                &&& lookup(final(self).dm_chats@, other_user@)@.subrange(0, ol.len() as int)
                    == ol
                &&& dm_created_rec(
                    lookup(final(self).dm_chats@, other_user@)@.last(),
                    *old(self),
                    other_user,
                    caller,
                    context_id@,
                    invitation_payload@,
                    created_at,
                    caller,
                    false,
                )
                &&& forall|k: Seq<char>|
                    k != caller@ && k != other_user@ ==> #[trigger] has_key(
                        final(self).dm_chats@,
                        k,
                    ) == has_key(old(self).dm_chats@, k)
                &&& forall|k: Seq<char>|
                    k != caller@ && k != other_user@ && has_key(old(self).dm_chats@, k)
                        ==> #[trigger] lookup(final(self).dm_chats@, k) == lookup(
                        old(self).dm_chats@,
                        k,
                    )
                &&& only_dms_changed(*old(self), *final(self))
            },
    {
        if caller == other_user {
            return Err(ChatError::SelfDM);
        }
        let caller_side = assoc_find(&self.dm_chats, &caller);
        match caller_side {
            Some(li) => {
                proof {
                    lemma_key_idx(self.dm_chats@, caller@, li as int);
                }
                let hit = dm_find(&self.dm_chats[li].1, &other_user);
                match hit {
                    Some(_) => {
                        proof {
                            assert(dm_match_has(dm_list_of(self.dm_chats@, caller@), other_user@));
                        }
                        return Err(ChatError::DMAlreadyExists);
                    },
                    None => {},
                }
            },
            None => {},
        }
        let other_side = assoc_find(&self.dm_chats, &other_user);
        match other_side {
            Some(li) => {
                proof {
                    lemma_key_idx(self.dm_chats@, other_user@, li as int);
                }
                let hit = dm_find(&self.dm_chats[li].1, &caller);
                match hit {
                    Some(_) => {
                        proof {
                            assert(dm_match_has(dm_list_of(self.dm_chats@, other_user@), caller@));
                        }
                        return Err(ChatError::DMAlreadyExists);
                    },
                    None => {},
                }
            },
            None => {},
        }
        let caller_name = self.get_username(&caller);
        let other_name = self.get_username(&other_user);
        let rec1 = DMChatInfo {
            created_at,
            context_id: context_id.clone(),
            channel_type: ChannelType::Private,
            created_by: caller.clone(),
            own_identity_old: caller.clone(),
            own_identity: Option::Some(caller.clone()),
            own_username: caller_name.clone(),
            other_identity_old: other_user.clone(),
            other_identity_new: Option::Some(other_user.clone()),
            other_username: other_name.clone(),
            did_join: true,
            invitation_payload: invitation_payload.clone(),
            old_hash: String::new(),
            new_hash: String::new(),
            unread_messages: 0,
        };
        let rec2 = DMChatInfo {
            created_at,
            context_id,
            channel_type: ChannelType::Private,
            created_by: caller.clone(),
            own_identity_old: other_user.clone(),
            own_identity: Option::Some(other_user.clone()),
            own_username: other_name,
            other_identity_old: caller.clone(),
            other_identity_new: Option::Some(caller.clone()),
            other_username: caller_name,
            did_join: false,
            invitation_payload,
            old_hash: String::new(),
            new_hash: String::new(),
            unread_messages: 0,
        };
        proof {
            if dm_has_old(dm_list_of(self.dm_chats@, caller@), other_user@) {
                let i = choose|i: int|
                    0 <= i < dm_list_of(self.dm_chats@, caller@).len() && dm_list_of(
                        self.dm_chats@,
                        caller@,
                    )[i].other_identity_old@ == other_user@;
                assert(dm_matches(dm_list_of(self.dm_chats@, caller@)[i], other_user@));
            }
        }
        push_dm(&mut self.dm_chats, &caller, rec1);
        proof {
            assert(dm_list_of(self.dm_chats@, other_user@) == dm_list_of(
                old(self).dm_chats@,
                other_user@,
            ));
            if dm_has_old(dm_list_of(self.dm_chats@, other_user@), caller@) {
                let l = dm_list_of(self.dm_chats@, other_user@);
                let i = choose|i: int|
                    0 <= i < l.len() && l[i].other_identity_old@ == caller@;
                assert(dm_matches(l[i], caller@));
            }
        }
        push_dm(&mut self.dm_chats, &other_user, rec2);
        proof {
            assert(lookup(self.dm_chats@, caller@)@ == dm_list_of(
                old(self).dm_chats@,
                caller@,
            ).push(rec1));
            assert(lookup(self.dm_chats@, caller@)@.subrange(
                0,
                dm_list_of(old(self).dm_chats@, caller@).len() as int,
            ) =~= dm_list_of(old(self).dm_chats@, caller@));
            assert(lookup(self.dm_chats@, other_user@)@.subrange(
                0,
                dm_list_of(old(self).dm_chats@, other_user@).len() as int,
            ) =~= dm_list_of(old(self).dm_chats@, other_user@));
            assert(self.wf());
        }
        Ok(())
    }

    /// There is no conversation record keyed by `peer` under `u`.
    pub open spec fn dm_missing(self, u: Seq<char>, peer: Seq<char>) -> bool {
        !has_key(self.dm_chats@, u) || !dm_has_old(lookup(self.dm_chats@, u)@, peer)
    }

    /// Rotates the caller's conversation-scoped identity: records it in
    /// the caller's own record for the conversation with `old_identity`,
    /// and mirrors it into the peer's reciprocal record where that
    /// record exists.
    pub fn update_new_identity(
        &mut self,
        caller: UserId,
        old_identity: UserId,
        new_identity: UserId,
    ) -> (r: Result<(), ChatError>)
        requires
            old(self).wf(),
        ensures
            final(self).wf(),
            match r {
                Err(e) => e == ChatError::DMNotFound && old(self).dm_missing(
                    caller@,
                    old_identity@,
                ) && *final(self) == *old(self),
                Ok(()) => !old(self).dm_missing(caller@, old_identity@),
            },
            r is Ok ==> {
                let cl = lookup(old(self).dm_chats@, caller@)@;
                let ci = dm_old_idx(cl, old_identity@);
                &&& lookup(final(self).dm_chats@, caller@)@ == cl.update(
                    ci,
                    (DMChatInfo { own_identity: Option::Some(new_identity), ..cl[ci] }),
                )
                &&& forall|k: Seq<char>|
                    #[trigger] has_key(final(self).dm_chats@, k) == has_key(
                        old(self).dm_chats@,
                        k,
                    )
                &&& forall|k: Seq<char>|
                    k != caller@ && k != old_identity@ && has_key(old(self).dm_chats@, k)
                        ==> #[trigger] lookup(final(self).dm_chats@, k) == lookup(
                        old(self).dm_chats@,
                        k,
                    )
                &&& if old_identity@ != caller@ && has_key(old(self).dm_chats@, old_identity@)
                    && dm_has_old(lookup(old(self).dm_chats@, old_identity@)@, caller@) {
                    let pl = lookup(old(self).dm_chats@, old_identity@)@;
                    let pi = dm_old_idx(pl, caller@);
                    lookup(final(self).dm_chats@, old_identity@)@ == pl.update(
                        pi,
                        (DMChatInfo { other_identity_new: Option::Some(new_identity), ..pl[pi] }),
                    )
                } else {
                    old_identity@ != caller@ && has_key(old(self).dm_chats@, old_identity@)
                        ==> lookup(final(self).dm_chats@, old_identity@) == lookup(
                        old(self).dm_chats@,
                        old_identity@,
                    )
                }
                &&& only_dms_changed(*old(self), *final(self))
            },
    {
        let li = match assoc_find(&self.dm_chats, &caller) {
            None => {
                return Err(ChatError::DMNotFound);
            },
            Some(li) => li,
        };
        proof {
            lemma_key_idx(self.dm_chats@, caller@, li as int);
        }
        let di = match dm_find_old(&self.dm_chats[li].1, &old_identity) {
            None => {
                return Err(ChatError::DMNotFound);
            },
            Some(di) => di,
        };
        proof {
            lemma_dm_old_idx(self.dm_chats@[li as int].1@, old_identity@, di as int);
        }
        let ghost pre = self.dm_chats@;
        self.dm_chats[li].1[di].own_identity = Some(new_identity.clone());
        proof {
            assert(self.dm_chats@[li as int].1@ == pre[li as int].1@.update(
                di as int,
                self.dm_chats@[li as int].1@[di as int],
            ));
            assert(self.dm_chats@ == pre.update(
                li as int,
                (pre[li as int].0, self.dm_chats@[li as int].1),
            ));
            lemma_update_same_key(pre, li as int, (pre[li as int].0, self.dm_chats@[li as int].1));
            assert(dm_list_wf(self.dm_chats@[li as int].1@)) by {
                assert(forall|j: int|
                    0 <= j < pre[li as int].1@.len() ==> (#[trigger] self.dm_chats@[
                        li as int
                    ].1@[j]).other_identity_old@ == pre[li as int].1@[j].other_identity_old@);
            }
            assert(self.wf()) by {
                assert forall|j: int| 0 <= j < self.dm_chats@.len() implies dm_list_wf(
                    (#[trigger] self.dm_chats@[j]).1@,
                ) by {
                    if j != li as int {
                        assert(self.dm_chats@[j] == pre[j]);
                    }
                }
            }
        }
        if !(old_identity == caller) {
            let pli = match assoc_find(&self.dm_chats, &old_identity) {
                None => {
                    return Ok(());
                },
                Some(pli) => pli,
            };
            proof {
                lemma_key_idx(self.dm_chats@, old_identity@, pli as int);
            }
            let pdi = match dm_find_old(&self.dm_chats[pli].1, &caller) {
                None => {
                    return Ok(());
                },
                Some(pdi) => pdi,
            };
            proof {
                lemma_dm_old_idx(self.dm_chats@[pli as int].1@, caller@, pdi as int);
                assert(lookup(self.dm_chats@, old_identity@) == lookup(
                    old(self).dm_chats@,
                    old_identity@,
                ));
            }
            let ghost mid = self.dm_chats@;
            self.dm_chats[pli].1[pdi].other_identity_new = Some(new_identity);
            proof {
                assert(self.dm_chats@[pli as int].1@ == mid[pli as int].1@.update(
                    pdi as int,
                    self.dm_chats@[pli as int].1@[pdi as int],
                ));
                assert(self.dm_chats@ == mid.update(
                    pli as int,
                    (mid[pli as int].0, self.dm_chats@[pli as int].1),
                ));
                lemma_update_same_key(
                    mid,
                    pli as int,
                    (mid[pli as int].0, self.dm_chats@[pli as int].1),
                );
                assert(dm_list_wf(self.dm_chats@[pli as int].1@)) by {
                    assert(forall|j: int|
                        0 <= j < mid[pli as int].1@.len() ==> (#[trigger] self.dm_chats@[
                            pli as int
                        ].1@[j]).other_identity_old@ == mid[pli as int].1@[
                            j
                        ].other_identity_old@);
                }
                assert(self.wf()) by {
                    assert forall|j: int| 0 <= j < self.dm_chats@.len() implies dm_list_wf(
                        (#[trigger] self.dm_chats@[j]).1@,
                    ) by {
                        if j != pli as int {
                            assert(self.dm_chats@[j] == mid[j]);
                        }
                    }
                }
                assert(lookup(self.dm_chats@, caller@) == lookup(mid, caller@));
            }
            Ok(())
        } else {
            Ok(())
        }
    }

    /// Propagates the invitation payload into both sides' records; only
    /// the conversation's inviter may do this.
    pub fn update_invitation_payload(
        &mut self,
        caller: UserId,
        other_user: UserId,
        payload: String,
    ) -> (r: Result<(), ChatError>)
        requires
            old(self).wf(),
        ensures
            final(self).wf(),
            match r {
                Err(e) => *final(self) == *old(self) && (if old(self).dm_missing(
                    caller@,
                    other_user@,
                ) {
                    e == ChatError::DMNotFound
                } else {
                    e == ChatError::NotInviter && dm_old_at(
                        lookup(old(self).dm_chats@, caller@)@,
                        other_user@,
                    ).created_by@ != caller@
                }),
                Ok(()) => !old(self).dm_missing(caller@, other_user@) && dm_old_at(
                    lookup(old(self).dm_chats@, caller@)@,
                    other_user@,
                ).created_by@ == caller@,
            },
            r is Ok ==> {
                let cl = lookup(old(self).dm_chats@, caller@)@;
                let ci = dm_old_idx(cl, other_user@);
                &&& lookup(final(self).dm_chats@, caller@)@.len() == cl.len()
                &&& lookup(final(self).dm_chats@, caller@)@ == cl.update(
                    ci,
                    lookup(final(self).dm_chats@, caller@)@[ci],
                )
                &&& payload_set(cl[ci], lookup(final(self).dm_chats@, caller@)@[ci], payload@)
                &&& forall|k: Seq<char>|
                    #[trigger] has_key(final(self).dm_chats@, k) == has_key(
                        old(self).dm_chats@,
                        k,
                    )
                &&& forall|k: Seq<char>|
                    k != caller@ && k != other_user@ && has_key(old(self).dm_chats@, k)
                        ==> #[trigger] lookup(final(self).dm_chats@, k) == lookup(
                        old(self).dm_chats@,
                        k,
                    )
                &&& if other_user@ != caller@ && has_key(old(self).dm_chats@, other_user@)
                    && dm_has_old(lookup(old(self).dm_chats@, other_user@)@, caller@) {
                    let pl = lookup(old(self).dm_chats@, other_user@)@;
                    let pi = dm_old_idx(pl, caller@);
                    lookup(final(self).dm_chats@, other_user@)@ == pl.update(
                        pi,
                        lookup(final(self).dm_chats@, other_user@)@[pi],
                    ) && payload_set(
                        pl[pi],
                        lookup(final(self).dm_chats@, other_user@)@[pi],
                        payload@,
                    )
                } else {
                    other_user@ != caller@ && has_key(old(self).dm_chats@, other_user@)
                        ==> lookup(final(self).dm_chats@, other_user@) == lookup(
                        old(self).dm_chats@,
                        other_user@,
                    )
                }
                &&& only_dms_changed(*old(self), *final(self))
            },
    {
        let li = match assoc_find(&self.dm_chats, &caller) {
            None => {
                return Err(ChatError::DMNotFound);
            },
            Some(li) => li,
        };
        proof {
            lemma_key_idx(self.dm_chats@, caller@, li as int);
        }
        let di = match dm_find_old(&self.dm_chats[li].1, &other_user) {
            None => {
                return Err(ChatError::DMNotFound);
            },
            Some(di) => di,
        };
        proof {
            lemma_dm_old_idx(self.dm_chats@[li as int].1@, other_user@, di as int);
        }
        if !(self.dm_chats[li].1[di].created_by == caller) {
            return Err(ChatError::NotInviter);
        }
        let ghost pre = self.dm_chats@;
        self.dm_chats[li].1[di].invitation_payload = payload.clone();
        proof {
            assert(self.dm_chats@[li as int].1@ == pre[li as int].1@.update(
                di as int,
                self.dm_chats@[li as int].1@[di as int],
            ));
            assert(self.dm_chats@ == pre.update(
                li as int,
                (pre[li as int].0, self.dm_chats@[li as int].1),
            ));
            lemma_update_same_key(pre, li as int, (pre[li as int].0, self.dm_chats@[li as int].1));
            assert(dm_list_wf(self.dm_chats@[li as int].1@)) by {
                assert(forall|j: int|
                    0 <= j < pre[li as int].1@.len() ==> (#[trigger] self.dm_chats@[
                        li as int
                    ].1@[j]).other_identity_old@ == pre[li as int].1@[j].other_identity_old@);
            }
            assert(self.wf()) by {
                assert forall|j: int| 0 <= j < self.dm_chats@.len() implies dm_list_wf(
                    (#[trigger] self.dm_chats@[j]).1@,
                ) by {
                    if j != li as int {
                        assert(self.dm_chats@[j] == pre[j]);
                    }
                }
            }
        }
        if !(other_user == caller) {
            let pli = match assoc_find(&self.dm_chats, &other_user) {
                None => {
                    return Ok(());
                },
                Some(pli) => pli,
            };
            proof {
                lemma_key_idx(self.dm_chats@, other_user@, pli as int);
            }
            let pdi = match dm_find_old(&self.dm_chats[pli].1, &caller) {
                None => {
                    return Ok(());
                },
                Some(pdi) => pdi,
            };
            proof {
                lemma_dm_old_idx(self.dm_chats@[pli as int].1@, caller@, pdi as int);
                assert(lookup(self.dm_chats@, other_user@) == lookup(
                    old(self).dm_chats@,
                    other_user@,
                ));
            }
            let ghost mid = self.dm_chats@;
            self.dm_chats[pli].1[pdi].invitation_payload = payload;
            proof {
                assert(self.dm_chats@[pli as int].1@ == mid[pli as int].1@.update(
                    pdi as int,
                    self.dm_chats@[pli as int].1@[pdi as int],
                ));
                assert(self.dm_chats@ == mid.update(
                    pli as int,
                    (mid[pli as int].0, self.dm_chats@[pli as int].1),
                ));
                lemma_update_same_key(
                    mid,
                    pli as int,
                    (mid[pli as int].0, self.dm_chats@[pli as int].1),
                );
                assert(dm_list_wf(self.dm_chats@[pli as int].1@)) by {
                    assert(forall|j: int|
                        0 <= j < mid[pli as int].1@.len() ==> (#[trigger] self.dm_chats@[
                            pli as int
                        ].1@[j]).other_identity_old@ == mid[pli as int].1@[
                            j
                        ].other_identity_old@);
                }
                assert(self.wf()) by {
                    assert forall|j: int| 0 <= j < self.dm_chats@.len() implies dm_list_wf(
                        (#[trigger] self.dm_chats@[j]).1@,
                    ) by {
                        if j != pli as int {
                            assert(self.dm_chats@[j] == mid[j]);
                        }
                    }
                }
                assert(lookup(self.dm_chats@, caller@) == lookup(mid, caller@));
            }
            Ok(())
        } else {
            Ok(())
        }
    }

    /// Accepts a conversation invitation: marks the caller's own side
    /// joined.  Re-acceptance is harmless.
    pub fn accept_invitation(&mut self, caller: UserId, other_user: UserId) -> (r: Result<
        (),
        ChatError,
    >)
        requires
            old(self).wf(),
        ensures
            final(self).wf(),
            match r {
                Err(e) => e == ChatError::DMNotFound && old(self).dm_missing(
                    caller@,
                    other_user@,
                ) && *final(self) == *old(self),
                Ok(()) => !old(self).dm_missing(caller@, other_user@),
            },
            r is Ok ==> {
                let cl = lookup(old(self).dm_chats@, caller@)@;
                let ci = dm_old_idx(cl, other_user@);
                &&& lookup(final(self).dm_chats@, caller@)@ == cl.update(
                    ci,
                    (DMChatInfo { did_join: true, ..cl[ci] }),
                )
                &&& forall|k: Seq<char>|
                    #[trigger] has_key(final(self).dm_chats@, k) == has_key(
                        old(self).dm_chats@,
                        k,
                    )
                &&& forall|k: Seq<char>|
                    k != caller@ && has_key(old(self).dm_chats@, k) ==> #[trigger] lookup(
                        final(self).dm_chats@,
                        k,
                    ) == lookup(old(self).dm_chats@, k)
                &&& only_dms_changed(*old(self), *final(self))
            },
    {
        let li = match assoc_find(&self.dm_chats, &caller) {
            None => {
                return Err(ChatError::DMNotFound);
            },
            Some(li) => li,
        };
        proof {
            lemma_key_idx(self.dm_chats@, caller@, li as int);
        }
        let di = match dm_find_old(&self.dm_chats[li].1, &other_user) {
            None => {
                return Err(ChatError::DMNotFound);
            },
            Some(di) => di,
        };
        proof {
            lemma_dm_old_idx(self.dm_chats@[li as int].1@, other_user@, di as int);
        }
        let ghost pre = self.dm_chats@;
        self.dm_chats[li].1[di].did_join = true;
        proof {
            assert(self.dm_chats@[li as int].1@ == pre[li as int].1@.update(
                di as int,
                self.dm_chats@[li as int].1@[di as int],
            ));
            assert(self.dm_chats@ == pre.update(
                li as int,
                (pre[li as int].0, self.dm_chats@[li as int].1),
            ));
            lemma_update_same_key(pre, li as int, (pre[li as int].0, self.dm_chats@[li as int].1));
            assert(dm_list_wf(self.dm_chats@[li as int].1@)) by {
                assert(forall|j: int|
                    0 <= j < pre[li as int].1@.len() ==> (#[trigger] self.dm_chats@[
                        li as int
                    ].1@[j]).other_identity_old@ == pre[li as int].1@[j].other_identity_old@);
            }
            assert(self.wf()) by {
                assert forall|j: int| 0 <= j < self.dm_chats@.len() implies dm_list_wf(
                    (#[trigger] self.dm_chats@[j]).1@,
                ) by {
                    if j != li as int {
                        assert(self.dm_chats@[j] == pre[j]);
                    }
                }
            }
        }
        Ok(())
    }

    /// Deletes the caller's conversation with `other_user` — matched by
    /// the peer's old or rotated identity — from both sides.
    pub fn delete_dm(&mut self, caller: UserId, other_user: UserId) -> (r: Result<(), ChatError>)
        requires
            old(self).wf(),
        ensures
            final(self).wf(),
            match r {
                Err(e) => e == ChatError::DMNotFound && !dm_match_has(
                    dm_list_of(old(self).dm_chats@, caller@),
                    other_user@,
                ) && *final(self) == *old(self),
                Ok(()) => dm_match_has(dm_list_of(old(self).dm_chats@, caller@), other_user@),
            },
            r is Ok ==> {
                let cl = lookup(old(self).dm_chats@, caller@)@;
                let ci = dm_match_idx(cl, other_user@);
                let peer = cl[ci].other_identity_old@;
                &&& lookup(final(self).dm_chats@, caller@)@ == cl.remove(ci)
                &&& forall|k: Seq<char>|
                    #[trigger] has_key(final(self).dm_chats@, k) == has_key(
                        old(self).dm_chats@,
                        k,
                    )
                &&& forall|k: Seq<char>|
                    k != caller@ && k != peer && has_key(old(self).dm_chats@, k)
                        ==> #[trigger] lookup(final(self).dm_chats@, k) == lookup(
                        old(self).dm_chats@,
                        k,
                    )
                &&& if peer != caller@ && has_key(old(self).dm_chats@, peer) && dm_match_has(
                    lookup(old(self).dm_chats@, peer)@,
                    caller@,
                ) {
                    lookup(final(self).dm_chats@, peer)@ == lookup(
                        old(self).dm_chats@,
                        peer,
                    )@.remove(dm_match_idx(lookup(old(self).dm_chats@, peer)@, caller@))
                } else {
                    peer != caller@ && has_key(old(self).dm_chats@, peer) ==> lookup(
                        final(self).dm_chats@,
                        peer,
                    ) == lookup(old(self).dm_chats@, peer)
                }
                &&& only_dms_changed(*old(self), *final(self))
            },
    {
        let li = match assoc_find(&self.dm_chats, &caller) {
            None => {
                return Err(ChatError::DMNotFound);
            },
            Some(li) => li,
        };
        proof {
            lemma_key_idx(self.dm_chats@, caller@, li as int);
        }
        let di = match dm_find(&self.dm_chats[li].1, &other_user) {
            None => {
                return Err(ChatError::DMNotFound);
            },
            Some(di) => di,
        };
        proof {
            lemma_dm_first_match(self.dm_chats@[li as int].1@, other_user@, di as int);
        }
        let peer_key = self.dm_chats[li].1[di].other_identity_old.clone();
        let ghost pre = self.dm_chats@;
        self.dm_chats[li].1.remove(di);
        proof {
            assert(self.dm_chats@[li as int].1@ == pre[li as int].1@.remove(di as int));
            assert(self.dm_chats@ == pre.update(
                li as int,
                (pre[li as int].0, self.dm_chats@[li as int].1),
            ));
            lemma_update_same_key(pre, li as int, (pre[li as int].0, self.dm_chats@[li as int].1));
            assert(dm_list_wf(self.dm_chats@[li as int].1@)) by {
                let oldl = pre[li as int].1@;
                let newl = self.dm_chats@[li as int].1@;
                assert forall|a: int, b: int|
                    0 <= a < b < newl.len() implies newl[a].other_identity_old@ != newl[
                    b
                ].other_identity_old@ by {
                    let a2: int = if a < di as int {
                        a
                    } else {
                        a + 1
                    };
                    let b2: int = if b < di as int {
                        b
                    } else {
                        b + 1
                    };
                    assert(newl[a] == oldl[a2]);
                    assert(newl[b] == oldl[b2]);
                }
            }
            assert(self.wf()) by {
                assert forall|j: int| 0 <= j < self.dm_chats@.len() implies dm_list_wf(
                    (#[trigger] self.dm_chats@[j]).1@,
                ) by {
                    if j != li as int {
                        assert(self.dm_chats@[j] == pre[j]);
                    }
                }
            }
        }
        if !(peer_key == caller) {
            let pli = match assoc_find(&self.dm_chats, &peer_key) {
                None => {
                    return Ok(());
                },
                Some(pli) => pli,
            };
            proof {
                lemma_key_idx(self.dm_chats@, peer_key@, pli as int);
                assert(lookup(self.dm_chats@, peer_key@) == lookup(
                    old(self).dm_chats@,
                    peer_key@,
                ));
            }
            let pdi = match dm_find(&self.dm_chats[pli].1, &caller) {
                None => {
                    return Ok(());
                },
                Some(pdi) => pdi,
            };
            proof {
                lemma_dm_first_match(self.dm_chats@[pli as int].1@, caller@, pdi as int);
            }
            let ghost mid = self.dm_chats@;
            self.dm_chats[pli].1.remove(pdi);
            proof {
                assert(self.dm_chats@[pli as int].1@ == mid[pli as int].1@.remove(pdi as int));
                assert(self.dm_chats@ == mid.update(
                    pli as int,
                    (mid[pli as int].0, self.dm_chats@[pli as int].1),
                ));
                lemma_update_same_key(
                    mid,
                    pli as int,
                    (mid[pli as int].0, self.dm_chats@[pli as int].1),
                );
                assert(dm_list_wf(self.dm_chats@[pli as int].1@)) by {
                    let oldl = mid[pli as int].1@;
                    let newl = self.dm_chats@[pli as int].1@;
                    assert forall|a: int, b: int|
                        0 <= a < b < newl.len() implies newl[a].other_identity_old@ != newl[
                        b
                    ].other_identity_old@ by {
                        let a2: int = if a < pdi as int {
                            a
                        } else {
                            a + 1
                        };
                        let b2: int = if b < pdi as int {
                            b
                        } else {
                            b + 1
                        };
                        assert(newl[a] == oldl[a2]);
                        assert(newl[b] == oldl[b2]);
                    }
                }
                assert(self.wf()) by {
                    assert forall|j: int| 0 <= j < self.dm_chats@.len() implies dm_list_wf(
                        (#[trigger] self.dm_chats@[j]).1@,
                    ) by {
                        if j != pli as int {
                            assert(self.dm_chats@[j] == mid[j]);
                        }
                    }
                }
                assert(lookup(self.dm_chats@, caller@) == lookup(mid, caller@));
            }
            Ok(())
        } else {
            Ok(())
        }
    }

    /// Rolls the conversation's content-hash pair forward: the latest
    /// hash becomes the remembered one and `new_hash` takes its place.
    /// A missing conversation is a silent no-op.
    pub fn update_dm_hashes(&mut self, sender_id: &UserId, other_user_id: &UserId, new_hash: &str)
        requires
            old(self).wf(),
        ensures
            final(self).wf(),
            old(self).dm_missing_match(sender_id@, other_user_id@) ==> *final(self) == *old(
                self,
            ),
            !old(self).dm_missing_match(sender_id@, other_user_id@) ==> {
                let cl = lookup(old(self).dm_chats@, sender_id@)@;
                let ci = dm_match_idx(cl, other_user_id@);
                let newr = lookup(final(self).dm_chats@, sender_id@)@[ci];
                &&& lookup(final(self).dm_chats@, sender_id@)@ == cl.update(ci, newr)
                &&& newr.old_hash@ == cl[ci].new_hash@
                &&& newr.new_hash@ == new_hash@
                &&& newr == (DMChatInfo {
                    old_hash: newr.old_hash,
                    new_hash: newr.new_hash,
                    ..cl[ci]
                })
                &&& forall|k: Seq<char>|
                    #[trigger] has_key(final(self).dm_chats@, k) == has_key(
                        old(self).dm_chats@,
                        k,
                    )
                &&& forall|k: Seq<char>|
                    k != sender_id@ && has_key(old(self).dm_chats@, k) ==> #[trigger] lookup(
                        final(self).dm_chats@,
                        k,
                    ) == lookup(old(self).dm_chats@, k)
                &&& only_dms_changed(*old(self), *final(self))
            },
    {
        let li = match assoc_find(&self.dm_chats, sender_id) {
            None => {
                return ;
            },
            Some(li) => li,
        };
        proof {
            lemma_key_idx(self.dm_chats@, sender_id@, li as int);
        }
        let di = match dm_find(&self.dm_chats[li].1, other_user_id) {
            None => {
                return ;
            },
            Some(di) => di,
        };
        proof {
            lemma_dm_first_match(self.dm_chats@[li as int].1@, other_user_id@, di as int);
        }
        let ghost pre = self.dm_chats@;
        let rolled = self.dm_chats[li].1[di].new_hash.clone();
        self.dm_chats[li].1[di].old_hash = rolled;
        self.dm_chats[li].1[di].new_hash = String::from_str(new_hash);
        proof {
            assert(self.dm_chats@[li as int].1@ == pre[li as int].1@.update(
                di as int,
                self.dm_chats@[li as int].1@[di as int],
            ));
            assert(self.dm_chats@ == pre.update(
                li as int,
                (pre[li as int].0, self.dm_chats@[li as int].1),
            ));
            lemma_update_same_key(pre, li as int, (pre[li as int].0, self.dm_chats@[li as int].1));
            assert(dm_list_wf(self.dm_chats@[li as int].1@)) by {
                assert(forall|j: int|
                    0 <= j < pre[li as int].1@.len() ==> (#[trigger] self.dm_chats@[
                        li as int
                    ].1@[j]).other_identity_old@ == pre[li as int].1@[j].other_identity_old@);
            }
            assert(self.wf()) by {
                assert forall|j: int| 0 <= j < self.dm_chats@.len() implies dm_list_wf(
                    (#[trigger] self.dm_chats@[j]).1@,
                ) by {
                    if j != li as int {
                        assert(self.dm_chats@[j] == pre[j]);
                    }
                }
            }
        }
    }

    /// There is no conversation record under `u` matching `peer` by old
    /// or rotated identity.
    pub open spec fn dm_missing_match(self, u: Seq<char>, peer: Seq<char>) -> bool {
        !dm_match_has(dm_list_of(self.dm_chats@, u), peer)
    }

    /// Whether the peer has sent something since the owner last looked:
    /// the conversation's two content hashes differ.
    pub fn dm_has_new_messages(&self, user_id: &UserId, other_user_id: &UserId) -> (r: bool)
        requires
            self.wf(),
        ensures
            r == (!self.dm_missing_match(user_id@, other_user_id@) && {
                let rec = dm_match_at(dm_list_of(self.dm_chats@, user_id@), other_user_id@);
                rec.old_hash@ != rec.new_hash@
            }),
    {
        let li = match assoc_find(&self.dm_chats, user_id) {
            None => {
                return false;
            },
            Some(li) => li,
        };
        proof {
            lemma_key_idx(self.dm_chats@, user_id@, li as int);
        }
        let di = match dm_find(&self.dm_chats[li].1, other_user_id) {
            None => {
                return false;
            },
            Some(di) => di,
        };
        proof {
            lemma_dm_first_match(self.dm_chats@[li as int].1@, other_user_id@, di as int);
        }
        !(self.dm_chats[li].1[di].old_hash == self.dm_chats[li].1[di].new_hash)
    }

    /// The caller's record of the conversation with `other_user_id`.
    pub fn get_dm_with_status(&self, user_id: &UserId, other_user_id: &UserId) -> (r: Result<
        DMChatInfo,
        ChatError,
    >)
        requires
            self.wf(),
        ensures
            match r {
                Err(e) => e == ChatError::DMNotFound && self.dm_missing_match(
                    user_id@,
                    other_user_id@,
                ),
                Ok(rec) => !self.dm_missing_match(user_id@, other_user_id@) && rec
                    == dm_match_at(dm_list_of(self.dm_chats@, user_id@), other_user_id@),
            },
    {
        let li = match assoc_find(&self.dm_chats, user_id) {
            None => {
                return Err(ChatError::DMNotFound);
            },
            Some(li) => li,
        };
        proof {
            lemma_key_idx(self.dm_chats@, user_id@, li as int);
        }
        let di = match dm_find(&self.dm_chats[li].1, other_user_id) {
            None => {
                return Err(ChatError::DMNotFound);
            },
            Some(di) => di,
        };
        proof {
            lemma_dm_first_match(self.dm_chats@[li as int].1@, other_user_id@, di as int);
        }
        Ok(self.dm_chats[li].1[di].duplicate())
    }

    /// Marks the conversation read: clears the unread counter and aligns
    /// the remembered hash with the latest one.
    pub fn mark_dm_as_read(&mut self, caller: UserId, other_user_id: UserId) -> (r: Result<
        (),
        ChatError,
    >)
        requires
            old(self).wf(),
        ensures
            final(self).wf(),
            match r {
                Err(e) => e == ChatError::DMNotFound && old(self).dm_missing_match(
                    caller@,
                    other_user_id@,
                ) && *final(self) == *old(self),
                Ok(()) => !old(self).dm_missing_match(caller@, other_user_id@),
            },
            r is Ok ==> {
                let cl = lookup(old(self).dm_chats@, caller@)@;
                let ci = dm_match_idx(cl, other_user_id@);
                let newr = lookup(final(self).dm_chats@, caller@)@[ci];
                &&& lookup(final(self).dm_chats@, caller@)@ == cl.update(ci, newr)
                &&& newr.unread_messages == 0
                &&& newr.old_hash@ == cl[ci].new_hash@
                &&& newr == (DMChatInfo {
                    unread_messages: 0,
                    old_hash: newr.old_hash,
                    ..cl[ci]
                })
                &&& forall|k: Seq<char>|
                    #[trigger] has_key(final(self).dm_chats@, k) == has_key(
                        old(self).dm_chats@,
                        k,
                    )
                &&& forall|k: Seq<char>|
                    k != caller@ && has_key(old(self).dm_chats@, k) ==> #[trigger] lookup(
                        final(self).dm_chats@,
                        k,
                    ) == lookup(old(self).dm_chats@, k)
                &&& only_dms_changed(*old(self), *final(self))
            },
    {
        let li = match assoc_find(&self.dm_chats, &caller) {
            None => {
                return Err(ChatError::DMNotFound);
            },
            Some(li) => li,
        };
        proof {
            lemma_key_idx(self.dm_chats@, caller@, li as int);
        }
        let di = match dm_find(&self.dm_chats[li].1, &other_user_id) {
            None => {
                return Err(ChatError::DMNotFound);
            },
            Some(di) => di,
        };
        proof {
            lemma_dm_first_match(self.dm_chats@[li as int].1@, other_user_id@, di as int);
        }
        let ghost pre = self.dm_chats@;
        let rolled = self.dm_chats[li].1[di].new_hash.clone();
        self.dm_chats[li].1[di].unread_messages = 0;
        self.dm_chats[li].1[di].old_hash = rolled;
        proof {
            assert(self.dm_chats@[li as int].1@ == pre[li as int].1@.update(
                di as int,
                self.dm_chats@[li as int].1@[di as int],
            ));
            assert(self.dm_chats@ == pre.update(
                li as int,
                (pre[li as int].0, self.dm_chats@[li as int].1),
            ));
            lemma_update_same_key(pre, li as int, (pre[li as int].0, self.dm_chats@[li as int].1));
            assert(dm_list_wf(self.dm_chats@[li as int].1@)) by {
                assert(forall|j: int|
                    0 <= j < pre[li as int].1@.len() ==> (#[trigger] self.dm_chats@[
                        li as int
                    ].1@[j]).other_identity_old@ == pre[li as int].1@[j].other_identity_old@);
            }
            assert(self.wf()) by {
                assert forall|j: int| 0 <= j < self.dm_chats@.len() implies dm_list_wf(
                    (#[trigger] self.dm_chats@[j]).1@,
                ) by {
                    if j != li as int {
                        assert(self.dm_chats@[j] == pre[j]);
                    }
                }
            }
        }
        Ok(())
    }

    /// The unread counter of one conversation; zero when the records
    /// exist but none matches.
    pub fn get_dm_unread_count(&self, caller: &UserId, other_user_id: &UserId) -> (r: Result<
        u32,
        ChatError,
    >)
        requires
            self.wf(),
        ensures
            match r {
                Err(e) => e == ChatError::DMNotFound && !has_key(self.dm_chats@, caller@),
                Ok(n) => has_key(self.dm_chats@, caller@) && n as int == (
                if self.dm_missing_match(caller@, other_user_id@) {
                    0int
                } else {
                    dm_match_at(
                        dm_list_of(self.dm_chats@, caller@),
                        other_user_id@,
                    ).unread_messages as int
                }),
            },
    {
        let li = match assoc_find(&self.dm_chats, caller) {
            None => {
                return Err(ChatError::DMNotFound);
            },
            Some(li) => li,
        };
        proof {
            lemma_key_idx(self.dm_chats@, caller@, li as int);
        }
        let di = match dm_find(&self.dm_chats[li].1, other_user_id) {
            None => {
                return Ok(0);
            },
            Some(di) => di,
        };
        proof {
            lemma_dm_first_match(self.dm_chats@[li as int].1@, other_user_id@, di as int);
        }
        Ok(self.dm_chats[li].1[di].unread_messages)
    }

    /// The identity under which to address the peer of the conversation
    /// with this context: their rotated identity once known, their
    /// chat-wide one otherwise.
    pub fn get_dm_identity_by_context(&self, caller: &UserId, context_id: &String) -> (r: Result<
        UserId,
        ChatError,
    >)
        requires
            self.wf(),
        ensures
            match r {
                Err(e) => e == ChatError::DMNotFound && !context_match_has(
                    dm_list_of(self.dm_chats@, caller@),
                    context_id@,
                ),
                Ok(u) => exists|i: int|
                    #[trigger] context_first_at(dm_list_of(self.dm_chats@, caller@), context_id@, i)
                        && u == (match dm_list_of(
                        self.dm_chats@,
                        caller@,
                    )[i].other_identity_new {
                        Option::Some(n) => n,
                        Option::None => dm_list_of(self.dm_chats@, caller@)[i].other_identity_old,
                    }),
            },
    {
        let li = match assoc_find(&self.dm_chats, caller) {
            None => {
                return Err(ChatError::DMNotFound);
            },
            Some(li) => li,
        };
        proof {
            lemma_key_idx(self.dm_chats@, caller@, li as int);
        }
        let mut i: usize = 0;
        while i < self.dm_chats[li].1.len()
            invariant
                self.wf(),
                li < self.dm_chats@.len(),
                self.dm_chats@[li as int].0@ == caller@,
                i <= self.dm_chats@[li as int].1@.len(),
                forall|j: int|
                    0 <= j < i ==> (#[trigger] self.dm_chats@[li as int].1@[j]).context_id@
                        != context_id@,
            decreases self.dm_chats@[li as int].1@.len() - i,
        {
            if self.dm_chats[li].1[i].context_id == *context_id {
                let rec = &self.dm_chats[li].1[i];
                let out = match &rec.other_identity_new {
                    Option::Some(n) => n.clone(),
                    Option::None => rec.other_identity_old.clone(),
                };
                proof {
                    lemma_key_idx(self.dm_chats@, caller@, li as int);
                    let cl = dm_list_of(self.dm_chats@, caller@);
                    let w = i as int;
                    assert(cl == self.dm_chats@[li as int].1@);
                    assert(context_first_at(cl, context_id@, w));
                    assert(out == (match cl[w].other_identity_new {
                        Option::Some(n) => n,
                        Option::None => cl[w].other_identity_old,
                    }));
                }
                return Ok(out);
            }
            i += 1;
        }
        Err(ChatError::DMNotFound)
    }

    /// The caller's unread counters summed over every conversation,
    /// clamped to the counter's range.
    pub fn get_total_dm_unread_count(&self, caller: &UserId) -> (r: u32)
        requires
            self.wf(),
        ensures
            r as int == crate::tracking_ops::clamp_u32(
                total_dm_unread(dm_list_of(self.dm_chats@, caller@)),
            ),
    {
        let li = match assoc_find(&self.dm_chats, caller) {
            None => {
                return 0;
            },
            Some(li) => li,
        };
        proof {
            lemma_key_idx(self.dm_chats@, caller@, li as int);
        }
        let mut acc: u32 = 0;
        let mut i: usize = 0;
        while i < self.dm_chats[li].1.len()
            invariant
                li < self.dm_chats@.len(),
                i <= self.dm_chats@[li as int].1@.len(),
                acc as int == crate::tracking_ops::clamp_u32(
                    total_dm_unread(self.dm_chats@[li as int].1@.subrange(0, i as int)),
                ),
            decreases self.dm_chats@[li as int].1@.len() - i,
        {
            proof {
                lemma_total_dm_unread_nonneg(
                    self.dm_chats@[li as int].1@.subrange(0, i as int),
                );
                assert(self.dm_chats@[li as int].1@.subrange(0, i as int + 1).drop_last()
                    =~= self.dm_chats@[li as int].1@.subrange(0, i as int));
                assert(self.dm_chats@[li as int].1@.subrange(0, i as int + 1).last()
                    == self.dm_chats@[li as int].1@[i as int]);
            }
            let add = self.dm_chats[li].1[i].unread_messages;
            if add > u32::MAX - acc {
                acc = u32::MAX;
            } else {
                acc = acc + add;
            }
            i += 1;
        }
        proof {
            assert(self.dm_chats@[li as int].1@.subrange(
                0,
                self.dm_chats@[li as int].1@.len() as int,
            ) =~= self.dm_chats@[li as int].1@);
        }
        acc
    }

    /// Marks every conversation of the caller read: clears each unread
    /// counter and aligns each remembered hash with its latest one.
    pub fn mark_all_dms_as_read(&mut self, caller: UserId) -> (r: Result<(), ChatError>)
        requires
            old(self).wf(),
        ensures
            final(self).wf(),
            r is Ok,
            !has_key(old(self).dm_chats@, caller@) ==> *final(self) == *old(self),
            has_key(old(self).dm_chats@, caller@) ==> {
                let cl = lookup(old(self).dm_chats@, caller@)@;
                let nl = lookup(final(self).dm_chats@, caller@)@;
                &&& nl.len() == cl.len()
                &&& forall|j: int|
                    0 <= j < cl.len() ==> (#[trigger] nl[j]) == (DMChatInfo {
                        unread_messages: 0,
                        old_hash: nl[j].old_hash,
                        ..cl[j]
                    }) && nl[j].old_hash@ == cl[j].new_hash@
                &&& forall|k: Seq<char>|
                    #[trigger] has_key(final(self).dm_chats@, k) == has_key(
                        old(self).dm_chats@,
                        k,
                    )
                &&& forall|k: Seq<char>|
                    k != caller@ && has_key(old(self).dm_chats@, k) ==> #[trigger] lookup(
                        final(self).dm_chats@,
                        k,
                    ) == lookup(old(self).dm_chats@, k)
                &&& only_dms_changed(*old(self), *final(self))
            },
    {
        let li = match assoc_find(&self.dm_chats, &caller) {
            None => {
                return Ok(());
            },
            Some(li) => li,
        };
        proof {
            lemma_key_idx(self.dm_chats@, caller@, li as int);
        }
        let ghost pre = self.dm_chats@;
        let mut i: usize = 0;
        while i < self.dm_chats[li].1.len()
            invariant
                li < self.dm_chats@.len(),
                i <= self.dm_chats@[li as int].1@.len(),
                self.dm_chats@.len() == pre.len(),
                self.dm_chats@[li as int].1@.len() == pre[li as int].1@.len(),
                forall|j: int|
                    0 <= j < pre.len() && j != li as int ==> #[trigger] self.dm_chats@[j]
                        == pre[j],
                self.dm_chats@[li as int].0 == pre[li as int].0,
                forall|j: int|
                    0 <= j < i ==> (#[trigger] self.dm_chats@[li as int].1@[j]) == (DMChatInfo {
                        unread_messages: 0,
                        old_hash: self.dm_chats@[li as int].1@[j].old_hash,
                        ..pre[li as int].1@[j]
                    }) && self.dm_chats@[li as int].1@[j].old_hash@ == pre[li as int].1@[
                        j
                    ].new_hash@,
                forall|j: int|
                    i <= j < pre[li as int].1@.len() ==> (#[trigger] self.dm_chats@[
                        li as int
                    ].1@[j]) == pre[li as int].1@[j],
                self.owner == old(self).owner,
                self.name == old(self).name,
                self.created_at == old(self).created_at,
                self.is_dm == old(self).is_dm,
                self.members == old(self).members,
                self.member_usernames == old(self).member_usernames,
                self.moderators == old(self).moderators,
                self.channels == old(self).channels,
            decreases self.dm_chats@[li as int].1@.len() - i,
        {
            let rolled = self.dm_chats[li].1[i].new_hash.clone();
            self.dm_chats[li].1[i].unread_messages = 0;
            self.dm_chats[li].1[i].old_hash = rolled;
            i += 1;
        }
        proof {
            assert(self.dm_chats@ == pre.update(
                li as int,
                (pre[li as int].0, self.dm_chats@[li as int].1),
            ));
            lemma_update_same_key(pre, li as int, (pre[li as int].0, self.dm_chats@[li as int].1));
            assert(dm_list_wf(self.dm_chats@[li as int].1@)) by {
                assert(forall|j: int|
                    0 <= j < pre[li as int].1@.len() ==> (#[trigger] self.dm_chats@[
                        li as int
                    ].1@[j]).other_identity_old@ == pre[li as int].1@[j].other_identity_old@);
            }
            assert(self.wf()) by {
                assert forall|j: int| 0 <= j < self.dm_chats@.len() implies dm_list_wf(
                    (#[trigger] self.dm_chats@[j]).1@,
                ) by {
                    if j != li as int {
                        assert(self.dm_chats@[j] == pre[j]);
                    }
                }
            }
        }
        Ok(())
    }

    /// The caller's conversation records, in creation order.
    pub fn get_dms(&self, caller: &UserId) -> (r: Vec<DMChatInfo>)
        requires
            self.wf(),
        ensures
            r@ == dm_list_of(self.dm_chats@, caller@),
    {
        let found = assoc_find(&self.dm_chats, caller);
        let mut out: Vec<DMChatInfo> = Vec::new();
        match found {
            None => out,
            Some(li) => {
                proof {
                    lemma_key_idx(self.dm_chats@, caller@, li as int);
                }
                let mut i: usize = 0;
                while i < self.dm_chats[li].1.len()
                    invariant
                        li < self.dm_chats@.len(),
                        i <= self.dm_chats@[li as int].1@.len(),
                        out@ == self.dm_chats@[li as int].1@.subrange(0, i as int),
                    decreases self.dm_chats@[li as int].1@.len() - i,
                {
                    out.push(self.dm_chats[li].1[i].duplicate());
                    proof {
                        assert(out@ =~= self.dm_chats@[li as int].1@.subrange(0, i as int + 1));
                    }
                    i += 1;
                }
                proof {
                    assert(out@ =~= self.dm_chats@[li as int].1@);
                }
                out
            },
        }
    }
}

} // verus!

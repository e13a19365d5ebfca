//! Reaction toggling.
//!
//! A reaction is a label on a message with the set of members who applied
//! it.  The only operation is a toggle: applying a reaction adds the
//! caller to the label's reactor set if absent and removes them if
//! present.  An unresolvable message identifier is tolerated silently.

use vstd::prelude::*;
use crate::assoc::has_key;
use crate::assoc::has_str;
use crate::assoc::lemma_key_idx;
use crate::assoc::lemma_push_new_key;
use crate::assoc::lemma_push_new_str;
use crate::assoc::lemma_remove_str;
use crate::assoc::lemma_str_idx;
use crate::assoc::lemma_update_same_key;
use crate::assoc::lookup;
use crate::assoc::str_find;
use crate::assoc::str_idx;
use crate::assoc::assoc_find;
use crate::errors::ChatError;
use crate::message::Message;
use crate::message::MessageEntry;
use crate::message::MessageId;
use crate::message::UserId;
use crate::message::reactions_wf;
use crate::message_ops::reply_match_in_entry;
use crate::message_ops::updated_reply_msg;
use crate::message_ops::updated_top_msg;
use crate::state::CurbChat;

verus! {

/// The reactors recorded under `l`: the stored set, or empty when the
/// label has never been applied.
pub open spec fn reaction_users(rs: Seq<(String, Vec<String>)>, l: Seq<char>) -> Seq<String> {
    if has_key(rs, l) {
        lookup(rs, l)@
    } else {
        Seq::<String>::empty()
    }
}

/// `newr` is `oldr` with one application of `l` by the member whose name
/// reads `u`: the member leaves the label's reactor set if present there
/// and joins it (at the end) if absent; every other label is untouched.
pub open spec fn toggled(
    oldr: Seq<(String, Vec<String>)>,
    newr: Seq<(String, Vec<String>)>,
    l: Seq<char>,
    u: Seq<char>,
) -> bool {
    &&& forall|l2: Seq<char>|
        l2 != l ==> #[trigger] has_key(newr, l2) == has_key(oldr, l2)
    &&& forall|l2: Seq<char>|
        l2 != l && has_key(oldr, l2) ==> #[trigger] lookup(newr, l2) == lookup(oldr, l2)
    &&& has_key(newr, l)
    &&& if has_str(reaction_users(oldr, l), u) {
        reaction_users(newr, l) == reaction_users(oldr, l).remove(
            str_idx(reaction_users(oldr, l), u),
        )
    } else {
        reaction_users(newr, l).len() == reaction_users(oldr, l).len() + 1
        && reaction_users(newr, l).subrange(0, reaction_users(oldr, l).len() as int)
            == reaction_users(oldr, l)
        && reaction_users(newr, l).last()@ == u
    }
}

/// Toggles `user`'s membership in `label`'s reactor set.
fn toggle_reaction(rs: &mut Vec<(String, Vec<String>)>, label: &String, user: &String)
    requires
        reactions_wf(old(rs)@),
    ensures
        reactions_wf(final(rs)@),
        toggled(old(rs)@, final(rs)@, label@, user@),
{
    let found = assoc_find(rs, label);
    match found {
        Some(i) => {
            proof {
                lemma_key_idx(rs@, label@, i as int);
            }
            let ghost pre = rs@;
            let upos = str_find(&rs[i].1, user);
            match upos {
                Some(k) => {
                    proof {
                        lemma_str_idx(pre[i as int].1@, user@, k as int);
                        lemma_remove_str(pre[i as int].1@, k as int);
                    }
                    rs[i].1.remove(k);
                },
                None => {
                    proof {
                        lemma_push_new_str(pre[i as int].1@, *user);
                    }
                    rs[i].1.push(user.clone());
                },
            }
            proof {
                assert(rs@ == pre.update(i as int, (pre[i as int].0, rs@[i as int].1)));
                lemma_update_same_key(pre, i as int, (pre[i as int].0, rs@[i as int].1));
                if has_str(pre[i as int].1@, user@) {
                } else {
                    assert(reaction_users(rs@, label@).subrange(
                        0,
                        pre[i as int].1@.len() as int,
                    ) =~= pre[i as int].1@);
                }
                assert forall|j: int|
                    0 <= j < rs@.len() implies uniq_strs_at(rs@, j) by {
                    if j != i as int {
                        assert(rs@[j] == pre[j]);
                    }
                }
            }
        },
        None => {
            let mut users: Vec<String> = Vec::new();
            users.push(user.clone());
            proof {
                lemma_push_new_key(rs@, (*label, users));
            }
            rs.push((label.clone(), users));
            proof {
                assert(reaction_users(old(rs)@, label@) == Seq::<String>::empty());
                assert(reaction_users(rs@, label@).subrange(0, 0) =~= Seq::<String>::empty());
                assert forall|j: int|
                    0 <= j < rs@.len() implies uniq_strs_at(rs@, j) by {
                    if j < rs@.len() - 1 {
                        assert(rs@[j] == old(rs)@[j]);
                    }
                }
            }
        },
    }
}

/// The reactor set at position `j` is distinct by content.
pub open spec fn uniq_strs_at(rs: Seq<(String, Vec<String>)>, j: int) -> bool {
    crate::assoc::uniq_strs(rs[j].1@)
}

impl CurbChat {
    /// Whether the entry holds `pid` itself or a reply carrying it.
    pub open spec fn entry_hit(e: MessageEntry, pid: MessageId) -> bool {
        e.message.id.value.matches_spec(pid) || reply_match_in_entry(e, pid)
    }

    /// Whether some entry of the channel hits `pid`.
    pub open spec fn chan_hit(ms: Seq<MessageEntry>, pid: MessageId) -> bool {
        exists|j: int| 0 <= j < ms.len() && CurbChat::entry_hit(#[trigger] ms[j], pid)
    }

    /// Whether any channel holds a message or reply carrying `pid`.
    pub open spec fn any_react_match(self, pid: MessageId) -> bool {
        exists|ci: int|
            0 <= ci < self.channels@.len() && CurbChat::chan_hit(
                (#[trigger] self.channels@[ci]).1.messages@,
                pid,
            )
    }

    /// `(ci, mi, t)` is the first hit for `pid` in reaction-scan order:
    /// channels in registry order, messages in send order, each message
    /// before its replies.
    pub open spec fn react_at(self, pid: MessageId, ci: int, mi: int, t: Option<int>) -> bool {
        &&& 0 <= ci < self.channels@.len()
        &&& 0 <= mi < self.channels@[ci].1.messages@.len()
        &&& forall|c2: int|
            0 <= c2 < ci ==> !CurbChat::chan_hit((#[trigger] self.channels@[c2]).1.messages@, pid)
        &&& forall|m2: int|
            0 <= m2 < mi ==> !CurbChat::entry_hit(
                #[trigger] self.channels@[ci].1.messages@[m2],
                pid,
            )
        &&& match t {
            Option::None => self.channels@[ci].1.messages@[mi].message.id.value.matches_spec(pid),
            Option::Some(ti) => {
                &&& !self.channels@[ci].1.messages@[mi].message.id.value.matches_spec(pid)
                &&& 0 <= ti < self.channels@[ci].1.messages@[mi].replies@.len()
                &&& self.channels@[ci].1.messages@[mi].replies@[ti].id.value.matches_spec(pid)
                &&& forall|t2: int|
                    0 <= t2 < ti ==> !(#[trigger] self.channels@[ci].1.messages@[
                        mi
                    ].replies@[t2].id.value.matches_spec(pid))
            },
        }
    }

    /// Finds the first hit for `pid` in reaction-scan order.
    fn find_react_target(&self, pid: &MessageId) -> (r: Option<(usize, usize, Option<usize>)>)
        ensures
            match r {
                Some(p) => self.react_at(
                    *pid,
                    p.0 as int,
                    p.1 as int,
                    match p.2 {
                        Option::Some(t) => Option::Some(t as int),
                        Option::None => Option::None,
                    },
                ),
                None => !self.any_react_match(*pid),
            },
    {
        let mut ci: usize = 0;
        while ci < self.channels.len()
            invariant
                ci <= self.channels@.len(),
                forall|c2: int|
                    0 <= c2 < ci ==> !CurbChat::chan_hit(
                        (#[trigger] self.channels@[c2]).1.messages@,
                        *pid,
                    ),
            decreases self.channels@.len() - ci,
        {
            let mut mi: usize = 0;
            while mi < self.channels[ci].1.messages.len()
                invariant
                    ci < self.channels@.len(),
                    mi <= self.channels@[ci as int].1.messages@.len(),
                    forall|c2: int|
                        0 <= c2 < ci ==> !CurbChat::chan_hit(
                            (#[trigger] self.channels@[c2]).1.messages@,
                            *pid,
                        ),
                    forall|m2: int|
                        0 <= m2 < mi ==> !CurbChat::entry_hit(
                            #[trigger] self.channels@[ci as int].1.messages@[m2],
                            *pid,
                        ),
                decreases self.channels@[ci as int].1.messages@.len() - mi,
            {
                if self.channels[ci].1.messages[mi].message.id.value.same_as(pid) {
                    return Some((ci, mi, Option::None));
                }
                let mut ti: usize = 0;
                while ti < self.channels[ci].1.messages[mi].replies.len()
                    invariant
                        ci < self.channels@.len(),
                        mi < self.channels@[ci as int].1.messages@.len(),
                        ti <= self.channels@[ci as int].1.messages@[mi as int].replies@.len(),
                        forall|c2: int|
                            0 <= c2 < ci ==> !CurbChat::chan_hit(
                                (#[trigger] self.channels@[c2]).1.messages@,
                                *pid,
                            ),
                        forall|m2: int|
                            0 <= m2 < mi ==> !CurbChat::entry_hit(
                                #[trigger] self.channels@[ci as int].1.messages@[m2],
                                *pid,
                            ),
                        !self.channels@[ci as int].1.messages@[
                            mi as int
                        ].message.id.value.matches_spec(*pid),
                        forall|t2: int|
                            0 <= t2 < ti ==> !(#[trigger] self.channels@[ci as int].1.messages@[
                                mi as int
                            ].replies@[t2].id.value.matches_spec(*pid)),
                    decreases self.channels@[ci as int].1.messages@[mi as int].replies@.len()
                        - ti,
                {
                    if self.channels[ci].1.messages[mi].replies[ti].id.value.same_as(pid) {
                        return Some((ci, mi, Option::Some(ti)));
                    }
                    ti += 1;
                }
                proof {
                    assert(!CurbChat::entry_hit(
                        self.channels@[ci as int].1.messages@[mi as int],
                        *pid,
                    ));
                }
                mi += 1;
            }
            proof {
                assert(!CurbChat::chan_hit(self.channels@[ci as int].1.messages@, *pid));
            }
            ci += 1;
        }
        None
    }

    /// Toggles the caller's reaction `reaction` on the message `pid`
    /// resolves to.  The reactor is recorded under the caller's display
    /// name.  An identifier that resolves to nothing is a silent no-op.
    pub fn update_reaction(&mut self, caller: UserId, message_id: &MessageId, reaction: String)
        -> (r: Result<(), ChatError>)
        requires
            old(self).wf(),
        ensures
            final(self).wf(),
            r is Ok,
            !old(self).any_react_match(*message_id) ==> *final(self) == *old(self),
            old(self).any_react_match(*message_id) ==> exists|p: (int, int, Option<int>)|
                {
                    &&& #[trigger] old(self).react_at(*message_id, p.0, p.1, p.2)
                    &&& match p.2 {
                        Option::None => updated_top_msg(
                            *old(self),
                            *final(self),
                            p.0,
                            p.1,
                            final(self).channels@[p.0].1.messages@[p.1].message,
                        ) && reaction_toggle_only(
                            old(self).channels@[p.0].1.messages@[p.1].message,
                            final(self).channels@[p.0].1.messages@[p.1].message,
                            reaction@,
                            old(self).username_view(caller@),
                        ),
                        Option::Some(ti) => updated_reply_msg(
                            *old(self),
                            *final(self),
                            p.0,
                            p.1,
                            ti,
                            final(self).channels@[p.0].1.messages@[p.1].replies@[ti],
                        ) && reaction_toggle_only(
                            old(self).channels@[p.0].1.messages@[p.1].replies@[ti],
                            final(self).channels@[p.0].1.messages@[p.1].replies@[ti],
                            reaction@,
                            old(self).username_view(caller@),
                        ),
                    }
                },
    {
        let username = self.get_username(&caller);
        let target = self.find_react_target(message_id);
        match target {
            None => Ok(()),
            Some(p) => {
                let (ci, mi, t) = p;
                let ghost pre = *self;
                match t {
                    Option::None => {
                        proof {
                            assert(pre.channels@[ci as int].1.messages@[mi as int].wf());
                        }
                        toggle_reaction(
                            &mut self.channels[ci].1.messages[mi].message.reactions,
                            &reaction,
                            &username,
                        );
                        proof {
                            let newm = self.channels@[ci as int].1.messages@[mi as int].message;
                            let oldm = pre.channels@[ci as int].1.messages@[mi as int].message;
                            assert(self.channels@[ci as int].1.messages@ == pre.channels@[
                                ci as int
                            ].1.messages@.update(
                                mi as int,
                                (MessageEntry {
                                    message: newm,
                                    replies: pre.channels@[ci as int].1.messages@[
                                        mi as int
                                    ].replies,
                                }),
                            ));
                            assert(self.channels@ == pre.channels@.update(
                                ci as int,
                                (pre.channels@[ci as int].0, self.channels@[ci as int].1),
                            ));
                            assert(updated_top_msg(pre, *self, ci as int, mi as int, newm));
                            assert(reaction_toggle_only(
                                oldm,
                                newm,
                                reaction@,
                                pre.username_view(caller@),
                            ));
                            assert forall|j: int|
                                0 <= j < self.channels@[ci as int].1.messages@.len() implies (
                            #[trigger] self.channels@[ci as int].1.messages@[j]).wf() by {
                                if j != mi as int {
                                    assert(self.channels@[ci as int].1.messages@[j]
                                        == pre.channels@[ci as int].1.messages@[j]);
                                }
                            }
                            crate::message_ops::lemma_wf_msg_store(pre, *self, ci as int);
                            let w = (ci as int, mi as int, Option::<int>::None);
                            assert(pre.react_at(*message_id, w.0, w.1, w.2));
                        }
                        Ok(())
                    },
                    Option::Some(ti) => {
                        proof {
                            assert(pre.channels@[ci as int].1.messages@[mi as int].wf());
                        }
                        toggle_reaction(
                            &mut self.channels[ci].1.messages[mi].replies[ti].reactions,
                            &reaction,
                            &username,
                        );
                        proof {
                            let newm = self.channels@[ci as int].1.messages@[mi as int].replies@[
                                ti as int
                            ];
                            let oldm = pre.channels@[ci as int].1.messages@[mi as int].replies@[
                                ti as int
                            ];
                            assert(self.channels@[ci as int].1.messages@[mi as int].replies@
                                == pre.channels@[ci as int].1.messages@[mi as int].replies@.update(
                                ti as int,
                                newm,
                            ));
                            assert(self.channels@[ci as int].1.messages@ == pre.channels@[
                                ci as int
                            ].1.messages@.update(
                                mi as int,
                                (MessageEntry {
                                    message: pre.channels@[ci as int].1.messages@[
                                        mi as int
                                    ].message,
                                    replies: self.channels@[ci as int].1.messages@[
                                        mi as int
                                    ].replies,
                                }),
                            ));
                            assert(self.channels@ == pre.channels@.update(
                                ci as int,
                                (pre.channels@[ci as int].0, self.channels@[ci as int].1),
                            ));
                            assert(updated_reply_msg(
                                pre,
                                *self,
                                ci as int,
                                mi as int,
                                ti as int,
                                newm,
                            ));
                            assert(reaction_toggle_only(
                                oldm,
                                newm,
                                reaction@,
                                pre.username_view(caller@),
                            ));
                            assert forall|j: int|
                                0 <= j < self.channels@[ci as int].1.messages@.len() implies (
                            #[trigger] self.channels@[ci as int].1.messages@[j]).wf() by {
                                if j != mi as int {
                                    assert(self.channels@[ci as int].1.messages@[j]
                                        == pre.channels@[ci as int].1.messages@[j]);
                                } else {
                                    let olde = pre.channels@[ci as int].1.messages@[j];
                                    let newe = self.channels@[ci as int].1.messages@[j];
                                    assert(newe.message == olde.message);
                                    assert forall|k: int|
                                        0 <= k < newe.replies@.len() implies (
                                    #[trigger] newe.replies@[k]).wf() by {
                                        if k != ti as int {
                                            assert(newe.replies@[k] == olde.replies@[k]);
                                        }
                                    }
                                }
                            }
                            crate::message_ops::lemma_wf_msg_store(pre, *self, ci as int);
                            let w = (ci as int, mi as int, Option::Some(ti as int));
                            assert(pre.react_at(*message_id, w.0, w.1, w.2));
                        }
                        Ok(())
                    },
                }
            },
        }
    }
}

/// Only the message's reaction map changed, and it changed by one toggle.
pub open spec fn reaction_toggle_only(
    oldm: Message,
    newm: Message,
    label: Seq<char>,
    reactor: Seq<char>,
) -> bool {
    &&& toggled(oldm.reactions@, newm.reactions@, label, reactor)
    &&& newm.timestamp == oldm.timestamp
    &&& newm.sender == oldm.sender
    &&& newm.sender_username == oldm.sender_username
    &&& newm.mentions == oldm.mentions
    &&& newm.mentions_usernames == oldm.mentions_usernames
    &&& newm.id == oldm.id
    &&& newm.text == oldm.text
    &&& newm.edited_on == oldm.edited_on
    &&& newm.deleted == oldm.deleted
    &&& newm.group == oldm.group
}

} // verus!

//! Laws of the chat core, stated and proved once over all inputs.
//!
//! Each law here relates several operations through the same relations
//! their contracts are stated in: what one successful call promises is
//! exactly what the next call's error rule inspects.

use vstd::prelude::*;
use crate::assoc::has_key;
use crate::assoc::has_str;
use crate::assoc::key_idx;
use crate::assoc::lemma_str_idx;
use crate::assoc::lookup;
use crate::channel::ChannelType;
use crate::errors::ChatError;
use crate::lww::LwwReg;
use crate::lww::lemma_lww_merge_commutes;
use crate::lww::lww_merged;
use crate::message::Message;
use crate::message::msg_merged;
use crate::message::reactions_wf;
use crate::reaction_ops::reaction_users;
use crate::reaction_ops::toggled;
use crate::state::CurbChat;

verus! {

/// Channel membership is idempotent: once a member's join of a channel
/// has succeeded, the same member's next attempt reports that they are
/// already a channel member — and an attempt that fails leaves the state,
/// the member set included, untouched, as the join contract states.
pub proof fn lemma_join_channel_idempotent(
    pre: CurbChat,
    post: CurbChat,
    caller: Seq<char>,
    cn: Seq<char>,
)
    requires
        pre.join_channel_error(caller, cn) is None,
        CurbChat::join_channel_ok_rel(pre, post, caller, cn),
    ensures
        post.join_channel_error(caller, cn) == Option::Some(ChatError::AlreadyChannelMember),
{
    assert(has_key(post.channels@, cn));
    assert(lookup(post.channels@, cn).channel_type == ChannelType::Public);
    assert(has_str(lookup(post.channels@, cn).members@, caller));
}

/// Divergent writes to one message field converge: when two replicas
/// hold different edit times for a field, reconciling in either order
/// keeps the later write.  Shown here for the fields an edit touches —
/// the text and the edit time.
pub proof fn lemma_edit_merge_convergence(a: Message, b: Message)
    requires
        a.text.written_at != b.text.written_at,
        a.edited_on.written_at != b.edited_on.written_at,
    ensures
        msg_merged(a, b).text == msg_merged(b, a).text,
        msg_merged(a, b).text == (if a.text.written_at > b.text.written_at {
            a.text
        } else {
            b.text
        }),
        msg_merged(a, b).edited_on == msg_merged(b, a).edited_on,
        msg_merged(a, b).edited_on == (if a.edited_on.written_at > b.edited_on.written_at {
            a.edited_on
        } else {
            b.edited_on
        }),
{
    lemma_lww_merge_commutes(a.text, b.text);
    lemma_lww_merge_commutes(a.edited_on, b.edited_on);
}

/// Every scalar field of a message converges under reconciliation when
/// its two write times differ, independently of the other fields.
pub proof fn lemma_field_merge_commutes<T>(a: LwwReg<T>, b: LwwReg<T>)
    requires
        a.written_at != b.written_at,
    ensures
        lww_merged(a, b) == lww_merged(b, a),
{
    lemma_lww_merge_commutes(a, b);
}

/// Whole-record last-writer-wins converges the same way: an unread
/// record or a conversation record reconciles to the same record in
/// either merge order whenever the two copies carry different
/// timestamps.
pub proof fn lemma_record_lww_commutes(
    a: crate::tracking::UserChannelUnread,
    b: crate::tracking::UserChannelUnread,
    c: crate::dm::DMChatInfo,
    d: crate::dm::DMChatInfo,
)
    requires
        a.last_read_timestamp != b.last_read_timestamp,
        c.created_at != d.created_at,
    ensures
        crate::tracking::unread_merged(a, b) == crate::tracking::unread_merged(b, a),
        crate::dm::dm_merged(c, d) == crate::dm::dm_merged(d, c),
{
}

/// Toggling the same reaction twice by the same member restores the
/// label's reactor set — starting from a state where the member has not
/// reacted, the first application adds them and the second removes them
/// again, leaving every label's reactor set as it began.
pub proof fn lemma_reaction_toggle_roundtrip(
    r0: Seq<(String, Vec<String>)>,
    r1: Seq<(String, Vec<String>)>,
    r2: Seq<(String, Vec<String>)>,
    l: Seq<char>,
    u: Seq<char>,
)
    requires
        reactions_wf(r0),
        reactions_wf(r1),
        !has_str(reaction_users(r0, l), u),
        toggled(r0, r1, l, u),
        toggled(r1, r2, l, u),
    ensures
        reaction_users(r2, l) == reaction_users(r0, l),
        forall|l2: Seq<char>| l2 != l ==> reaction_users(r2, l2) == reaction_users(r0, l2),
{
    let ru0 = reaction_users(r0, l);
    let ru1 = reaction_users(r1, l);
    let ru2 = reaction_users(r2, l);
    assert(ru1.len() == ru0.len() + 1);
    assert(ru1.last()@ == u);
    assert(has_str(ru1, u)) by {
        assert(ru1[ru0.len() as int]@ == u);
    }
    assert(uniq_of_label(r1, l)) by {
        let i = key_idx(r1, l);
        assert(0 <= i < r1.len() && r1[i].0@ == l);
        assert(crate::assoc::uniq_strs(r1[i].1@));
        assert(lookup(r1, l) == r1[i].1);
    }
    lemma_str_idx(ru1, u, ru0.len() as int);
    assert(ru2 == ru1.remove(ru0.len() as int));
    assert(ru2 =~= ru0) by {
        assert(ru1.subrange(0, ru0.len() as int) == ru0);
        assert(forall|j: int| 0 <= j < ru0.len() ==> ru1.remove(ru0.len() as int)[j] == ru1[j]);
        assert(forall|j: int| 0 <= j < ru0.len() ==> ru1[j] == ru1.subrange(0, ru0.len() as int)[j]);
    }
    assert forall|l2: Seq<char>| l2 != l implies reaction_users(r2, l2) == reaction_users(
        r0,
        l2,
    ) by {
        assert(has_key(r1, l2) == has_key(r0, l2));
        assert(has_key(r2, l2) == has_key(r1, l2));
        if has_key(r0, l2) {
            assert(lookup(r1, l2) == lookup(r0, l2));
            assert(lookup(r2, l2) == lookup(r1, l2));
        }
    }
}

/// The reactor set under label `l` is distinct by content.
pub open spec fn uniq_of_label(rs: Seq<(String, Vec<String>)>, l: Seq<char>) -> bool {
    crate::assoc::uniq_strs(reaction_users(rs, l))
}

/// Deleting a conversation removes the pair's record for good: when every
/// record matching the peer is keyed by the peer's old identity — that
/// is, no other conversation's rotated identity collides with this peer —
/// removing the first match leaves no record for the pair, since a
/// well-formed list holds at most one record per old identity.
pub proof fn lemma_delete_dm_removes_pair(cl: Seq<crate::dm::DMChatInfo>, peer: Seq<char>)
    requires
        crate::dm::dm_list_wf(cl),
        crate::dm::dm_match_has(cl, peer),
        forall|i: int|
            0 <= i < cl.len() && crate::dm::dm_matches(#[trigger] cl[i], peer) ==> cl[
                i
            ].other_identity_old@ == peer,
    ensures
        !crate::dm::dm_match_has(cl.remove(crate::dm::dm_match_idx(cl, peer)), peer),
{
    let ci = crate::dm::dm_match_idx(cl, peer);
    crate::dm::lemma_dm_match_has_first(cl, peer);
    let w = choose|i: int| crate::dm::dm_first_match_at(cl, peer, i);
    assert(crate::dm::dm_first_match_at(cl, peer, w));
    crate::dm::lemma_dm_first_match(cl, peer, w);
    assert(0 <= ci < cl.len() && crate::dm::dm_matches(cl[ci], peer));
    assert(cl[ci].other_identity_old@ == peer);
    let rest = cl.remove(ci);
    if crate::dm::dm_match_has(rest, peer) {
        let j = choose|j: int| 0 <= j < rest.len() && crate::dm::dm_matches(rest[j], peer);
        let j2: int = if j < ci {
            j
        } else {
            j + 1
        };
        assert(rest[j] == cl[j2]);
        assert(cl[j2].other_identity_old@ == peer);
        if j2 < ci {
            assert(cl[j2].other_identity_old@ != cl[ci].other_identity_old@);
        } else {
            assert(cl[ci].other_identity_old@ != cl[j2].other_identity_old@);
        }
    }
}

} // verus!

//! Direct-message conversation records.
//!
//! Each of the two participants stores their own record of the
//! conversation: existence is symmetric, per-side completion state is not.
//! A member's records are keyed by the peer's chat-wide ("old") identity,
//! with exactly one record per peer; lookups also accept the peer's
//! rotated ("new") identity, taking the first record that matches either.

use vstd::prelude::*;
use crate::channel::ChannelType;
use crate::message::UserId;

verus! {

/// One side's record of a direct-message conversation.
pub struct DMChatInfo {
    /// When the conversation was created.
    pub created_at: u64,
    /// The shared identifier of the conversation's context.
    pub context_id: String,
    /// The conversation's membership class (always invite-only).
    pub channel_type: ChannelType,
    /// The inviter's chat-wide identity.
    pub created_by: UserId,
    /// The owning side's chat-wide identity.
    pub own_identity_old: UserId,
    /// The owning side's conversation-scoped identity, once rotated.
    pub own_identity: Option<UserId>,
    /// The owning side's display name.
    pub own_username: String,
    /// The peer's chat-wide identity, the record's key.
    pub other_identity_old: UserId,
    /// The peer's conversation-scoped identity, once known.
    pub other_identity_new: Option<UserId>,
    /// The peer's display name.
    pub other_username: String,
    /// Whether the owning side has completed the handshake.
    pub did_join: bool,
    /// The invitation payload exchanged during the handshake.
    pub invitation_payload: String,
    /// Content hash at the owner's last read, for new-message detection.
    pub old_hash: String,
    /// Latest known content hash.
    pub new_hash: String,
    /// Unread-message counter for the owning side.
    pub unread_messages: u32,
}

/// The record that survives reconciliation: whole-record last-writer-wins
/// on creation time (a later or equally late record supersedes).
pub open spec fn dm_merged(a: DMChatInfo, b: DMChatInfo) -> DMChatInfo {
    if b.created_at >= a.created_at {
        b
    } else {
        a
    }
}

impl DMChatInfo {
    /// Reconciles this record with a replica's copy, as one record.
    pub fn merge_from(&mut self, other: DMChatInfo)
        ensures
            *final(self) == dm_merged(*old(self), other),
    {
        if other.created_at >= self.created_at {
            *self = other;
        }
    }

    /// An exact copy of this record.
    pub fn duplicate(&self) -> (r: DMChatInfo)
        ensures
            r == *self,
    {
        DMChatInfo {
            created_at: self.created_at,
            context_id: self.context_id.clone(),
            channel_type: self.channel_type,
            created_by: self.created_by.clone(),
            own_identity_old: self.own_identity_old.clone(),
            own_identity: match &self.own_identity {
                Option::Some(x) => Option::Some(x.clone()),
                Option::None => Option::None,
            },
            own_username: self.own_username.clone(),
            other_identity_old: self.other_identity_old.clone(),
            other_identity_new: match &self.other_identity_new {
                Option::Some(x) => Option::Some(x.clone()),
                Option::None => Option::None,
            },
            other_username: self.other_username.clone(),
            did_join: self.did_join,
            invitation_payload: self.invitation_payload.clone(),
            old_hash: self.old_hash.clone(),
            new_hash: self.new_hash.clone(),
            unread_messages: self.unread_messages,
        }
    }
}

/// Whether `rec` is the conversation with the peer presented as `peer`:
/// the peer's old identity matches, or their rotated identity does.
pub open spec fn dm_matches(rec: DMChatInfo, peer: Seq<char>) -> bool {
    rec.other_identity_old@ == peer || match rec.other_identity_new {
        Option::Some(n) => n@ == peer,
        Option::None => false,
    }
}

/// Whether some record in the list is the conversation with `peer`.
pub open spec fn dm_match_has(s: Seq<DMChatInfo>, peer: Seq<char>) -> bool {
    exists|i: int| 0 <= i < s.len() && dm_matches(s[i], peer)
}

/// `i` is the first record in the list matching `peer`.
pub open spec fn dm_first_match_at(s: Seq<DMChatInfo>, peer: Seq<char>, i: int) -> bool {
    0 <= i < s.len() && dm_matches(s[i], peer) && forall|j: int|
        0 <= j < i ==> !dm_matches(s[j], peer)
}

/// Whether some record keys the pair by `peer`'s old identity.
pub open spec fn dm_has_old(s: Seq<DMChatInfo>, peer: Seq<char>) -> bool {
    exists|i: int| 0 <= i < s.len() && s[i].other_identity_old@ == peer
}

/// One record per peer: the keys (the peers' old identities) are
/// pairwise distinct by content.
pub open spec fn dm_list_wf(s: Seq<DMChatInfo>) -> bool {
    forall|i: int, j: int|
        0 <= i < j < s.len() ==> s[i].other_identity_old@ != s[j].other_identity_old@
}

/// The index of the first record matching `peer`.
pub open spec fn dm_match_idx(s: Seq<DMChatInfo>, peer: Seq<char>) -> int {
    choose|i: int| dm_first_match_at(s, peer, i)
}

/// The first record matching `peer`.
pub open spec fn dm_match_at(s: Seq<DMChatInfo>, peer: Seq<char>) -> DMChatInfo {
    s[dm_match_idx(s, peer)]
}

/// Where some record matches, a first matching position exists.
pub proof fn lemma_dm_match_has_first(s: Seq<DMChatInfo>, peer: Seq<char>)
    requires
        dm_match_has(s, peer),
    ensures
        exists|i: int| dm_first_match_at(s, peer, i),
{
    let k = choose|k: int| 0 <= k < s.len() && dm_matches(s[k], peer);
    lemma_dm_first_match_below(s, peer, k);
}

/// A match at `k` yields a first match at or below `k`.
proof fn lemma_dm_first_match_below(s: Seq<DMChatInfo>, peer: Seq<char>, k: int)
    requires
        0 <= k < s.len(),
        dm_matches(s[k], peer),
    ensures
        exists|i: int| dm_first_match_at(s, peer, i),
    decreases k,
{
    if forall|j: int| 0 <= j < k ==> !dm_matches(#[trigger] s[j], peer) {
        assert(dm_first_match_at(s, peer, k));
    } else {
        let j = choose|j: int| 0 <= j < k && dm_matches(#[trigger] s[j], peer);
        lemma_dm_first_match_below(s, peer, j);
    }
}

/// A first-match position pins the looked-up index and record.
pub proof fn lemma_dm_first_match(s: Seq<DMChatInfo>, peer: Seq<char>, i: int)
    requires
        dm_first_match_at(s, peer, i),
    ensures
        dm_match_has(s, peer),
        dm_match_idx(s, peer) == i,
        dm_match_at(s, peer) == s[i],
{
    assert(dm_match_has(s, peer));
    assert(dm_first_match_at(s, peer, i));
    let j = dm_match_idx(s, peer);
    assert(dm_first_match_at(s, peer, j));
    if j < i {
        assert(dm_matches(s[j], peer));
    } else if i < j {
        assert(dm_matches(s[i], peer));
    }
}

/// The index of the record keyed by `peer`'s old identity (unique when
/// the list is well-formed).
pub open spec fn dm_old_idx(s: Seq<DMChatInfo>, peer: Seq<char>) -> int {
    choose|i: int| 0 <= i < s.len() && s[i].other_identity_old@ == peer
}

/// The record keyed by `peer`'s old identity.
pub open spec fn dm_old_at(s: Seq<DMChatInfo>, peer: Seq<char>) -> DMChatInfo {
    s[dm_old_idx(s, peer)]
}

/// With one record per peer, a record keyed by `peer` at `i` pins the
/// looked-up index and record.
pub proof fn lemma_dm_old_idx(s: Seq<DMChatInfo>, peer: Seq<char>, i: int)
    requires
        dm_list_wf(s),
        0 <= i < s.len(),
        s[i].other_identity_old@ == peer,
    ensures
        dm_has_old(s, peer),
        dm_old_idx(s, peer) == i,
        dm_old_at(s, peer) == s[i],
{
    assert(dm_has_old(s, peer));
    let j = dm_old_idx(s, peer);
    assert(0 <= j < s.len() && s[j].other_identity_old@ == peer);
    if j < i {
        assert(s[j].other_identity_old@ != s[i].other_identity_old@);
    } else if i < j {
        assert(s[i].other_identity_old@ != s[j].other_identity_old@);
    }
}

/// Finds the record keyed by `peer`'s old identity.
pub fn dm_find_old(s: &Vec<DMChatInfo>, peer: &String) -> (r: Option<usize>)
    ensures
        match r {
            Some(i) => i < s@.len() && s@[i as int].other_identity_old@ == peer@,
            None => !dm_has_old(s@, peer@),
        },
{
    let mut i: usize = 0;
    while i < s.len()
        invariant
            i <= s@.len(),
            forall|j: int| 0 <= j < i ==> (#[trigger] s@[j]).other_identity_old@ != peer@,
        decreases s@.len() - i,
    {
        if s[i].other_identity_old == *peer {
            return Some(i);
        }
        i += 1;
    }
    None
}

/// Finds the first record of the conversation with `peer`, matching the
/// peer's old or rotated identity.
pub fn dm_find(s: &Vec<DMChatInfo>, peer: &String) -> (r: Option<usize>)
    ensures
        match r {
            Some(i) => dm_first_match_at(s@, peer@, i as int),
            None => !dm_match_has(s@, peer@),
        },
{
    let mut i: usize = 0;
    while i < s.len()
        invariant
            i <= s@.len(),
            forall|j: int| 0 <= j < i ==> !dm_matches(s@[j], peer@),
        decreases s@.len() - i,
    {
        if s[i].other_identity_old == *peer {
            proof {
                assert(dm_matches(s@[i as int], peer@));
            }
            return Some(i);
        }
        let new_matches = match &s[i].other_identity_new {
            Option::Some(n) => *n == *peer,
            Option::None => false,
        };
        if new_matches {
            proof {
                assert(dm_matches(s@[i as int], peer@));
            }
            return Some(i);
        }
        proof {
            assert(!dm_matches(s@[i as int], peer@));
        }
        i += 1;
    }
    None
}

} // verus!

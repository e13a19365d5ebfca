//! Chat initialization.
//!
//! Initialization registers the owner (and, for a direct-message chat, the
//! invitee), creates every requested default channel with the initial
//! members enrolled, and seeds each enrolled member's tracking records.

use vstd::prelude::*;
use crate::assoc::assoc_contains;
use crate::assoc::assoc_find;
use crate::assoc::has_key;
use crate::assoc::has_str;
use crate::assoc::lookup;
use crate::assoc::uniq_keys;
use crate::assoc::uniq_strs;
use crate::channel::Channel;
use crate::channel::ChannelInfo;
use crate::channel::ChannelMetadata;
use crate::channel::ChannelType;
use crate::message::UserId;
use crate::state::CurbChat;
use crate::tracking::UserChannelMentions;
use crate::tracking::UserChannelUnread;

verus! {

/// Whether `u` is enrolled at initialization: the owner always, the
/// invitee in a direct-message chat.
pub open spec fn is_initial_member(
    owner: Seq<char>,
    is_dm: bool,
    invitee: Option<UserId>,
    u: Seq<char>,
) -> bool {
    u == owner || (is_dm && match invitee {
        Option::Some(v) => u == v@,
        Option::None => false,
    })
}

/// What every freshly created default channel looks like: empty message
/// log, exactly the initial members enrolled, and their tracking seeded
/// to nothing read and nothing mentioned.
pub open spec fn initial_channel_ok(
    info: ChannelInfo,
    owner: Seq<char>,
    created_at: u64,
    is_dm: bool,
    invitee: Option<UserId>,
) -> bool {
    &&& info.channel_type == ChannelType::Default
    &&& !info.read_only
    &&& info.messages@.len() == 0
    &&& info.meta.created_at == created_at
    &&& info.meta.created_by@ == owner
    &&& info.meta.links_allowed
    &&& forall|u: Seq<char>| has_str(info.members@, u) == is_initial_member(owner, is_dm, invitee, u)
    &&& forall|u: Seq<char>|
        has_str(info.members@, u) ==> #[trigger] has_key(info.unread_tracking@, u)
            && lookup(info.unread_tracking@, u) == (UserChannelUnread {
            last_read_timestamp: 0,
            unread_count: 0,
        }) && has_key(info.mentions_tracking@, u) && lookup(info.mentions_tracking@, u)@.len()
            == 0
}

/// Some channel in `cs` is named `c`.
pub open spec fn chan_name_in(cs: Seq<Channel>, c: Seq<char>) -> bool {
    exists|i: int| 0 <= i < cs.len() && cs[i].name@ == c
}

/// The invitee presents identity `u` and brings a display name, so that
/// name would overwrite an earlier one recorded under `u`.
pub open spec fn dm_invitee_named(
    invitee: Option<UserId>,
    invitee_username: Option<String>,
    u: Seq<char>,
) -> bool {
    match (invitee, invitee_username) {
        (Option::Some(v), Option::Some(m)) => v@ == u,
        _ => false,
    }
}

/// The members enrolled at initialization, distinct by content.
fn initial_member_vec(owner: &UserId, is_dm: bool, invitee: &Option<UserId>) -> (r: Vec<UserId>)
    ensures
        uniq_strs(r@),
        forall|u: Seq<char>| has_str(r@, u) == is_initial_member(owner@, is_dm, *invitee, u),
{
    let mut members: Vec<UserId> = Vec::new();
    members.push(owner.clone());
    if is_dm {
        match invitee {
            Option::Some(v) => {
                if !(*v == *owner) {
                    members.push(v.clone());
                }
            },
            Option::None => {},
        }
    }
    proof {
        assert(members@[0]@ == owner@);
        assert forall|u: Seq<char>|
            has_str(members@, u) == is_initial_member(owner@, is_dm, *invitee, u) by {
            if has_str(members@, u) {
                let i = choose|i: int| 0 <= i < members@.len() && members@[i]@ == u;
                if i == 0 {
                    assert(u == owner@);
                } else {
                    assert(i == 1);
                    assert(is_initial_member(owner@, is_dm, *invitee, u));
                }
            }
            if is_initial_member(owner@, is_dm, *invitee, u) {
                if u == owner@ {
                    assert(members@[0]@ == u);
                    assert(has_str(members@, u));
                } else {
                    assert(members@[1]@ == u);
                    assert(has_str(members@, u));
                }
            }
        }
    }
    members
}

/// Seeds the unread and mention tracking for every listed member:
/// nothing read, nothing mentioned.
pub(crate) fn seed_tracking(members: &Vec<UserId>) -> (r: (
    Vec<(UserId, UserChannelUnread)>,
    Vec<(UserId, Vec<UserChannelMentions>)>,
))
    requires
        uniq_strs(members@),
    ensures
        uniq_keys(r.0@),
        uniq_keys(r.1@),
        r.0@.len() == members@.len(),
        r.1@.len() == members@.len(),
        forall|j: int|
            0 <= j < r.0@.len() ==> (#[trigger] r.0@[j]).1 == (UserChannelUnread {
                last_read_timestamp: 0,
                unread_count: 0,
            }),
        forall|j: int| 0 <= j < r.1@.len() ==> (#[trigger] r.1@[j]).1@.len() == 0,
        forall|u: Seq<char>| has_key(r.0@, u) == has_str(members@, u),
        forall|u: Seq<char>| has_key(r.1@, u) == has_str(members@, u),
        forall|u: Seq<char>|
            has_str(members@, u) ==> lookup(r.0@, u) == (UserChannelUnread {
                last_read_timestamp: 0,
                unread_count: 0,
            }) && lookup(r.1@, u)@.len() == 0,
{
    let mut unread: Vec<(UserId, UserChannelUnread)> = Vec::new();
    let mut ments: Vec<(UserId, Vec<UserChannelMentions>)> = Vec::new();
    let mut i: usize = 0;
    while i < members.len()
        invariant
            i <= members@.len(),
            unread@.len() == i,
            ments@.len() == i,
            forall|j: int| 0 <= j < i ==> (#[trigger] unread@[j]).0@ == members@[j]@,
            forall|j: int|
                0 <= j < i ==> (#[trigger] unread@[j]).1 == (UserChannelUnread {
                    last_read_timestamp: 0,
                    unread_count: 0,
                }),
            forall|j: int| 0 <= j < i ==> (#[trigger] ments@[j]).0@ == members@[j]@,
            forall|j: int| 0 <= j < i ==> (#[trigger] ments@[j]).1@.len() == 0,
        decreases members@.len() - i,
    {
        let empty_mentions: Vec<UserChannelMentions> = Vec::new();
        unread.push(
            (members[i].clone(), UserChannelUnread { last_read_timestamp: 0, unread_count: 0 }),
        );
        ments.push((members[i].clone(), empty_mentions));
        i += 1;
    }
    proof {
        assert(uniq_strs(members@));
        assert forall|u: Seq<char>| has_key(unread@, u) == has_str(members@, u) by {
            if has_key(unread@, u) {
                let j = choose|j: int| 0 <= j < unread@.len() && unread@[j].0@ == u;
                assert(members@[j]@ == u);
            }
            if has_str(members@, u) {
                let j = choose|j: int| 0 <= j < members@.len() && members@[j]@ == u;
                assert(unread@[j].0@ == u);
            }
        }
        assert forall|u: Seq<char>| has_key(ments@, u) == has_str(members@, u) by {
            if has_key(ments@, u) {
                let j = choose|j: int| 0 <= j < ments@.len() && ments@[j].0@ == u;
                assert(members@[j]@ == u);
            }
            if has_str(members@, u) {
                let j = choose|j: int| 0 <= j < members@.len() && members@[j]@ == u;
                assert(ments@[j].0@ == u);
            }
        }
        assert forall|u: Seq<char>|
            has_str(members@, u) implies lookup(unread@, u) == (UserChannelUnread {
                last_read_timestamp: 0,
                unread_count: 0,
            }) && lookup(ments@, u)@.len() == 0 by {
            let j = choose|j: int| 0 <= j < members@.len() && members@[j]@ == u;
            crate::assoc::lemma_key_idx(unread@, u, j);
            crate::assoc::lemma_key_idx(ments@, u, j);
        }
    }
    (unread, ments)
}

impl CurbChat {
    /// Initializes a chat: the owner (and, for a direct-message chat, the
    /// invitee) become members with the given display names, every
    /// requested default channel is created with those members enrolled
    /// and their tracking seeded, and the owner becomes the sole
    /// moderator.
    pub fn init(
        owner: UserId,
        name: String,
        default_channels: Vec<Channel>,
        created_at: u64,
        is_dm: bool,
        invitee: Option<UserId>,
        owner_username: Option<String>,
        invitee_username: Option<String>,
    ) -> (r: CurbChat)
        ensures
            r.wf(),
            r.owner == owner,
            r.name == name,
            r.created_at == created_at,
            r.is_dm == is_dm,
            forall|u: Seq<char>| has_str(r.members@, u) == is_initial_member(owner@, is_dm, invitee, u),
            r.moderators@.len() == 1 && r.moderators@[0]@ == owner@,
            forall|c: Seq<char>| has_key(r.channels@, c) == chan_name_in(default_channels@, c),
            forall|c: Seq<char>|
                has_key(r.channels@, c) ==> initial_channel_ok(
                    #[trigger] lookup(r.channels@, c),
                    owner@,
                    created_at,
                    is_dm,
                    invitee,
                ),
            r.dm_chats@.len() == 0,
            match owner_username {
                Option::Some(n) => has_key(r.member_usernames@, owner@) && (!(is_dm
                    && dm_invitee_named(invitee, invitee_username, owner@)) ==> lookup(
                    r.member_usernames@,
                    owner@,
                )@ == n@),
                Option::None => true,
            },
            match (invitee, invitee_username) {
                (Option::Some(v), Option::Some(m)) => is_dm ==> has_key(
                    r.member_usernames@,
                    v@,
                ) && lookup(r.member_usernames@, v@)@ == m@,
                _ => true,
            },
    {
        let members = initial_member_vec(&owner, is_dm, &invitee);

        let mut member_usernames: Vec<(UserId, String)> = Vec::new();
        match &owner_username {
            Option::Some(n) => {
                member_usernames.push((owner.clone(), n.clone()));
            },
            Option::None => {},
        }
        proof {
            assert(uniq_keys(member_usernames@));
        }
        if is_dm {
            match (&invitee, &invitee_username) {
                (Option::Some(v), Option::Some(m)) => {
                    let ghost before = member_usernames@;
                    let found = assoc_find(&member_usernames, v);
                    match found {
                        Some(i) => {
                            member_usernames[i].1 = m.clone();
                            proof {
                                assert(member_usernames@ == before.update(
                                    i as int,
                                    (before[i as int].0, member_usernames@[i as int].1),
                                ));
                                crate::assoc::lemma_update_same_key(
                                    before,
                                    i as int,
                                    (before[i as int].0, member_usernames@[i as int].1),
                                );
                            }
                        },
                        None => {
                            let pair = (v.clone(), m.clone());
                            proof {
                                crate::assoc::lemma_push_new_key(member_usernames@, pair);
                            }
                            member_usernames.push(pair);
                        },
                    }
                },
                _ => {},
            }
        }
        proof {
            match owner_username {
                Option::Some(ref n) => {
                    assert(member_usernames@[0].0@ == owner@);
                    assert(has_key(member_usernames@, owner@));
                    if !(is_dm && dm_invitee_named(invitee, invitee_username, owner@)) {
                        assert(lookup(member_usernames@, owner@)@ == n@);
                    }
                },
                Option::None => {},
            }
            if is_dm {
                match (&invitee, &invitee_username) {
                    (Option::Some(v), Option::Some(m)) => {
                        assert(has_key(member_usernames@, v@));
                        assert(lookup(member_usernames@, v@)@ == m@);
                    },
                    _ => {},
                }
            }
        }

        let mut moderators: Vec<UserId> = Vec::new();
        moderators.push(owner.clone());

        let mut channels: Vec<(String, ChannelInfo)> = Vec::new();
        let mut ci: usize = 0;
        while ci < default_channels.len()
            invariant
                ci <= default_channels@.len(),
                uniq_keys(channels@),
                uniq_strs(members@),
                forall|u: Seq<char>|
                    has_str(members@, u) == is_initial_member(owner@, is_dm, invitee, u),
                forall|c: Seq<char>|
                    has_key(channels@, c) == chan_name_in(default_channels@.subrange(0, ci as int), c),
                forall|c: Seq<char>|
                    has_key(channels@, c) ==> initial_channel_ok(
                        #[trigger] lookup(channels@, c),
                        owner@,
                        created_at,
                        is_dm,
                        invitee,
                    ),
                forall|i: int| 0 <= i < channels@.len() ==> (#[trigger] channels@[i]).1.wf(),
            decreases default_channels@.len() - ci,
        {
            let ghost pre = channels@;
            let ghost nm = default_channels@[ci as int].name@;
            let chan_name = default_channels[ci].name.clone();
            let present = assoc_contains(&channels, &chan_name);
            if !present {
                let chan_members = initial_member_vec(&owner, is_dm, &invitee);
                let tracking = seed_tracking(&chan_members);
                let info = ChannelInfo {
                    messages: Vec::new(),
                    channel_type: ChannelType::Default,
                    read_only: false,
                    meta: ChannelMetadata {
                        created_at,
                        created_by: owner.clone(),
                        created_by_username: match &owner_username {
                            Option::Some(n) => Option::Some(n.clone()),
                            Option::None => Option::None,
                        },
                        read_only: Vec::new(),
                        moderators: Vec::new(),
                        links_allowed: true,
                    },
                    members: chan_members,
                    unread_tracking: tracking.0,
                    mentions_tracking: tracking.1,
                };
                let pair = (chan_name, info);
                proof {
                    assert(pair.1.wf());
                    assert(initial_channel_ok(pair.1, owner@, created_at, is_dm, invitee));
                    crate::assoc::lemma_push_new_key(pre, pair);
                }
                let ghost gpair = pair;
                channels.push(pair);
                proof {
                    assert(channels@ == pre.push(gpair));
                    assert(gpair.0@ == nm);
                }
            }
            proof {
                let prefix = default_channels@.subrange(0, ci as int);
                let cur = default_channels@.subrange(0, ci as int + 1);
                assert(forall|j: int| 0 <= j < prefix.len() ==> prefix[j] == cur[j]);
                assert(cur[ci as int] == default_channels@[ci as int]);
                assert forall|c: Seq<char>| has_key(channels@, c) == chan_name_in(cur, c) by {
                    if chan_name_in(cur, c) && c != nm {
                        let j = choose|j: int| 0 <= j < cur.len() && cur[j].name@ == c;
                        assert(j != ci as int);
                        assert(prefix[j] == cur[j]);
                        assert(chan_name_in(prefix, c));
                    }
                    if chan_name_in(prefix, c) {
                        let j = choose|j: int| 0 <= j < prefix.len() && prefix[j].name@ == c;
                        assert(cur[j].name@ == c);
                    }
                    if !present {
                        if c == nm {
                            assert(has_key(channels@, c));
                            assert(chan_name_in(cur, c));
                        } else {
                            assert(has_key(channels@, c) == has_key(pre, c));
                        }
                    } else {
                        if c == nm {
                            assert(has_key(channels@, c));
                            assert(chan_name_in(cur, c));
                        }
                    }
                }
                assert forall|c: Seq<char>|
                    has_key(channels@, c) implies initial_channel_ok(
                    #[trigger] lookup(channels@, c),
                    owner@,
                    created_at,
                    is_dm,
                    invitee,
                ) by {
                    if !present && c == nm {
                        assert(lookup(channels@, c) == channels@.last().1);
                    } else if !present {
                        assert(has_key(pre, c));
                        assert(lookup(channels@, c) == lookup(pre, c));
                    }
                }
            }
            ci += 1;
        }
        proof {
            assert(default_channels@.subrange(0, default_channels@.len() as int)
                =~= default_channels@);
        }

        CurbChat {
            owner,
            name,
            created_at,
            is_dm,
            members,
            member_usernames,
            moderators,
            channels,
            dm_chats: Vec::new(),
        }
    }
}

} // verus!

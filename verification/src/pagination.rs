//! Message retrieval: newest-first windowed pagination and response
//! assembly.
//!
//! For `total` messages, an offset counts back from the most recent
//! message: the window covers the indices from `max(0, total - offset -
//! limit)` up to `total - offset`, returned in chronological order.  An
//! offset at or past the total yields an empty page — no error — with the
//! total count still reported.

use vstd::prelude::*;
use crate::assoc::assoc_find;
use crate::assoc::has_key;
use crate::assoc::lemma_key_idx;
use crate::assoc::lookup;
use crate::channel::Channel;
use crate::errors::ChatError;
use crate::message::Message;
use crate::message::MessageEntry;
use crate::message::MessageId;
use crate::response::FullMessageResponse;
use crate::response::MessageWithReactions;
use crate::state::CurbChat;
use crate::tracking_ops::clamp_u32;

verus! {

/// The reaction pairs whose reactor sets are non-empty, in map order.
pub open spec fn nonempty_reactions(rs: Seq<(String, Vec<String>)>) -> Seq<(String, Vec<String>)>
    decreases rs.len(),
{
    if rs.len() == 0 {
        Seq::empty()
    } else {
        nonempty_reactions(rs.drop_last()) + if rs.last().1@.len() > 0 {
            seq![rs.last()]
        } else {
            Seq::empty()
        }
    }
}

/// How a response exposes a reaction map: the non-empty labels with their
/// reactors, or nothing at all when no label has reactors.
pub open spec fn reactions_out_ok(
    out: Option<Vec<(String, Vec<String>)>>,
    rs: Seq<(String, Vec<String>)>,
) -> bool {
    let f = nonempty_reactions(rs);
    match out {
        Option::None => f.len() == 0,
        Option::Some(v) => {
            &&& f.len() > 0
            &&& v@.len() == f.len()
            &&& forall|k: int|
                0 <= k < f.len() ==> (#[trigger] v@[k]).0 == f[k].0 && v@[k].1@ == f[k].1@
        },
    }
}

/// Converts a reaction map for a response, dropping empty reactor sets;
/// a map with none left reads as no reactions at all.
fn convert_reactions(rs: &Vec<(String, Vec<String>)>) -> (r: Option<Vec<(String, Vec<String>)>>)
    ensures
        reactions_out_ok(r, rs@),
{
    let mut v: Vec<(String, Vec<String>)> = Vec::new();
    let mut i: usize = 0;
    while i < rs.len()
        invariant
            i <= rs@.len(),
            v@.len() == nonempty_reactions(rs@.subrange(0, i as int)).len(),
            forall|k: int|
                0 <= k < v@.len() ==> (#[trigger] v@[k]).0 == nonempty_reactions(
                    rs@.subrange(0, i as int),
                )[k].0 && v@[k].1@ == nonempty_reactions(rs@.subrange(0, i as int))[k].1@,
        decreases rs@.len() - i,
    {
        proof {
            assert(rs@.subrange(0, i as int + 1).drop_last() =~= rs@.subrange(0, i as int));
            assert(rs@.subrange(0, i as int + 1).last() == rs@[i as int]);
        }
        if rs[i].1.len() > 0 {
            v.push((rs[i].0.clone(), crate::message_ops::clone_user_vec(&rs[i].1)));
        }
        i += 1;
    }
    proof {
        assert(rs@.subrange(0, rs@.len() as int) =~= rs@);
    }
    if v.len() > 0 {
        Some(v)
    } else {
        None
    }
}

/// The timestamp of the entry's latest reply, zero for an empty thread.
pub open spec fn thread_last(e: MessageEntry) -> u64 {
    if e.replies@.len() > 0 {
        e.replies@.last().timestamp.value
    } else {
        0
    }
}

/// How a response exposes one message: every scalar field read out of
/// its register, the reaction map filtered, and the given thread summary.
pub open spec fn message_view_ok(
    m: Message,
    thread_count: int,
    thread_last_ts: u64,
    out: MessageWithReactions,
) -> bool {
    &&& out.timestamp == m.timestamp.value
    &&& out.sender == m.sender.value
    &&& out.sender_username == m.sender_username.value
    &&& out.mentions@ == m.mentions@
    &&& out.mentions_usernames@ == m.mentions_usernames@
    &&& out.id == m.id.value
    &&& out.text == m.text.value
    &&& out.edited_on == m.edited_on.value
    &&& reactions_out_ok(out.reactions, m.reactions@)
    &&& out.deleted == m.deleted.value
    &&& out.thread_count as int == thread_count
    &&& out.thread_last_timestamp == thread_last_ts
    &&& out.group == m.group.value
}

/// Flattens one channel entry for a response, with its thread summary.
fn entry_to_view(e: &MessageEntry) -> (out: MessageWithReactions)
    requires
        e.replies@.len() <= u32::MAX,
    ensures
        message_view_ok(e.message, e.replies@.len() as int, thread_last(*e), out),
{
    let tc = e.replies.len() as u32;
    let tl: u64 = if e.replies.len() > 0 {
        e.replies[e.replies.len() - 1].timestamp.value
    } else {
        0
    };
    MessageWithReactions {
        timestamp: e.message.timestamp.value,
        sender: e.message.sender.value.clone(),
        sender_username: e.message.sender_username.value.clone(),
        mentions: crate::message_ops::clone_user_vec(&e.message.mentions),
        mentions_usernames: crate::message_ops::clone_user_vec(&e.message.mentions_usernames),
        id: e.message.id.value.duplicate(),
        text: e.message.text.value.clone(),
        edited_on: e.message.edited_on.value,
        reactions: convert_reactions(&e.message.reactions),
        deleted: e.message.deleted.value,
        thread_count: tc,
        thread_last_timestamp: tl,
        group: e.message.group.value.clone(),
    }
}

/// Flattens one thread reply for a response; replies carry no thread
/// summary of their own.
fn reply_to_view(m: &Message) -> (out: MessageWithReactions)
    ensures
        message_view_ok(*m, 0, 0, out),
{
    MessageWithReactions {
        timestamp: m.timestamp.value,
        sender: m.sender.value.clone(),
        sender_username: m.sender_username.value.clone(),
        mentions: crate::message_ops::clone_user_vec(&m.mentions),
        mentions_usernames: crate::message_ops::clone_user_vec(&m.mentions_usernames),
        id: m.id.value.duplicate(),
        text: m.text.value.clone(),
        edited_on: m.edited_on.value,
        reactions: convert_reactions(&m.reactions),
        deleted: m.deleted.value,
        thread_count: 0,
        thread_last_timestamp: 0,
        group: m.group.value.clone(),
    }
}

/// The first index of the newest-first window: `max(0, total - offset -
/// limit)`.
pub open spec fn window_start(total: int, limit: int, offset: int) -> int {
    if total - offset - limit > 0 {
        total - offset - limit
    } else {
        0
    }
}

/// How a page over a channel's entries must read: the full total, the
/// requested offset, and — chronologically — exactly the entries of the
/// newest-first window, each flattened with its thread summary.
pub open spec fn page_of_entries(
    ms: Seq<MessageEntry>,
    limit: int,
    offset: int,
    resp: FullMessageResponse,
) -> bool {
    &&& resp.total_count as int == ms.len()
    &&& resp.start_position as int == clamp_u32(offset)
    &&& if offset >= ms.len() {
        resp.messages@.len() == 0
    } else {
        let s = window_start(ms.len() as int, limit, offset);
        let e = ms.len() - offset;
        &&& resp.messages@.len() == e - s
        &&& forall|k: int|
            0 <= k < e - s ==> message_view_ok(
                ms[s + k].message,
                ms[s + k].replies@.len() as int,
                thread_last(ms[s + k]),
                #[trigger] resp.messages@[k],
            )
    }
}

/// How a page over a thread's replies must read.
pub open spec fn page_of_replies(
    rs: Seq<Message>,
    limit: int,
    offset: int,
    resp: FullMessageResponse,
) -> bool {
    &&& resp.total_count as int == rs.len()
    &&& resp.start_position as int == clamp_u32(offset)
    &&& if offset >= rs.len() {
        resp.messages@.len() == 0
    } else {
        let s = window_start(rs.len() as int, limit, offset);
        let e = rs.len() - offset;
        &&& resp.messages@.len() == e - s
        &&& forall|k: int|
            0 <= k < e - s ==> message_view_ok(rs[s + k], 0, 0, #[trigger] resp.messages@[k])
    }
}

/// The index bounds of the newest-first window over `total` items: none
/// when the offset is at or past the total, else the chronological range
/// `[max(0, total - offset - limit), total - offset)`.
pub fn calculate_pagination_bounds(total: usize, limit: usize, offset: usize) -> (r: Option<
    (usize, usize),
>)
    ensures
        match r {
            None => offset >= total,
            Some(b) => offset < total && b.0 as int == window_start(
                total as int,
                limit as int,
                offset as int,
            ) && b.1 == total - offset,
        },
{
    if offset >= total {
        return None;
    }
    let end = total - offset;
    let start = if end > limit {
        end - limit
    } else {
        0
    };
    Some((start, end))
}

/// Clamps an offset into the response counter's range.
fn clamp_offset(offset: usize) -> (r: u32)
    ensures
        r as int == clamp_u32(offset as int),
{
    if offset >= u32::MAX as usize {
        u32::MAX
    } else {
        offset as u32
    }
}

/// Paginates a channel's entries, newest-first windowed.
fn paginate_entries(ms: &Vec<MessageEntry>, limit: usize, offset: usize) -> (resp:
    FullMessageResponse)
    requires
        ms@.len() <= u32::MAX,
        forall|j: int| 0 <= j < ms@.len() ==> (#[trigger] ms@[j]).replies@.len() <= u32::MAX,
    ensures
        page_of_entries(ms@, limit as int, offset as int, resp),
{
    let total = ms.len();
    let sp = clamp_offset(offset);
    if offset >= total {
        return FullMessageResponse {
            total_count: total as u32,
            messages: Vec::new(),
            start_position: sp,
        };
    }
    let end = total - offset;
    let start = if end > limit {
        end - limit
    } else {
        0
    };
    let mut out: Vec<MessageWithReactions> = Vec::new();
    let mut k = start;
    while k < end
        invariant
            start <= k <= end,
            end <= ms@.len(),
            start == window_start(ms@.len() as int, limit as int, offset as int),
            end == ms@.len() - offset,
            out@.len() == k - start,
            forall|j: int| 0 <= j < ms@.len() ==> (#[trigger] ms@[j]).replies@.len() <= u32::MAX,
            forall|q: int|
                0 <= q < k - start ==> message_view_ok(
                    ms@[start + q].message,
                    ms@[start + q].replies@.len() as int,
                    thread_last(ms@[start + q]),
                    #[trigger] out@[q],
                ),
        decreases end - k,
    {
        let view = entry_to_view(&ms[k]);
        out.push(view);
        k += 1;
    }
    FullMessageResponse { total_count: total as u32, messages: out, start_position: sp }
}

/// Paginates a thread's replies, newest-first windowed.
fn paginate_replies(rs: &Vec<Message>, limit: usize, offset: usize) -> (resp: FullMessageResponse)
    requires
        rs@.len() <= u32::MAX,
    ensures
        page_of_replies(rs@, limit as int, offset as int, resp),
{
    let total = rs.len();
    let sp = clamp_offset(offset);
    if offset >= total {
        return FullMessageResponse {
            total_count: total as u32,
            messages: Vec::new(),
            start_position: sp,
        };
    }
    let end = total - offset;
    let start = if end > limit {
        end - limit
    } else {
        0
    };
    let mut out: Vec<MessageWithReactions> = Vec::new();
    let mut k = start;
    while k < end
        invariant
            start <= k <= end,
            end <= rs@.len(),
            start == window_start(rs@.len() as int, limit as int, offset as int),
            end == rs@.len() - offset,
            out@.len() == k - start,
            forall|q: int|
                0 <= q < k - start ==> message_view_ok(rs@[start + q], 0, 0, #[trigger] out@[q]),
        decreases end - k,
    {
        let view = reply_to_view(&rs[k]);
        out.push(view);
        k += 1;
    }
    FullMessageResponse { total_count: total as u32, messages: out, start_position: sp }
}

impl CurbChat {
    /// Retrieves one page of messages: the channel's own sequence, or —
    /// when a parent identifier is given — that message's thread, located
    /// across all channels.  The window counts back from the most recent
    /// message; a limit of fifty and an offset of zero stand in for
    /// omitted arguments.
    pub fn get_messages(
        &self,
        channel: &Channel,
        limit: Option<usize>,
        offset: Option<usize>,
        parent_id: Option<MessageId>,
    ) -> (r: Result<FullMessageResponse, ChatError>)
        requires
            self.wf(),
        ensures
            ({
                let lim = match limit {
                    Option::Some(l) => l as int,
                    Option::None => 50,
                };
                let off = match offset {
                    Option::Some(o) => o as int,
                    Option::None => 0,
                };
                match parent_id {
                    Option::Some(pid) => match r {
                        Err(e) => e == ChatError::ThreadNotFound && !self.any_top_match(pid),
                        Ok(resp) => self.any_top_match(pid) && page_of_replies(
                            self.top_entry(pid).replies@,
                            lim,
                            off,
                            resp,
                        ),
                    },
                    Option::None => match r {
                        Err(e) => e == ChatError::ChannelNotFound && !has_key(
                            self.channels@,
                            channel.name@,
                        ),
                        Ok(resp) => has_key(self.channels@, channel.name@) && page_of_entries(
                            lookup(self.channels@, channel.name@).messages@,
                            lim,
                            off,
                            resp,
                        ),
                    },
                }
            }),
    {
        let lim = match limit {
            Some(l) => l,
            None => 50,
        };
        let off = match offset {
            Some(o) => o,
            None => 0,
        };
        match parent_id {
            Some(pid) => {
                let found = self.find_top_message(&pid);
                match found {
                    None => Err(ChatError::ThreadNotFound),
                    Some(p) => {
                        let (ci, mi) = p;
                        proof {
                            self.lemma_scan_top_unique(pid, ci as int, mi as int);
                            assert(self.channels@[ci as int].1.wf());
                            assert(self.channels@[ci as int].1.messages@[mi as int].wf());
                        }
                        Ok(paginate_replies(&self.channels[ci].1.messages[mi].replies, lim, off))
                    },
                }
            },
            None => {
                let found = assoc_find(&self.channels, &channel.name);
                match found {
                    None => Err(ChatError::ChannelNotFound),
                    Some(ci) => {
                        proof {
                            lemma_key_idx(self.channels@, channel.name@, ci as int);
                            assert(self.channels@[ci as int].1.wf());
                            assert forall|j: int|
                                0 <= j < self.channels@[ci as int].1.messages@.len() implies (
                            #[trigger] self.channels@[ci as int].1.messages@[j]).replies@.len()
                                <= u32::MAX by {
                                assert(self.channels@[ci as int].1.messages@[j].wf());
                            }
                        }
                        Ok(paginate_entries(&self.channels[ci].1.messages, lim, off))
                    },
                }
            },
        }
    }
}

} // verus!

//! What reading leaves: always the end of the bytes that it started from.

use crate::graph::{ChannelPolicy, GraphState};
use crate::snapshot::{
    after_announcements, after_updates, announcement_step, base_policy, clock_stops,
    lemma_updates_up_to_the_end, next_update, open_body, open_snapshot, open_updates,
    parse_announcement, parse_changes, parse_defaults, parse_header, parse_header_fields,
    parse_node_ids, parse_scid, parse_u16_if, parse_u32_if, parse_u64_if, parse_update_head, sync,
    update_step, Header, Opening, Outcome, Progress, UpdateContext, HAS_CLTV_EXPIRY_DELTA,
    HAS_FEE_BASE_MSAT, HAS_FEE_PROPORTIONAL_MILLIONTHS, HAS_HTLC_MAXIMUM_MSAT,
    HAS_HTLC_MINIMUM_MSAT,
};
use crate::wire::{
    parse_big_size, parse_bytes, parse_features, parse_node_id, parse_u16, parse_u32, parse_u64,
    parse_u8, parse_uint, Parsed, NODE_ID_LEN,
};
use vstd::prelude::*;

verus! {

/// Whether `rest` is what is left of `s` after some bytes were taken off its front.
pub open spec fn is_end_of(rest: Seq<u8>, s: Seq<u8>) -> bool {
    rest.len() <= s.len() && rest == s.skip(s.len() - rest.len())
}

/// Whether reading `s` leaves its end.
pub open spec fn leaves_end<T>(parsed: Parsed<T>, s: Seq<u8>) -> bool {
    match parsed {
        Ok((_, rest)) => is_end_of(rest, s),
        Err(fault) => is_end_of(fault.rest, s),
    }
}

proof fn lemma_whole_is_end(s: Seq<u8>)
    ensures
        is_end_of(s, s),
{
    assert(s.skip(0) =~= s);
}

proof fn lemma_end_of_end(rest: Seq<u8>, middle: Seq<u8>, s: Seq<u8>)
    requires
        is_end_of(rest, middle),
        is_end_of(middle, s),
    ensures
        is_end_of(rest, s),
{
    assert(rest =~= s.skip(s.len() - rest.len()));
}

/// What the end of some bytes leaves is the end of them all.
proof fn lemma_leaves_end_of_end<T>(parsed: Parsed<T>, middle: Seq<u8>, s: Seq<u8>)
    requires
        leaves_end(parsed, middle),
        is_end_of(middle, s),
    ensures
        leaves_end(parsed, s),
{
    match parsed {
        Ok((_, rest)) => lemma_end_of_end(rest, middle, s),
        Err(fault) => lemma_end_of_end(fault.rest, middle, s),
    }
}

proof fn lemma_bytes_leave_end(s: Seq<u8>, n: nat)
    ensures
        leaves_end(parse_bytes(s, n), s),
{
    lemma_whole_is_end(s);
    if s.len() >= n {
        assert(s.len() - s.skip(n as int).len() == n);
    }
}

proof fn lemma_ints_leave_end(s: Seq<u8>)
    ensures
        leaves_end(parse_u8(s), s),
        leaves_end(parse_u16(s), s),
        leaves_end(parse_u32(s), s),
        leaves_end(parse_u64(s), s),
        leaves_end(parse_uint(s, 2), s),
        leaves_end(parse_uint(s, 4), s),
        leaves_end(parse_uint(s, 8), s),
        is_end_of(s, s),
{
    lemma_whole_is_end(s);
    lemma_bytes_leave_end(s, 1);
    lemma_bytes_leave_end(s, 2);
    lemma_bytes_leave_end(s, 4);
    lemma_bytes_leave_end(s, 8);
}

proof fn lemma_big_size_leaves_end(s: Seq<u8>)
    ensures
        leaves_end(parse_big_size(s), s),
{
    lemma_ints_leave_end(s);
    if let Ok((first, tail)) = parse_u8(s) {
        lemma_ints_leave_end(tail);
        lemma_leaves_end_of_end(parse_uint(tail, 2), tail, s);
        lemma_leaves_end_of_end(parse_uint(tail, 4), tail, s);
        lemma_leaves_end_of_end(parse_uint(tail, 8), tail, s);
    }
}

proof fn lemma_features_leave_end(s: Seq<u8>)
    ensures
        leaves_end(parse_features(s), s),
{
    lemma_ints_leave_end(s);
    if let Ok((len, tail)) = parse_u16(s) {
        lemma_bytes_leave_end(tail, len as nat);
        lemma_leaves_end_of_end(parse_bytes(tail, len as nat), tail, s);
    }
}

proof fn lemma_node_ids_leave_end(s: Seq<u8>, count: nat)
    ensures
        leaves_end(parse_node_ids(s, count), s),
    decreases count,
{
    lemma_whole_is_end(s);
    if count > 0 {
        lemma_node_ids_leave_end(s, (count - 1) as nat);
        if let Ok((ids, tail)) = parse_node_ids(s, (count - 1) as nat) {
            lemma_bytes_leave_end(tail, NODE_ID_LEN as nat);
            assert(leaves_end(parse_node_id(tail), tail));
            lemma_leaves_end_of_end(parse_node_id(tail), tail, s);
        }
    }
}

/// A header takes at least 44 bytes.
proof fn lemma_header_leaves_end(data: Seq<u8>)
    ensures
        leaves_end(parse_header(data), data),
        parse_header(data) matches Ok((_, rest)) ==> rest.len() + 44 <= data.len(),
{
    lemma_whole_is_end(data);
    if data.len() >= 4 {
        let s = data.skip(4);
        assert(is_end_of(s, data));
        lemma_bytes_leave_end(s, 32);
        if let Ok((chain_hash, s1)) = parse_bytes(s, 32) {
            lemma_ints_leave_end(s1);
            lemma_leaves_end_of_end(parse_u32(s1), s1, s);
            if let Ok((timestamp, s2)) = parse_u32(s1) {
                lemma_ints_leave_end(s2);
                lemma_leaves_end_of_end(parse_u32(s2), s2, s);
                if let Ok((count, s3)) = parse_u32(s2) {
                    lemma_node_ids_leave_end(s3, count as nat);
                    lemma_leaves_end_of_end(parse_node_ids(s3, count as nat), s3, s);
                }
            }
        }
        assert(leaves_end(parse_header_fields(s), s));
        lemma_leaves_end_of_end(parse_header_fields(s), s, data);
    }
}

proof fn lemma_scid_leaves_end(s: Seq<u8>, previous_scid: u64)
    ensures
        leaves_end(parse_scid(s, previous_scid), s),
{
    lemma_big_size_leaves_end(s);
}

proof fn lemma_announcement_leaves_end(
    s: Seq<u8>,
    previous_scid: u64,
    node_ids: Seq<Seq<u8>>,
)
    ensures
        leaves_end(parse_announcement(s, previous_scid, node_ids), s),
{
    lemma_features_leave_end(s);
    if let Ok((features, s1)) = parse_features(s) {
        lemma_scid_leaves_end(s1, previous_scid);
        lemma_leaves_end_of_end(parse_scid(s1, previous_scid), s1, s);
        if let Ok((scid, s2)) = parse_scid(s1, previous_scid) {
            lemma_big_size_leaves_end(s2);
            lemma_leaves_end_of_end(parse_big_size(s2), s2, s);
            if let Ok((one, s3)) = parse_big_size(s2) {
                lemma_big_size_leaves_end(s3);
                lemma_leaves_end_of_end(parse_big_size(s3), s3, s);
            }
        }
    }
}

proof fn lemma_defaults_leave_end(s: Seq<u8>)
    ensures
        leaves_end(parse_defaults(s), s),
{
    lemma_ints_leave_end(s);
    if let Ok((cltv, s1)) = parse_u16(s) {
        lemma_ints_leave_end(s1);
        lemma_leaves_end_of_end(parse_u64(s1), s1, s);
        if let Ok((minimum, s2)) = parse_u64(s1) {
            lemma_ints_leave_end(s2);
            lemma_leaves_end_of_end(parse_u32(s2), s2, s);
            if let Ok((base, s3)) = parse_u32(s2) {
                lemma_ints_leave_end(s3);
                lemma_leaves_end_of_end(parse_u32(s3), s3, s);
                if let Ok((proportional, s4)) = parse_u32(s3) {
                    lemma_ints_leave_end(s4);
                    lemma_leaves_end_of_end(parse_u64(s4), s4, s);
                }
            }
        }
    }
}

proof fn lemma_update_head_leaves_end(s: Seq<u8>, previous_scid: u64)
    ensures
        leaves_end(parse_update_head(s, previous_scid), s),
{
    lemma_scid_leaves_end(s, previous_scid);
    if let Ok((scid, s1)) = parse_scid(s, previous_scid) {
        lemma_ints_leave_end(s1);
        lemma_leaves_end_of_end(parse_u8(s1), s1, s);
    }
}

proof fn lemma_changes_leave_end(s: Seq<u8>, flags: u8, base: ChannelPolicy)
    ensures
        leaves_end(parse_changes(s, flags, base), s),
{
    lemma_ints_leave_end(s);
    let cltv = parse_u16_if(s, flags & HAS_CLTV_EXPIRY_DELTA > 0, base.cltv_expiry_delta);
    if let Ok((_, s1)) = cltv {
        lemma_ints_leave_end(s1);
        let minimum = parse_u64_if(s1, flags & HAS_HTLC_MINIMUM_MSAT > 0, base.htlc_minimum_msat);
        lemma_leaves_end_of_end(minimum, s1, s);
        if let Ok((_, s2)) = minimum {
            lemma_ints_leave_end(s2);
            let fee_base = parse_u32_if(s2, flags & HAS_FEE_BASE_MSAT > 0, base.fee_base_msat);
            lemma_leaves_end_of_end(fee_base, s2, s);
            if let Ok((_, s3)) = fee_base {
                lemma_ints_leave_end(s3);
                let proportional = parse_u32_if(
                    s3,
                    flags & HAS_FEE_PROPORTIONAL_MILLIONTHS > 0,
                    base.fee_proportional_millionths,
                );
                lemma_leaves_end_of_end(proportional, s3, s);
                if let Ok((_, s4)) = proportional {
                    lemma_ints_leave_end(s4);
                    let maximum = parse_u64_if(
                        s4,
                        flags & HAS_HTLC_MAXIMUM_MSAT > 0,
                        base.htlc_maximum_msat,
                    );
                    lemma_leaves_end_of_end(maximum, s4, s);
                }
            }
        }
    }
}

/// The bytes that are left at the point that was got to.
pub open spec fn rest_of(progress: Progress) -> Seq<u8> {
    match progress {
        Progress::Running { rest, previous_scid, graph } => rest,
        Progress::Stopped { failure, rest, graph } => rest,
    }
}

proof fn lemma_announcements_leave_end(start: Progress, header: Header, count: nat)
    ensures
        is_end_of(rest_of(after_announcements(start, header, count)), rest_of(start)),
    decreases count,
{
    lemma_whole_is_end(rest_of(start));
    if count > 0 {
        lemma_announcements_leave_end(start, header, (count - 1) as nat);
        let before = after_announcements(start, header, (count - 1) as nat);
        if let Progress::Running { rest, previous_scid, graph } = before {
            lemma_announcement_leaves_end(rest, previous_scid, header.node_ids);
            lemma_end_of_end(rest_of(announcement_step(before, header)), rest, rest_of(start));
        }
    }
}

proof fn lemma_next_update_leaves_end(
    s: Seq<u8>,
    previous_scid: u64,
    graph: GraphState,
    context: UpdateContext,
)
    ensures
        match next_update(s, previous_scid, graph, context) {
            Ok((_, rest)) => is_end_of(rest, s),
            Err((_, rest)) => is_end_of(rest, s),
        },
{
    lemma_update_head_leaves_end(s, previous_scid);
    if let Ok(((scid, flags), s1)) = parse_update_head(s, previous_scid) {
        if let Ok(base) = base_policy(graph, context.defaults, scid, flags) {
            lemma_changes_leave_end(s1, flags, base);
            lemma_leaves_end_of_end(parse_changes(s1, flags, base), s1, s);
        }
    }
}

proof fn lemma_updates_leave_end(start: Progress, context: UpdateContext, count: nat)
    ensures
        is_end_of(rest_of(after_updates(start, context, count)), rest_of(start)),
    decreases count,
{
    lemma_whole_is_end(rest_of(start));
    if count > 0 {
        lemma_updates_leave_end(start, context, (count - 1) as nat);
        let before = after_updates(start, context, (count - 1) as nat);
        if let Progress::Running { rest, previous_scid, graph } = before {
            lemma_next_update_leaves_end(rest, previous_scid, graph, context);
            lemma_end_of_end(rest_of(update_step(before, context)), rest, rest_of(start));
        }
    }
}

/// The bytes that are left where a snapshot ends, or where its updates start.
spec fn rest_of_opening(opening: Opening) -> Seq<u8> {
    match opening {
        Opening::Ended(outcome) => outcome.rest,
        Opening::Updates { start, context, count, timestamp } => rest_of(start),
    }
}

/// Whether a snapshot was read up to its updates, or has none.
spec fn is_open(opening: Opening) -> bool {
    opening matches Opening::Ended(outcome) ==> outcome.result is Ok
}

proof fn lemma_open_updates_leaves_end(s: Seq<u8>, graph: GraphState, header: Header)
    ensures
        is_end_of(rest_of_opening(open_updates(s, graph, header)), s),
        is_open(open_updates(s, graph, header)) ==> rest_of_opening(
            open_updates(s, graph, header),
        ).len() + 4 <= s.len(),
{
    lemma_ints_leave_end(s);
    if let Ok((count, rest)) = parse_u32(s) {
        lemma_defaults_leave_end(rest);
        lemma_leaves_end_of_end(parse_defaults(rest), rest, s);
    }
}

proof fn lemma_open_body_leaves_end(s: Seq<u8>, graph: GraphState, header: Header)
    ensures
        is_end_of(rest_of_opening(open_body(s, graph, header)), s),
        is_open(open_body(s, graph, header)) ==> rest_of_opening(
            open_body(s, graph, header),
        ).len() + 8 <= s.len(),
{
    lemma_ints_leave_end(s);
    if let Ok((count, rest)) = parse_u32(s) {
        let start = Progress::Running { rest, previous_scid: 0, graph };
        let end = after_announcements(start, header, count as nat);
        lemma_announcements_leave_end(start, header, count as nat);
        lemma_end_of_end(rest_of(end), rest, s);
        if let Progress::Running { rest: left, previous_scid, graph: reached } = end {
            lemma_open_updates_leaves_end(left, reached, header);
            lemma_end_of_end(rest_of_opening(open_updates(left, reached, header)), left, s);
        }
    }
}

/// Up to its updates a snapshot takes at least 52 bytes.
proof fn lemma_opening_leaves_end(data: Seq<u8>, graph: GraphState)
    ensures
        is_end_of(rest_of_opening(open_snapshot(data, graph)), data),
        is_open(open_snapshot(data, graph)) ==> rest_of_opening(open_snapshot(data, graph)).len()
            + 52 <= data.len(),
{
    lemma_header_leaves_end(data);
    if let Ok((header, s)) = parse_header(data) {
        lemma_open_body_leaves_end(s, graph, header);
        lemma_end_of_end(rest_of_opening(open_body(s, graph, header)), s, data);
    }
}

/// However a snapshot ends, what it leaves is the end of the data; if it is applied to the end, it
/// has taken at least 52 bytes.
pub proof fn lemma_snapshot_leaves_end(data: Seq<u8>, graph: GraphState, outcome: Outcome)
    requires
        outcome == sync(data, graph) || clock_stops(data, graph, outcome),
    ensures
        is_end_of(outcome.rest, data),
        outcome.result is Ok ==> outcome.rest.len() + 52 <= data.len(),
{
    lemma_opening_leaves_end(data, graph);
    if let Opening::Updates { start, context, count, timestamp } = open_snapshot(data, graph) {
        let applied = lemma_updates_up_to_the_end(data, graph, outcome);
        let end = after_updates(start, context, applied);
        lemma_updates_leave_end(start, context, applied);
        if clock_stops(data, graph, outcome) {
            if let Progress::Running { rest, previous_scid, graph } = end {
                lemma_next_update_leaves_end(rest, previous_scid, graph, context);
                lemma_end_of_end(outcome.rest, rest, rest_of(start));
            }
        }
        lemma_end_of_end(outcome.rest, rest_of(start), data);
    }
}

} // verus!

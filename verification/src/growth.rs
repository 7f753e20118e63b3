//! Data that goes on: what reading gives when more bytes follow.
//!
//! A reader that does not run out of bytes looks at none after its value, so bytes that follow
//! change nothing but what it leaves.

use crate::error::{DecodeError, SyncFailure};
use crate::graph::{ChannelPolicy, GraphState, UpdateMessage};
use crate::snapshot::{
    after_announcements, after_updates, announcement_step, base_policy, clock_stops,
    clock_stops_next, lemma_updates_up_to_the_end, next_update, open_body, open_snapshot,
    open_updates, parse_announcement, parse_changes, parse_defaults, parse_header,
    parse_header_fields, parse_node_ids, parse_scid, parse_u16_if, parse_u32_if, parse_u64_if,
    parse_update_head, sync, update_step, Header, Opening, Outcome, Progress, UpdateContext,
    HAS_CLTV_EXPIRY_DELTA, HAS_FEE_BASE_MSAT, HAS_FEE_PROPORTIONAL_MILLIONTHS,
    HAS_HTLC_MINIMUM_MSAT,
};
use crate::wire::{
    parse_big_size, parse_bytes, parse_features, parse_u16, parse_u32, parse_u64, parse_u8,
    parse_uint, Fault, Parsed, NODE_ID_LEN,
};
use vstd::prelude::*;

verus! {

/// What was read, with `extra` after the bytes that were left.
pub open spec fn parsed_with<T>(parsed: Parsed<T>, extra: Seq<u8>) -> Parsed<T> {
    match parsed {
        Ok((value, rest)) => Ok((value, rest + extra)),
        Err(fault) => Err(Fault { rest: fault.rest + extra, ..fault }),
    }
}

/// Whether reading `long`, which goes on with `extra` where `short` ends, gives the same as
/// reading `short`, unless that runs out of bytes.
pub open spec fn grows<T>(short: Parsed<T>, long: Parsed<T>, extra: Seq<u8>) -> bool {
    ||| short matches Err(fault) && fault.error == DecodeError::ShortRead
    ||| long == parsed_with(short, extra)
}

proof fn lemma_bytes_grow(s: Seq<u8>, extra: Seq<u8>, n: nat)
    ensures
        grows(parse_bytes(s, n), parse_bytes(s + extra, n), extra),
{
    if s.len() >= n {
        assert((s + extra).take(n as int) =~= s.take(n as int));
        assert((s + extra).skip(n as int) =~= s.skip(n as int) + extra);
    }
}

pub proof fn lemma_ints_grow(s: Seq<u8>, extra: Seq<u8>)
    ensures
        grows(parse_u8(s), parse_u8(s + extra), extra),
        grows(parse_u16(s), parse_u16(s + extra), extra),
        grows(parse_u32(s), parse_u32(s + extra), extra),
        grows(parse_u64(s), parse_u64(s + extra), extra),
        grows(parse_uint(s, 2), parse_uint(s + extra, 2), extra),
        grows(parse_uint(s, 4), parse_uint(s + extra, 4), extra),
        grows(parse_uint(s, 8), parse_uint(s + extra, 8), extra),
{
    lemma_bytes_grow(s, extra, 1);
    lemma_bytes_grow(s, extra, 2);
    lemma_bytes_grow(s, extra, 4);
    lemma_bytes_grow(s, extra, 8);
}

proof fn lemma_big_size_grows(s: Seq<u8>, extra: Seq<u8>)
    ensures
        grows(parse_big_size(s), parse_big_size(s + extra), extra),
{
    lemma_ints_grow(s, extra);
    if let Ok((first, tail)) = parse_u8(s) {
        lemma_ints_grow(tail, extra);
    }
}

proof fn lemma_features_grow(s: Seq<u8>, extra: Seq<u8>)
    ensures
        grows(parse_features(s), parse_features(s + extra), extra),
{
    lemma_ints_grow(s, extra);
    if let Ok((len, tail)) = parse_u16(s) {
        lemma_bytes_grow(tail, extra, len as nat);
    }
}

proof fn lemma_node_ids_grow(s: Seq<u8>, extra: Seq<u8>, count: nat)
    ensures
        grows(parse_node_ids(s, count), parse_node_ids(s + extra, count), extra),
    decreases count,
{
    if count > 0 {
        lemma_node_ids_grow(s, extra, (count - 1) as nat);
        if let Ok((ids, tail)) = parse_node_ids(s, (count - 1) as nat) {
            lemma_bytes_grow(tail, extra, NODE_ID_LEN as nat);
        }
    }
}

proof fn lemma_header_fields_grow(s: Seq<u8>, extra: Seq<u8>)
    ensures
        grows(parse_header_fields(s), parse_header_fields(s + extra), extra),
{
    lemma_bytes_grow(s, extra, 32);
    if let Ok((chain_hash, s1)) = parse_bytes(s, 32) {
        lemma_ints_grow(s1, extra);
        if let Ok((timestamp, s2)) = parse_u32(s1) {
            lemma_ints_grow(s2, extra);
            if let Ok((count, s3)) = parse_u32(s2) {
                lemma_node_ids_grow(s3, extra, count as nat);
            }
        }
    }
}

/// A header that has its prefix and is not cut off reads the same whatever bytes follow it.
pub proof fn lemma_header_grows(data: Seq<u8>, extra: Seq<u8>)
    requires
        data.len() >= 4,
    ensures
        grows(parse_header(data), parse_header(data + extra), extra),
{
    assert((data + extra).take(4) =~= data.take(4));
    assert((data + extra).skip(4) =~= data.skip(4) + extra);
    lemma_header_fields_grow(data.skip(4), extra);
}

proof fn lemma_scid_grows(s: Seq<u8>, extra: Seq<u8>, previous_scid: u64)
    ensures
        grows(parse_scid(s, previous_scid), parse_scid(s + extra, previous_scid), extra),
{
    lemma_big_size_grows(s, extra);
}

pub proof fn lemma_announcement_grows(
    s: Seq<u8>,
    extra: Seq<u8>,
    previous_scid: u64,
    node_ids: Seq<Seq<u8>>,
)
    ensures
        grows(
            parse_announcement(s, previous_scid, node_ids),
            parse_announcement(s + extra, previous_scid, node_ids),
            extra,
        ),
{
    lemma_features_grow(s, extra);
    if let Ok((features, s1)) = parse_features(s) {
        lemma_scid_grows(s1, extra, previous_scid);
        if let Ok((scid, s2)) = parse_scid(s1, previous_scid) {
            lemma_big_size_grows(s2, extra);
            if let Ok((one, s3)) = parse_big_size(s2) {
                lemma_big_size_grows(s3, extra);
            }
        }
    }
}

proof fn lemma_defaults_grow(s: Seq<u8>, extra: Seq<u8>)
    ensures
        grows(parse_defaults(s), parse_defaults(s + extra), extra),
{
    lemma_ints_grow(s, extra);
    if let Ok((cltv, s1)) = parse_u16(s) {
        lemma_ints_grow(s1, extra);
        if let Ok((minimum, s2)) = parse_u64(s1) {
            lemma_ints_grow(s2, extra);
            if let Ok((base, s3)) = parse_u32(s2) {
                lemma_ints_grow(s3, extra);
                if let Ok((proportional, s4)) = parse_u32(s3) {
                    lemma_ints_grow(s4, extra);
                }
            }
        }
    }
}

pub proof fn lemma_update_head_grows(s: Seq<u8>, extra: Seq<u8>, previous_scid: u64)
    ensures
        grows(
            parse_update_head(s, previous_scid),
            parse_update_head(s + extra, previous_scid),
            extra,
        ),
{
    lemma_scid_grows(s, extra, previous_scid);
    if let Ok((scid, s1)) = parse_scid(s, previous_scid) {
        lemma_ints_grow(s1, extra);
    }
}

pub proof fn lemma_changes_grow(s: Seq<u8>, extra: Seq<u8>, flags: u8, base: ChannelPolicy)
    ensures
        grows(parse_changes(s, flags, base), parse_changes(s + extra, flags, base), extra),
{
    lemma_ints_grow(s, extra);
    if let Ok((cltv, s1)) = parse_u16_if(
        s,
        flags & HAS_CLTV_EXPIRY_DELTA > 0,
        base.cltv_expiry_delta,
    ) {
        lemma_ints_grow(s1, extra);
        if let Ok((minimum, s2)) = parse_u64_if(
            s1,
            flags & HAS_HTLC_MINIMUM_MSAT > 0,
            base.htlc_minimum_msat,
        ) {
            lemma_ints_grow(s2, extra);
            if let Ok((fee_base, s3)) = parse_u32_if(
                s2,
                flags & HAS_FEE_BASE_MSAT > 0,
                base.fee_base_msat,
            ) {
                lemma_ints_grow(s3, extra);
                if let Ok((proportional, s4)) = parse_u32_if(
                    s3,
                    flags & HAS_FEE_PROPORTIONAL_MILLIONTHS > 0,
                    base.fee_proportional_millionths,
                ) {
                    lemma_ints_grow(s4, extra);
                }
            }
        }
    }
}

/// The failure of data that ends too early.
pub open spec fn ran_out() -> SyncFailure {
    SyncFailure::Decode(DecodeError::ShortRead)
}

/// How far the items were applied, with `extra` after the bytes that were left.
pub open spec fn progress_with(progress: Progress, extra: Seq<u8>) -> Progress {
    match progress {
        Progress::Running { rest, previous_scid, graph } => Progress::Running {
            rest: rest + extra,
            previous_scid,
            graph,
        },
        Progress::Stopped { failure, rest, graph } => Progress::Stopped {
            failure,
            rest: rest + extra,
            graph,
        },
    }
}

/// Whether the items were applied until the data ended.
pub open spec fn progress_ran_out(progress: Progress) -> bool {
    progress matches Progress::Stopped { failure, .. } && failure == ran_out()
}

proof fn lemma_announcement_step_grows(progress: Progress, extra: Seq<u8>, header: Header)
    ensures
        ({
            let next = announcement_step(progress, header);
            progress_ran_out(next) || announcement_step(progress_with(progress, extra), header)
                == progress_with(next, extra)
        }),
{
    if let Progress::Running { rest, previous_scid, graph } = progress {
        lemma_announcement_grows(rest, extra, previous_scid, header.node_ids);
    }
}

/// Announcements that are not cut off come to the same whatever bytes follow them.
pub proof fn lemma_announcements_grow(start: Progress, extra: Seq<u8>, header: Header, count: nat)
    ensures
        ({
            let end = after_announcements(start, header, count);
            progress_ran_out(end) || after_announcements(
                progress_with(start, extra),
                header,
                count,
            ) == progress_with(end, extra)
        }),
    decreases count,
{
    if count > 0 {
        lemma_announcements_grow(start, extra, header, (count - 1) as nat);
        lemma_announcement_step_grows(
            after_announcements(start, header, (count - 1) as nat),
            extra,
            header,
        );
    }
}

proof fn lemma_next_update_grows(
    s: Seq<u8>,
    extra: Seq<u8>,
    previous_scid: u64,
    graph: GraphState,
    context: UpdateContext,
)
    ensures
        match next_update(s, previous_scid, graph, context) {
            Ok((update, rest)) => next_update(s + extra, previous_scid, graph, context) == Ok::<
                (UpdateMessage, Seq<u8>),
                (SyncFailure, Seq<u8>),
            >((update, rest + extra)),
            Err((failure, rest)) => failure == ran_out() || next_update(
                s + extra,
                previous_scid,
                graph,
                context,
            ) == Err::<(UpdateMessage, Seq<u8>), (SyncFailure, Seq<u8>)>((failure, rest + extra)),
        },
{
    lemma_update_head_grows(s, extra, previous_scid);
    if let Ok(((scid, flags), s1)) = parse_update_head(s, previous_scid) {
        if let Ok(base) = base_policy(graph, context.defaults, scid, flags) {
            lemma_changes_grow(s1, extra, flags, base);
        }
    }
}

proof fn lemma_update_step_grows(progress: Progress, extra: Seq<u8>, context: UpdateContext)
    ensures
        ({
            let next = update_step(progress, context);
            progress_ran_out(next) || update_step(progress_with(progress, extra), context)
                == progress_with(next, extra)
        }),
{
    if let Progress::Running { rest, previous_scid, graph } = progress {
        lemma_next_update_grows(rest, extra, previous_scid, graph, context);
    }
}

/// Updates that are not cut off come to the same whatever bytes follow them.
pub proof fn lemma_updates_grow(start: Progress, extra: Seq<u8>, context: UpdateContext, count: nat)
    ensures
        ({
            let end = after_updates(start, context, count);
            progress_ran_out(end) || after_updates(progress_with(start, extra), context, count)
                == progress_with(end, extra)
        }),
    decreases count,
{
    if count > 0 {
        lemma_updates_grow(start, extra, context, (count - 1) as nat);
        lemma_update_step_grows(
            after_updates(start, context, (count - 1) as nat),
            extra,
            context,
        );
    }
}

/// How a synchronisation ends, with `extra` after the bytes that it leaves.
pub open spec fn outcome_with(outcome: Outcome, extra: Seq<u8>) -> Outcome {
    Outcome { rest: outcome.rest + extra, ..outcome }
}

/// What a snapshot amounts to up to its updates, with `extra` after its bytes.
pub open spec fn opening_with(opening: Opening, extra: Seq<u8>) -> Opening {
    match opening {
        Opening::Ended(outcome) => Opening::Ended(outcome_with(outcome, extra)),
        Opening::Updates { start, context, count, timestamp } => Opening::Updates {
            start: progress_with(start, extra),
            context,
            count,
            timestamp,
        },
    }
}

/// Whether the data ends before the updates of the snapshot.
pub open spec fn opening_ran_out(opening: Opening) -> bool {
    opening matches Opening::Ended(outcome) && outcome.result == Err::<u32, SyncFailure>(ran_out())
}

proof fn lemma_open_updates_grows(s: Seq<u8>, extra: Seq<u8>, graph: GraphState, header: Header)
    ensures
        ({
            let opening = open_updates(s, graph, header);
            opening_ran_out(opening) || open_updates(s + extra, graph, header) == opening_with(
                opening,
                extra,
            )
        }),
{
    lemma_ints_grow(s, extra);
    if let Ok((count, s1)) = parse_u32(s) {
        lemma_defaults_grow(s1, extra);
    }
}

proof fn lemma_open_body_grows(s: Seq<u8>, extra: Seq<u8>, graph: GraphState, header: Header)
    ensures
        ({
            let opening = open_body(s, graph, header);
            opening_ran_out(opening) || open_body(s + extra, graph, header) == opening_with(
                opening,
                extra,
            )
        }),
{
    lemma_ints_grow(s, extra);
    if let Ok((count, rest)) = parse_u32(s) {
        let start = Progress::Running { rest, previous_scid: 0, graph };
        lemma_announcements_grow(start, extra, header, count as nat);
        if let Progress::Running { rest, previous_scid, graph } = after_announcements(
            start,
            header,
            count as nat,
        ) {
            lemma_open_updates_grows(rest, extra, graph, header);
        }
    }
}

/// A snapshot that has its prefix and is not cut off amounts to the same up to its updates
/// whatever bytes follow it.
pub proof fn lemma_open_snapshot_grows(data: Seq<u8>, extra: Seq<u8>, graph: GraphState)
    requires
        data.len() >= 4,
    ensures
        ({
            let opening = open_snapshot(data, graph);
            opening_ran_out(opening) || open_snapshot(data + extra, graph) == opening_with(
                opening,
                extra,
            )
        }),
{
    lemma_header_grows(data, extra);
    if let Ok((header, s)) = parse_header(data) {
        lemma_open_body_grows(s, extra, graph, header);
    }
}

/// A snapshot that has its prefix and is not cut off ends the same whatever bytes follow it.
pub proof fn lemma_sync_grows(data: Seq<u8>, extra: Seq<u8>, graph: GraphState)
    requires
        data.len() >= 4,
    ensures
        ({
            let ended = sync(data, graph);
            ended.result == Err::<u32, SyncFailure>(ran_out()) || sync(data + extra, graph)
                == outcome_with(ended, extra)
        }),
{
    lemma_open_snapshot_grows(data, extra, graph);
    if let Opening::Updates { start, context, count, timestamp } = open_snapshot(data, graph) {
        lemma_updates_grow(start, extra, context, count as nat);
    }
}

/// A snapshot that the clock stops can be stopped in the same way whatever bytes follow it.
pub proof fn lemma_clock_stops_grows(
    data: Seq<u8>,
    extra: Seq<u8>,
    graph: GraphState,
    outcome: Outcome,
)
    requires
        data.len() >= 4,
        clock_stops(data, graph, outcome),
    ensures
        clock_stops(data + extra, graph, outcome_with(outcome, extra)),
{
    lemma_open_snapshot_grows(data, extra, graph);
    if let Opening::Updates { start, context, count, timestamp } = open_snapshot(data, graph) {
        let applied = lemma_updates_up_to_the_end(data, graph, outcome);
        lemma_updates_grow(start, extra, context, applied);
        if let Progress::Running { rest, previous_scid, graph } = after_updates(
            start,
            context,
            applied,
        ) {
            lemma_next_update_grows(rest, extra, previous_scid, graph, context);
        }
        assert(clock_stops_next(
            after_updates(progress_with(start, extra), context, applied),
            context,
            outcome_with(outcome, extra),
        ));
    }
}

} // verus!

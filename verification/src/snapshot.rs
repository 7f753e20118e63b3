//! What a snapshot of gossip says, and what comes of applying it to a graph.
//!
//! A snapshot starts with a header that lists node ids. Announcements of channels follow, then
//! updates of channels; both give their channels by the distance of the short channel id from the
//! one before. Each item is applied to the graph as soon as it is read, so an item that cannot be
//! read or that the graph refuses leaves the items before it applied.

use crate::error::{DecodeError, ErrorAction, IoErrorKind, Refusal, SyncFailure};
use crate::graph::{
    is_clock_refusal, refusal, unknown_channel, ChannelPolicy, GraphState, UpdateMessage,
};
use crate::wire::{
    is_early_end, parse_big_size, parse_bytes, parse_features, parse_node_id, parse_u16, parse_u32,
    parse_u64, parse_u8, Fault, Parsed,
};
use vstd::prelude::*;

verus! {

/// The bytes that a snapshot starts with. They tell its format from others that may come; the
/// fourth byte is the version of the format.
pub const GOSSIP_PREFIX: [u8; 4] = [76, 68, 75, 1];

/// The number of seconds by which what a snapshot says is dated back: a week.
pub const BACKDATE_SECS: u32 = 604_800;

/// Set in the flags of an update that changes what the graph knows. Without it the update starts
/// from the defaults of the snapshot.
pub const INCREMENTAL: u8 = 0b1000_0000;

/// Set in the flags of an update that gives a `cltv_expiry_delta`.
pub const HAS_CLTV_EXPIRY_DELTA: u8 = 0b0100_0000;

/// Set in the flags of an update that gives a `htlc_minimum_msat`.
pub const HAS_HTLC_MINIMUM_MSAT: u8 = 0b0010_0000;

/// Set in the flags of an update that gives a `fee_base_msat`.
pub const HAS_FEE_BASE_MSAT: u8 = 0b0001_0000;

/// Set in the flags of an update that gives a `fee_proportional_millionths`.
pub const HAS_FEE_PROPORTIONAL_MILLIONTHS: u8 = 0b0000_1000;

/// Set in the flags of an update that gives a `htlc_maximum_msat`.
pub const HAS_HTLC_MAXIMUM_MSAT: u8 = 0b0000_0100;

/// The flags of an update that the graph gets to see.
pub const STANDARD_FLAGS: u8 = 0b0000_0011;

/// The time that stands for `timestamp` in the graph: a week earlier, or 0 where there is no such
/// time.
pub open spec fn backdated(timestamp: u32) -> u32 {
    if timestamp < BACKDATE_SECS {
        0
    } else {
        (timestamp - BACKDATE_SECS) as u32
    }
}

/// The start of a snapshot.
pub struct Header {
    pub chain_hash: Seq<u8>,
    pub latest_seen_timestamp: u32,
    pub node_ids: Seq<Seq<u8>>,
}

/// `count` node ids.
pub open spec fn parse_node_ids(s: Seq<u8>, count: nat) -> Parsed<Seq<Seq<u8>>>
    decreases count,
{
    if count == 0 {
        Ok((Seq::empty(), s))
    } else {
        match parse_node_ids(s, (count - 1) as nat) {
            Err(fault) => Err(fault),
            Ok((ids, tail)) => match parse_node_id(tail) {
                Err(fault) => Err(fault),
                Ok((id, rest)) => Ok((ids.push(id), rest)),
            },
        }
    }
}

/// The part of a header after the prefix.
pub open spec fn parse_header_fields(s: Seq<u8>) -> Parsed<Header> {
    match parse_bytes(s, 32) {
        Err(fault) => Err(fault),
        Ok((chain_hash, s)) => match parse_u32(s) {
            Err(fault) => Err(fault),
            Ok((latest_seen_timestamp, s)) => match parse_u32(s) {
                Err(fault) => Err(fault),
                Ok((count, s)) => match parse_node_ids(s, count as nat) {
                    Err(fault) => Err(fault),
                    Ok((node_ids, rest)) => Ok(
                        (Header { chain_hash, latest_seen_timestamp, node_ids }, rest),
                    ),
                },
            },
        },
    }
}

/// The header of a snapshot. The prefix is read straight off the stream, so data that ends inside
/// it is a stream that ended early.
pub open spec fn parse_header(data: Seq<u8>) -> Parsed<Header> {
    if data.len() < 4 {
        Err(Fault { error: DecodeError::Io(IoErrorKind::UnexpectedEof), rest: data })
    } else if data.take(4) != GOSSIP_PREFIX@ {
        Err(Fault { error: DecodeError::UnknownVersion, rest: data.skip(4) })
    } else {
        parse_header_fields(data.skip(4))
    }
}

/// How far the items of a section have been applied.
pub enum Progress {
    /// All so far.
    Running { rest: Seq<u8>, previous_scid: u64, graph: GraphState },
    /// One could not be, and no more are.
    Stopped { failure: SyncFailure, rest: Seq<u8>, graph: GraphState },
}

/// A short channel id, given by its distance from the one before.
pub open spec fn parse_scid(s: Seq<u8>, previous_scid: u64) -> Parsed<u64> {
    match parse_big_size(s) {
        Err(fault) => Err(fault),
        Ok((delta, rest)) => if previous_scid + delta > u64::MAX {
            Err(Fault { error: DecodeError::InvalidValue, rest })
        } else {
            Ok(((previous_scid + delta) as u64, rest))
        },
    }
}

/// The announcement of a channel.
pub struct Announcement {
    pub features: Seq<u8>,
    pub short_channel_id: u64,
    pub node_one: Seq<u8>,
    pub node_two: Seq<u8>,
}

/// An announcement. It gives the nodes by their places in the list of the header.
pub open spec fn parse_announcement(
    s: Seq<u8>,
    previous_scid: u64,
    node_ids: Seq<Seq<u8>>,
) -> Parsed<Announcement> {
    match parse_features(s) {
        Err(fault) => Err(fault),
        Ok((features, s)) => match parse_scid(s, previous_scid) {
            Err(fault) => Err(fault),
            Ok((short_channel_id, s)) => match parse_big_size(s) {
                Err(fault) => Err(fault),
                Ok((one, s)) => match parse_big_size(s) {
                    Err(fault) => Err(fault),
                    Ok((two, rest)) => if one >= node_ids.len() || two >= node_ids.len() {
                        Err(Fault { error: DecodeError::InvalidValue, rest })
                    } else {
                        let node_one = node_ids[one as int];
                        let node_two = node_ids[two as int];
                        Ok((Announcement { features, short_channel_id, node_one, node_two }, rest))
                    },
                },
            },
        },
    }
}

/// What the answer of the graph to an announcement means for the snapshot: a channel that the
/// graph knows already is no failure.
pub open spec fn announcement_failure(answered: Result<(), Refusal>) -> Option<SyncFailure> {
    match answered {
        Ok(()) => None,
        Err(refused) => if refused.action == ErrorAction::IgnoreDuplicateGossip {
            None
        } else {
            Some(SyncFailure::Graph(refused))
        },
    }
}

/// One more announcement.
pub open spec fn announcement_step(progress: Progress, header: Header) -> Progress {
    match progress {
        Progress::Stopped { .. } => progress,
        Progress::Running { rest, previous_scid, graph } => match parse_announcement(
            rest,
            previous_scid,
            header.node_ids,
        ) {
            Err(fault) => Progress::Stopped {
                failure: SyncFailure::Decode(fault.error),
                rest: fault.rest,
                graph,
            },
            Ok((announced, rest)) => {
                let (answered, graph) = graph.announce(
                    announced.short_channel_id,
                    backdated(header.latest_seen_timestamp) as u64,
                    announced.features,
                    announced.node_one,
                    announced.node_two,
                );
                match announcement_failure(answered) {
                    Some(failure) => Progress::Stopped { failure, rest, graph },
                    None => Progress::Running {
                        rest,
                        previous_scid: announced.short_channel_id,
                        graph,
                    },
                }
            },
        },
    }
}

/// `count` announcements.
pub open spec fn after_announcements(start: Progress, header: Header, count: nat) -> Progress
    decreases count,
{
    if count == 0 {
        start
    } else {
        announcement_step(after_announcements(start, header, (count - 1) as nat), header)
    }
}

/// The terms that a full update falls back on.
pub open spec fn parse_defaults(s: Seq<u8>) -> Parsed<ChannelPolicy> {
    match parse_u16(s) {
        Err(fault) => Err(fault),
        Ok((cltv_expiry_delta, s)) => match parse_u64(s) {
            Err(fault) => Err(fault),
            Ok((htlc_minimum_msat, s)) => match parse_u32(s) {
                Err(fault) => Err(fault),
                Ok((fee_base_msat, s)) => match parse_u32(s) {
                    Err(fault) => Err(fault),
                    Ok((fee_proportional_millionths, s)) => match parse_u64(s) {
                        Err(fault) => Err(fault),
                        Ok((htlc_maximum_msat, rest)) => Ok(
                            (
                                ChannelPolicy {
                                    cltv_expiry_delta,
                                    htlc_minimum_msat,
                                    htlc_maximum_msat,
                                    fee_base_msat,
                                    fee_proportional_millionths,
                                },
                                rest,
                            ),
                        ),
                    },
                },
            },
        },
    }
}

/// What the updates of a snapshot have in common.
pub struct UpdateContext {
    /// The chain that the snapshot says it is of.
    pub chain_hash: Seq<u8>,
    /// The time that the updates are given in the graph.
    pub timestamp: u32,
    pub defaults: ChannelPolicy,
}

/// What the updates of a snapshot with the given header and defaults have in common.
pub open spec fn update_context(header: Header, defaults: ChannelPolicy) -> UpdateContext {
    UpdateContext {
        chain_hash: header.chain_hash,
        timestamp: backdated(header.latest_seen_timestamp),
        defaults,
    }
}

/// The channel and the flags of an update.
pub open spec fn parse_update_head(s: Seq<u8>, previous_scid: u64) -> Parsed<(u64, u8)> {
    match parse_scid(s, previous_scid) {
        Err(fault) => Err(fault),
        Ok((short_channel_id, s)) => match parse_u8(s) {
            Err(fault) => Err(fault),
            Ok((flags, rest)) => Ok(((short_channel_id, flags), rest)),
        },
    }
}

/// The refusal of an incremental update of a direction that nothing is known about.
pub open spec fn unknown_direction() -> Refusal {
    refusal("Couldn't find previous directional data for update", ErrorAction::IgnoreError)
}

/// The terms that an update starts from: the defaults, or for an incremental update the terms that
/// the graph knows.
pub open spec fn base_policy(
    graph: GraphState,
    defaults: ChannelPolicy,
    short_channel_id: u64,
    flags: u8,
) -> Result<ChannelPolicy, Refusal> {
    if flags & INCREMENTAL == 0 {
        Ok(defaults)
    } else if !graph.channels.contains_key(short_channel_id) {
        Err(unknown_channel())
    } else {
        match graph.channels[short_channel_id].directions.directional_info(flags) {
            None => Err(unknown_direction()),
            Some(known) => Ok(known.policy),
        }
    }
}

/// A number of two bytes where `given`, otherwise the one that holds already.
pub open spec fn parse_u16_if(s: Seq<u8>, given: bool, current: u16) -> Parsed<u16> {
    if given {
        parse_u16(s)
    } else {
        Ok((current, s))
    }
}

/// A number of four bytes where `given`, otherwise the one that holds already.
pub open spec fn parse_u32_if(s: Seq<u8>, given: bool, current: u32) -> Parsed<u32> {
    if given {
        parse_u32(s)
    } else {
        Ok((current, s))
    }
}

/// A number of eight bytes where `given`, otherwise the one that holds already.
pub open spec fn parse_u64_if(s: Seq<u8>, given: bool, current: u64) -> Parsed<u64> {
    if given {
        parse_u64(s)
    } else {
        Ok((current, s))
    }
}

/// The terms that `base` becomes when what the flags say is given is read.
pub open spec fn parse_changes(s: Seq<u8>, flags: u8, base: ChannelPolicy) -> Parsed<
    ChannelPolicy,
> {
    match parse_u16_if(s, flags & HAS_CLTV_EXPIRY_DELTA > 0, base.cltv_expiry_delta) {
        Err(fault) => Err(fault),
        Ok((cltv_expiry_delta, s)) => match parse_u64_if(
            s,
            flags & HAS_HTLC_MINIMUM_MSAT > 0,
            base.htlc_minimum_msat,
        ) {
            Err(fault) => Err(fault),
            Ok((htlc_minimum_msat, s)) => match parse_u32_if(
                s,
                flags & HAS_FEE_BASE_MSAT > 0,
                base.fee_base_msat,
            ) {
                Err(fault) => Err(fault),
                Ok((fee_base_msat, s)) => match parse_u32_if(
                    s,
                    flags & HAS_FEE_PROPORTIONAL_MILLIONTHS > 0,
                    base.fee_proportional_millionths,
                ) {
                    Err(fault) => Err(fault),
                    Ok((fee_proportional_millionths, s)) => match parse_u64_if(
                        s,
                        flags & HAS_HTLC_MAXIMUM_MSAT > 0,
                        base.htlc_maximum_msat,
                    ) {
                        Err(fault) => Err(fault),
                        Ok((htlc_maximum_msat, rest)) => Ok(
                            (
                                ChannelPolicy {
                                    cltv_expiry_delta,
                                    htlc_minimum_msat,
                                    htlc_maximum_msat,
                                    fee_base_msat,
                                    fee_proportional_millionths,
                                },
                                rest,
                            ),
                        ),
                    },
                },
            },
        },
    }
}

/// The next update as the graph is handed it, and the bytes after it; or why it cannot be made
/// out, and the bytes after what was read of it.
pub open spec fn next_update(
    s: Seq<u8>,
    previous_scid: u64,
    graph: GraphState,
    context: UpdateContext,
) -> Result<(UpdateMessage, Seq<u8>), (SyncFailure, Seq<u8>)> {
    match parse_update_head(s, previous_scid) {
        Err(fault) => Err((SyncFailure::Decode(fault.error), fault.rest)),
        Ok(((short_channel_id, flags), s)) => match base_policy(
            graph,
            context.defaults,
            short_channel_id,
            flags,
        ) {
            Err(refused) => Err((SyncFailure::Graph(refused), s)),
            Ok(base) => match parse_changes(s, flags, base) {
                Err(fault) => Err((SyncFailure::Decode(fault.error), fault.rest)),
                Ok((policy, rest)) => Ok(
                    (
                        UpdateMessage {
                            chain_hash: context.chain_hash,
                            short_channel_id,
                            timestamp: context.timestamp,
                            flags: flags & STANDARD_FLAGS,
                            policy,
                            excess_data: Seq::empty(),
                        },
                        rest,
                    ),
                ),
            },
        },
    }
}

/// One more update, where the graph does not refuse it for its age.
pub open spec fn update_step(progress: Progress, context: UpdateContext) -> Progress {
    match progress {
        Progress::Stopped { .. } => progress,
        Progress::Running { rest, previous_scid, graph } => match next_update(
            rest,
            previous_scid,
            graph,
            context,
        ) {
            Err((failure, rest)) => Progress::Stopped { failure, rest, graph },
            Ok((update, rest)) => match graph.update(update) {
                (Err(refused), graph) => Progress::Stopped {
                    failure: SyncFailure::Graph(refused),
                    rest,
                    graph,
                },
                (Ok(()), graph) => Progress::Running {
                    rest,
                    previous_scid: update.short_channel_id,
                    graph,
                },
            },
        },
    }
}

/// `count` updates.
pub open spec fn after_updates(start: Progress, context: UpdateContext, count: nat) -> Progress
    decreases count,
{
    if count == 0 {
        start
    } else {
        update_step(after_updates(start, context, (count - 1) as nat), context)
    }
}

/// How a synchronisation ends: with the timestamp of the snapshot or with a failure; and the bytes
/// that are left and the graph at that point.
pub struct Outcome {
    pub result: Result<u32, SyncFailure>,
    pub rest: Seq<u8>,
    pub graph: GraphState,
}

/// Whether `failure` is that the data ended too early.
pub open spec fn is_cut_off(failure: SyncFailure) -> bool {
    failure matches SyncFailure::Decode(error) && is_early_end(error)
}

impl Outcome {
    /// How a synchronisation ends whose data cannot be decoded.
    pub open spec fn undecodable(fault: Fault, graph: GraphState) -> Outcome {
        Outcome { result: Err(SyncFailure::Decode(fault.error)), rest: fault.rest, graph }
    }

    /// Whether both end in the same way. What is left of data that ended too early is not looked
    /// at.
    pub open spec fn same_as(self, other: Outcome) -> bool {
        &&& self.result == other.result
        &&& self.graph == other.graph
        &&& self.rest == other.rest || (self.result matches Err(failure) && is_cut_off(failure))
    }
}

/// What a snapshot amounts to up to its updates.
pub enum Opening {
    /// It ends before them: it fails, or has none.
    Ended(Outcome),
    /// They follow.
    Updates { start: Progress, context: UpdateContext, count: u32, timestamp: u32 },
}

/// The part of a snapshot after its announcements, up to the updates.
pub open spec fn open_updates(s: Seq<u8>, graph: GraphState, header: Header) -> Opening {
    let timestamp = header.latest_seen_timestamp;
    match parse_u32(s) {
        Err(fault) => Opening::Ended(Outcome::undecodable(fault, graph)),
        Ok((count, s)) => if count == 0 {
            Opening::Ended(Outcome { result: Ok(timestamp), rest: s, graph })
        } else {
            match parse_defaults(s) {
                Err(fault) => Opening::Ended(Outcome::undecodable(fault, graph)),
                Ok((defaults, rest)) => Opening::Updates {
                    start: Progress::Running { rest, previous_scid: 0, graph },
                    context: update_context(header, defaults),
                    count,
                    timestamp,
                },
            }
        },
    }
}

/// The part of a snapshot after its header, up to the updates.
pub open spec fn open_body(s: Seq<u8>, graph: GraphState, header: Header) -> Opening {
    match parse_u32(s) {
        Err(fault) => Opening::Ended(Outcome::undecodable(fault, graph)),
        Ok((count, rest)) => match after_announcements(
            Progress::Running { rest, previous_scid: 0, graph },
            header,
            count as nat,
        ) {
            Progress::Stopped { failure, rest, graph } => Opening::Ended(
                Outcome { result: Err(failure), rest, graph },
            ),
            Progress::Running { rest, previous_scid, graph } => open_updates(rest, graph, header),
        },
    }
}

/// A snapshot, up to its updates.
pub open spec fn open_snapshot(data: Seq<u8>, graph: GraphState) -> Opening {
    match parse_header(data) {
        Err(fault) => Opening::Ended(Outcome::undecodable(fault, graph)),
        Ok((header, s)) => open_body(s, graph, header),
    }
}

/// How a snapshot ends whose updates have got to `progress`.
pub open spec fn finish(progress: Progress, timestamp: u32) -> Outcome {
    match progress {
        Progress::Stopped { failure, rest, graph } => Outcome { result: Err(failure), rest, graph },
        Progress::Running { rest, previous_scid, graph } => Outcome {
            result: Ok(timestamp),
            rest,
            graph: GraphState { last_sync: Some(timestamp), ..graph },
        },
    }
}

/// How a snapshot ends when the graph refuses none of its updates for its age.
pub open spec fn sync(data: Seq<u8>, graph: GraphState) -> Outcome {
    match open_snapshot(data, graph) {
        Opening::Ended(outcome) => outcome,
        Opening::Updates { start, context, count, timestamp } => finish(
            after_updates(start, context, count as nat),
            timestamp,
        ),
    }
}

/// Whether `outcome` is that of a next update that the graph refuses for its age.
pub open spec fn clock_stops_next(
    progress: Progress,
    context: UpdateContext,
    outcome: Outcome,
) -> bool {
    &&& progress matches Progress::Running { rest, previous_scid, graph }
    &&& next_update(rest, previous_scid, graph, context) matches Ok((_, left)) && outcome.rest
        == left
    &&& outcome.graph == graph
    &&& outcome.result matches Err(SyncFailure::Graph(refused)) && is_clock_refusal(refused)
}

/// Whether `outcome` is that of a snapshot one of whose updates the graph refuses for its age,
/// those before it having been applied.
pub open spec fn clock_stops(data: Seq<u8>, graph: GraphState, outcome: Outcome) -> bool {
    open_snapshot(data, graph) matches Opening::Updates { start, context, count, timestamp }
        && exists|applied: nat|
        applied < count && #[trigger] clock_stops_next(
            after_updates(start, context, applied),
            context,
            outcome,
        )
}

/// Whether a snapshot can end like that. Whether the graph refuses an update for its age depends
/// on the clock of the machine; nothing else does.
pub open spec fn can_end(data: Seq<u8>, graph: GraphState, outcome: Outcome) -> bool {
    outcome.same_as(sync(data, graph)) || clock_stops(data, graph, outcome)
}

/// How many updates have to be followed to get to where a snapshot ends: those before the update
/// that the clock stops it at, or all where the clock does not.
pub proof fn lemma_updates_up_to_the_end(
    data: Seq<u8>,
    graph: GraphState,
    outcome: Outcome,
) -> (applied: nat)
    requires
        can_end(data, graph, outcome),
    ensures
        open_snapshot(data, graph) matches Opening::Updates { start, context, count, timestamp }
            ==> if clock_stops(data, graph, outcome) {
            applied < count && clock_stops_next(
                after_updates(start, context, applied),
                context,
                outcome,
            )
        } else {
            applied == count
        },
{
    match open_snapshot(data, graph) {
        Opening::Ended(_) => 0,
        Opening::Updates { start, context, count, timestamp } => if clock_stops(
            data,
            graph,
            outcome,
        ) {
            choose|applied: nat|
                applied < count && #[trigger] clock_stops_next(
                    after_updates(start, context, applied),
                    context,
                    outcome,
                )
        } else {
            count as nat
        },
    }
}

/// Node ids of which one is wrong are wrong whatever their number.
pub proof fn lemma_node_ids_error_stays(s: Seq<u8>, failed: nat, count: nat)
    requires
        failed <= count,
        parse_node_ids(s, failed) is Err,
    ensures
        parse_node_ids(s, count) == parse_node_ids(s, failed),
    decreases count,
{
    if failed < count {
        lemma_node_ids_error_stays(s, failed, (count - 1) as nat);
    }
}

/// Only the prefix can be of an unknown version.
pub proof fn lemma_node_ids_are_of_the_version(s: Seq<u8>, count: nat)
    ensures
        parse_node_ids(s, count) matches Err(fault) ==> fault.error != DecodeError::UnknownVersion,
    decreases count,
{
    if count > 0 {
        lemma_node_ids_are_of_the_version(s, (count - 1) as nat);
    }
}

/// Whether what stopped a section is not an unknown version.
pub open spec fn is_of_the_version(progress: Progress) -> bool {
    progress matches Progress::Stopped { failure, .. } ==> failure != SyncFailure::Decode(
        DecodeError::UnknownVersion,
    )
}

/// Only the prefix can be of an unknown version.
pub proof fn lemma_announcements_are_of_the_version(start: Progress, header: Header, count: nat)
    requires
        is_of_the_version(start),
    ensures
        is_of_the_version(after_announcements(start, header, count)),
    decreases count,
{
    if count > 0 {
        lemma_announcements_are_of_the_version(start, header, (count - 1) as nat);
    }
}

/// Only the prefix can be of an unknown version.
pub proof fn lemma_updates_are_of_the_version(
    start: Progress,
    context: UpdateContext,
    count: nat,
)
    requires
        is_of_the_version(start),
    ensures
        is_of_the_version(after_updates(start, context, count)),
    decreases count,
{
    if count > 0 {
        lemma_updates_are_of_the_version(start, context, (count - 1) as nat);
    }
}

/// A snapshot is of an unknown version exactly where its prefix is.
pub proof fn lemma_version_is_that_of_the_prefix(data: Seq<u8>, graph: GraphState)
    ensures
        sync(data, graph).result == Err::<u32, SyncFailure>(
            SyncFailure::Decode(DecodeError::UnknownVersion),
        ) <==> data.len() >= 4 && data.take(4) != GOSSIP_PREFIX@,
{
    if data.len() >= 4 && data.take(4) == GOSSIP_PREFIX@ {
        let s = data.skip(4);
        if let Ok((chain_hash, s)) = parse_bytes(s, 32) {
            if let Ok((timestamp, s)) = parse_u32(s) {
                if let Ok((count, s)) = parse_u32(s) {
                    lemma_node_ids_are_of_the_version(s, count as nat);
                }
            }
        }
        if let Ok((header, s)) = parse_header(data) {
            if let Ok((count, rest)) = parse_u32(s) {
                lemma_announcements_are_of_the_version(
                    Progress::Running { rest, previous_scid: 0, graph },
                    header,
                    count as nat,
                );
            }
        }
        if let Opening::Updates { start, context, count, timestamp } = open_snapshot(data, graph) {
            lemma_updates_are_of_the_version(start, context, count as nat);
        }
    }
}

/// A section that has stopped stays where it is.
pub proof fn lemma_stopped_announcements_stay(
    start: Progress,
    header: Header,
    stopped: nat,
    count: nat,
)
    requires
        stopped <= count,
        after_announcements(start, header, stopped) is Stopped,
    ensures
        after_announcements(start, header, count) == after_announcements(start, header, stopped),
    decreases count,
{
    if stopped < count {
        lemma_stopped_announcements_stay(start, header, stopped, (count - 1) as nat);
    }
}

/// A section that has stopped stays where it is.
pub proof fn lemma_stopped_updates_stay(
    start: Progress,
    context: UpdateContext,
    stopped: nat,
    count: nat,
)
    requires
        stopped <= count,
        after_updates(start, context, stopped) is Stopped,
    ensures
        after_updates(start, context, count) == after_updates(start, context, stopped),
    decreases count,
{
    if stopped < count {
        lemma_stopped_updates_stay(start, context, stopped, (count - 1) as nat);
    }
}

} // verus!

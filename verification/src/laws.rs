//! What holds of every snapshot and every graph.

use crate::error::{DecodeError, ErrorAction, IoErrorKind, Refusal, SyncFailure};
use crate::graph::{
    is_clock_refusal, refusal, unknown_channel, Channel, ChannelDirections, ChannelPolicy,
    ChannelUpdateInfo, GraphState, UpdateMessage,
};
use crate::growth::{
    lemma_announcements_grow, lemma_clock_stops_grows, lemma_header_grows, lemma_ints_grow,
    lemma_open_snapshot_grows, lemma_sync_grows, lemma_updates_grow, outcome_with, progress_with,
};
use crate::leftover::{is_end_of, lemma_snapshot_leaves_end};
use crate::roundtrip::week_before;
use crate::snapshot::{
    after_announcements, after_updates, announcement_step, base_policy, can_end, clock_stops_next,
    is_cut_off, lemma_stopped_updates_stay, lemma_updates_up_to_the_end,
    lemma_version_is_that_of_the_prefix, next_update, open_snapshot, parse_announcement,
    parse_changes, parse_header, parse_update_head, sync, unknown_direction, update_step, Header,
    Opening, Outcome, Progress, UpdateContext,
};
use crate::wire::{be_value, parse_bytes, parse_u32};
use vstd::prelude::*;

verus! {

/// What follows a snapshot is not looked at: whatever it is, it changes neither what is returned
/// nor the graph nor whether the snapshot is one with updates, and it is left over. That holds of
/// snapshots that fail too, unless they fail for being cut off, and of those that the clock stops.
pub proof fn trailing_data_is_left(
    data: Seq<u8>,
    extra: Seq<u8>,
    graph: GraphState,
    outcome: Outcome,
)
    requires
        can_end(data, graph, outcome),
        outcome.result matches Err(failure) ==> !is_cut_off(failure),
    ensures
        outcome == sync(data, graph) ==> sync(data + extra, graph) == outcome_with(outcome, extra),
        can_end(data + extra, graph, outcome_with(outcome, extra)),
        open_snapshot(data + extra, graph) is Updates == open_snapshot(data, graph) is Updates,
{
    lemma_sync_grows(data, extra, graph);
    lemma_open_snapshot_grows(data, extra, graph);
    if outcome != sync(data, graph) {
        lemma_clock_stops_grows(data, extra, graph, outcome);
    }
}

/// What is left is always the end of the data, unless the data ended too early.
pub proof fn end_of_the_data_is_left(data: Seq<u8>, graph: GraphState, outcome: Outcome)
    requires
        can_end(data, graph, outcome),
        outcome.result matches Err(failure) ==> !is_cut_off(failure),
    ensures
        is_end_of(outcome.rest, data),
{
    lemma_snapshot_leaves_end(data, graph, outcome);
}

/// Data is of an unknown version exactly where it does not start with the prefix. Then four bytes
/// of it are taken, and the graph stays as it is.
pub proof fn unknown_prefix_is_refused(data: Seq<u8>, graph: GraphState, outcome: Outcome)
    requires
        can_end(data, graph, outcome),
    ensures
        outcome.result == Err::<u32, SyncFailure>(SyncFailure::Decode(DecodeError::UnknownVersion))
            <==> data.len() >= 4 && data.take(4) != seq![76u8, 68, 75, 1],
        data.len() >= 4 && data.take(4) != seq![76u8, 68, 75, 1] ==> outcome.rest == data.skip(4)
            && outcome.graph == graph,
{
    lemma_version_is_that_of_the_prefix(data, graph);
}

/// The timestamp that is returned is the one in the data, which follows the prefix and the hash of
/// the chain. A snapshot that gives one starts with the prefix and takes at least 52 bytes.
pub proof fn returned_timestamp_is_that_of_the_data(
    data: Seq<u8>,
    graph: GraphState,
    outcome: Outcome,
)
    requires
        can_end(data, graph, outcome),
        outcome.result is Ok,
    ensures
        outcome.rest.len() + 52 <= data.len(),
        data.take(4) == seq![76u8, 68, 75, 1],
        outcome.result->Ok_0 == be_value(data.subrange(36, 40)) as u32,
{
    lemma_snapshot_leaves_end(data, graph, outcome);
    let header = parse_header(data)->Ok_0.0;
    let s = data.skip(4);
    let (chain_hash, s1) = parse_bytes(s, 32)->Ok_0;
    assert(s1.take(4) =~= data.subrange(36, 40));
    assert(parse_u32(s1) is Ok);
    assert(header.latest_seen_timestamp == be_value(data.subrange(36, 40)) as u32);
}

/// Whether `after` is `before` with what a snapshot of time `time` can bring: more channels, and
/// newer terms for directions of channels. Nothing is lost or goes back in time.
pub open spec fn advanced(before: GraphState, after: GraphState, time: u32) -> bool {
    &&& after.genesis_hash == before.genesis_hash
    &&& forall|scid: u64| #[trigger]
        before.channels.contains_key(scid) ==> after.channels.contains_key(scid) && same_channel(
            before.channels[scid],
            after.channels[scid],
        )
    &&& forall|scid: u64| #[trigger]
        after.channels.contains_key(scid) && !before.channels.contains_key(scid)
            ==> after.channels[scid].announcement_received_time == time
            && after.channels[scid].capacity_sats is None
    &&& forall|scid: u64, flags: u8| #[trigger]
        direction_advanced(direction(before, scid, flags), direction(after, scid, flags), time)
    &&& forall|node: Seq<u8>| #[trigger]
        before.nodes.contains_key(node) ==> after.nodes.contains_key(node)
            && before.nodes[node].channels.is_prefix_of(after.nodes[node].channels)
}

/// Whether two channels differ at most in what is known about their directions.
pub open spec fn same_channel(before: Channel, after: Channel) -> bool {
    after == (Channel { directions: after.directions, ..before })
}

/// What a graph knows about the direction of a channel that `flags` stand for.
pub open spec fn direction(graph: GraphState, scid: u64, flags: u8) -> Option<ChannelUpdateInfo> {
    if graph.channels.contains_key(scid) {
        graph.channels[scid].directions.directional_info(flags)
    } else {
        None
    }
}

/// Whether what is known about a direction is the same as before, or of time `time` and newer.
pub open spec fn direction_advanced(
    before: Option<ChannelUpdateInfo>,
    after: Option<ChannelUpdateInfo>,
    time: u32,
) -> bool {
    after == before || {
        &&& after matches Some(new) && new.last_update == time
        &&& before matches Some(known) ==> known.last_update < time
    }
}

proof fn lemma_advanced_transitive(a: GraphState, b: GraphState, c: GraphState, time: u32)
    requires
        advanced(a, b, time),
        advanced(b, c, time),
    ensures
        advanced(a, c, time),
{
    assert forall|scid: u64| #[trigger]
        c.channels.contains_key(scid) && !a.channels.contains_key(
            scid,
        ) implies c.channels[scid].announcement_received_time == time
        && c.channels[scid].capacity_sats is None by {
        if b.channels.contains_key(scid) {
            assert(same_channel(b.channels[scid], c.channels[scid]));
        }
    }
    assert forall|scid: u64| #[trigger]
        a.channels.contains_key(scid) implies c.channels.contains_key(scid) && same_channel(
        a.channels[scid],
        c.channels[scid],
    ) by {
        assert(b.channels.contains_key(scid));
    }
    assert forall|node: Seq<u8>| #[trigger] a.nodes.contains_key(node) implies c.nodes.contains_key(
        node,
    ) && a.nodes[node].channels.is_prefix_of(c.nodes[node].channels) by {
        assert(b.nodes.contains_key(node));
        let listed = a.nodes[node].channels.len() as int;
        assert(c.nodes[node].channels.take(listed) =~= b.nodes[node].channels.take(listed));
    }
    assert forall|scid: u64, flags: u8| #[trigger]
        direction_advanced(direction(a, scid, flags), direction(c, scid, flags), time) by {
        assert(direction_advanced(direction(a, scid, flags), direction(b, scid, flags), time));
        assert(direction_advanced(direction(b, scid, flags), direction(c, scid, flags), time));
    }
}

proof fn lemma_advanced_whatever_last_sync(
    before: GraphState,
    after: GraphState,
    time: u32,
    last_sync: Option<u32>,
)
    requires
        advanced(before, after, time),
    ensures
        advanced(before, GraphState { last_sync, ..after }, time),
{
    let synced = GraphState { last_sync, ..after };
    assert forall|scid: u64, flags: u8| #[trigger]
        direction_advanced(
            direction(before, scid, flags),
            direction(synced, scid, flags),
            time,
        ) by {
        assert(direction_advanced(
            direction(before, scid, flags),
            direction(after, scid, flags),
            time,
        ));
    }
}

proof fn lemma_announce_advances(
    graph: GraphState,
    scid: u64,
    time: u32,
    features: Seq<u8>,
    node_one: Seq<u8>,
    node_two: Seq<u8>,
)
    ensures
        advanced(graph, graph.announce(scid, time as u64, features, node_one, node_two).1, time),
{
}

proof fn lemma_update_advances(graph: GraphState, update: UpdateMessage)
    ensures
        advanced(graph, graph.update(update).1, update.timestamp),
{
}

/// The graph at the point that was got to.
spec fn graph_of(progress: Progress) -> GraphState {
    match progress {
        Progress::Running { rest, previous_scid, graph } => graph,
        Progress::Stopped { failure, rest, graph } => graph,
    }
}

proof fn lemma_announcements_advance(start: Progress, header: Header, count: nat)
    ensures
        advanced(
            graph_of(start),
            graph_of(after_announcements(start, header, count)),
            week_before(header.latest_seen_timestamp),
        ),
        graph_of(after_announcements(start, header, count)).last_sync == graph_of(start).last_sync,
    decreases count,
{
    if count > 0 {
        lemma_announcements_advance(start, header, (count - 1) as nat);
        let before = after_announcements(start, header, (count - 1) as nat);
        let time = week_before(header.latest_seen_timestamp);
        if let Progress::Running { rest, previous_scid, graph } = before {
            if let Ok((announced, _)) = parse_announcement(rest, previous_scid, header.node_ids) {
                lemma_announce_advances(
                    graph,
                    announced.short_channel_id,
                    time,
                    announced.features,
                    announced.node_one,
                    announced.node_two,
                );
            }
        }
        lemma_advanced_transitive(
            graph_of(start),
            graph_of(before),
            graph_of(announcement_step(before, header)),
            time,
        );
    }
}

/// The updates from the `from`th on advance the graph.
proof fn lemma_updates_advance(start: Progress, context: UpdateContext, from: nat, count: nat)
    requires
        from <= count,
    ensures
        advanced(
            graph_of(after_updates(start, context, from)),
            graph_of(after_updates(start, context, count)),
            context.timestamp,
        ),
        graph_of(after_updates(start, context, count)).last_sync == graph_of(
            after_updates(start, context, from),
        ).last_sync,
    decreases count,
{
    if from < count {
        lemma_updates_advance(start, context, from, (count - 1) as nat);
        let before = after_updates(start, context, (count - 1) as nat);
        if let Progress::Running { rest, previous_scid, graph } = before {
            if let Ok((update, _)) = next_update(rest, previous_scid, graph, context) {
                lemma_update_advances(graph, update);
            }
        }
        lemma_advanced_transitive(
            graph_of(after_updates(start, context, from)),
            graph_of(before),
            graph_of(update_step(before, context)),
            context.timestamp,
        );
    }
}

/// The graph where a snapshot ends, or where its updates start.
spec fn opening_graph(opening: Opening) -> GraphState {
    match opening {
        Opening::Ended(outcome) => outcome.graph,
        Opening::Updates { start, context, count, timestamp } => graph_of(start),
    }
}

proof fn lemma_opening_advances(data: Seq<u8>, graph: GraphState)
    requires
        parse_header(data) is Ok,
    ensures
        ({
            let time = week_before(parse_header(data)->Ok_0.0.latest_seen_timestamp);
            let opening = open_snapshot(data, graph);
            &&& advanced(graph, opening_graph(opening), time)
            &&& opening_graph(opening).last_sync == graph.last_sync
            &&& opening matches Opening::Updates { start, context, count, timestamp } ==> {
                &&& context.timestamp == time
                &&& timestamp == parse_header(data)->Ok_0.0.latest_seen_timestamp
            }
        }),
{
    let (header, s) = parse_header(data)->Ok_0;
    if let Ok((count, rest)) = parse_u32(s) {
        let start = Progress::Running { rest, previous_scid: 0, graph };
        lemma_announcements_advance(start, header, count as nat);
    }
}

/// However a snapshot ends, it takes nothing from the graph: every channel and every node stays,
/// and what is known about a direction of a channel is either kept or replaced by something newer,
/// of the time of the snapshot less a week. Data without a header leaves the graph as it is.
pub proof fn graph_only_advances(data: Seq<u8>, graph: GraphState, outcome: Outcome)
    requires
        can_end(data, graph, outcome),
    ensures
        match parse_header(data) {
            Ok((header, _)) => advanced(
                graph,
                outcome.graph,
                week_before(header.latest_seen_timestamp),
            ),
            Err(_) => outcome.graph == graph,
        },
{
    if let Ok((header, s)) = parse_header(data) {
        lemma_opening_advances(data, graph);
        if let Opening::Updates { start, context, count, timestamp } = open_snapshot(data, graph) {
            let end = lemma_updates_up_to_the_end(data, graph, outcome);
            lemma_updates_advance(start, context, 0, end);
            lemma_advanced_transitive(
                graph,
                graph_of(start),
                graph_of(after_updates(start, context, end)),
                context.timestamp,
            );
            lemma_advanced_whatever_last_sync(
                graph,
                graph_of(after_updates(start, context, end)),
                context.timestamp,
                Some(timestamp),
            );
        }
    }
}

/// The graph remembers the timestamp of a snapshot exactly where the snapshot has updates and is
/// applied to the end; otherwise it remembers what it did before.
pub proof fn completed_snapshots_are_remembered(data: Seq<u8>, graph: GraphState, outcome: Outcome)
    requires
        can_end(data, graph, outcome),
    ensures
        outcome.graph.last_sync == match outcome.result {
            Ok(timestamp) => if open_snapshot(data, graph) is Updates {
                Some(timestamp)
            } else {
                graph.last_sync
            },
            Err(_) => graph.last_sync,
        },
{
    if let Ok((header, s)) = parse_header(data) {
        lemma_opening_advances(data, graph);
        if let Opening::Updates { start, context, count, timestamp } = open_snapshot(data, graph) {
            let end = lemma_updates_up_to_the_end(data, graph, outcome);
            lemma_updates_advance(start, context, 0, end);
        }
    }
}

/// Whether the section has got to a point where the graph is `state`.
pub open spec fn is_at(progress: Progress, state: GraphState) -> bool {
    progress matches Progress::Running { rest, previous_scid, graph } && graph == state
}

/// Whether `state` is what some of the announcements of the snapshot, from the first on, make of
/// the graph.
pub open spec fn announced_to(data: Seq<u8>, graph: GraphState, state: GraphState) -> bool {
    parse_header(data) matches Ok((header, s)) && parse_u32(s) matches Ok((count, rest))
        && exists|applied: nat|
        applied <= count && #[trigger] is_at(
            after_announcements(
                Progress::Running { rest, previous_scid: 0, graph },
                header,
                applied,
            ),
            state,
        )
}

/// Whether `state` is what the announcements and some of the updates of the snapshot, from the
/// first on, make of the graph.
pub open spec fn updated_to(data: Seq<u8>, graph: GraphState, state: GraphState) -> bool {
    open_snapshot(data, graph) matches Opening::Updates { start, context, count, timestamp }
        && exists|applied: nat|
        applied <= count && #[trigger] is_at(after_updates(start, context, applied), state)
}

/// Whether `state` is one that the graph passes through while the snapshot is applied to it.
pub open spec fn passes_through(data: Seq<u8>, graph: GraphState, state: GraphState) -> bool {
    state == graph || announced_to(data, graph, state) || updated_to(data, graph, state)
}

/// Announcements that stop leave the graph as the last one that was applied did.
proof fn lemma_last_announcement(start: Progress, header: Header, count: nat) -> (applied: nat)
    requires
        start is Running,
    ensures
        applied <= count,
        is_at(
            after_announcements(start, header, applied),
            graph_of(after_announcements(start, header, count)),
        ),
    decreases count,
{
    if after_announcements(start, header, count) is Running {
        count
    } else {
        lemma_last_announcement(start, header, (count - 1) as nat)
    }
}

/// Updates that stop leave the graph as the last one that was applied did.
proof fn lemma_last_update(start: Progress, context: UpdateContext, count: nat) -> (applied: nat)
    requires
        start is Running,
    ensures
        applied <= count,
        is_at(
            after_updates(start, context, applied),
            graph_of(after_updates(start, context, count)),
        ),
    decreases count,
{
    if after_updates(start, context, count) is Running {
        count
    } else {
        lemma_last_update(start, context, (count - 1) as nat)
    }
}

proof fn lemma_clipped_announcements(data: Seq<u8>, extra: Seq<u8>, graph: GraphState)
    requires
        data.len() >= 4,
    ensures
        open_snapshot(data, graph) matches Opening::Ended(outcome) ==> passes_through(
            data + extra,
            graph,
            outcome.graph,
        ),
{
    lemma_header_grows(data, extra);
    if let Ok((header, s)) = parse_header(data) {
        lemma_ints_grow(s, extra);
        if let Ok((count, rest)) = parse_u32(s) {
            let start = Progress::Running { rest, previous_scid: 0, graph };
            let end = after_announcements(start, header, count as nat);
            let applied = lemma_last_announcement(start, header, count as nat);
            lemma_announcements_grow(start, extra, header, applied);
            assert(is_at(
                after_announcements(
                    Progress::Running { rest: rest + extra, previous_scid: 0, graph },
                    header,
                    applied,
                ),
                graph_of(end),
            ));
            assert(announced_to(data + extra, graph, graph_of(end)));
        }
    }
}

proof fn lemma_clipped_updates(data: Seq<u8>, extra: Seq<u8>, graph: GraphState, outcome: Outcome)
    requires
        data.len() >= 4,
        open_snapshot(data, graph) is Updates,
        sync(data, graph).result is Err,
        can_end(data, graph, outcome),
    ensures
        updated_to(data + extra, graph, outcome.graph),
{
    lemma_open_snapshot_grows(data, extra, graph);
    if let Opening::Updates { start, context, count, timestamp } = open_snapshot(data, graph) {
        let end = lemma_updates_up_to_the_end(data, graph, outcome);
        let applied = lemma_last_update(start, context, end);
        lemma_updates_grow(start, extra, context, applied);
        assert(is_at(
            after_updates(progress_with(start, extra), context, applied),
            outcome.graph,
        ));
    }
}

/// A snapshot that is cut off anywhere is refused. The failure is that the data is too short;
/// where even the prefix is cut, that the stream ended. Only the clock can bring about another
/// failure, and it too makes the snapshot fail. The graph is left as the whole snapshot has it at
/// some point on its way, and remembers no synchronisation that it did not before.
pub proof fn clipped_snapshot_is_refused(
    data: Seq<u8>,
    graph: GraphState,
    kept: int,
    outcome: Outcome,
)
    requires
        sync(data, graph).result is Ok,
        0 <= kept < data.len() - sync(data, graph).rest.len(),
        can_end(data.take(kept), graph, outcome),
    ensures
        sync(data.take(kept), graph).result == Err::<u32, SyncFailure>(
            SyncFailure::Decode(
                if kept < 4 {
                    DecodeError::Io(IoErrorKind::UnexpectedEof)
                } else {
                    DecodeError::ShortRead
                },
            ),
        ),
        outcome.result == sync(data.take(kept), graph).result || (outcome.result matches Err(
            SyncFailure::Graph(refused),
        ) && is_clock_refusal(refused)),
        passes_through(data, graph, outcome.graph),
        outcome.graph.last_sync == graph.last_sync,
{
    completed_snapshots_are_remembered(data.take(kept), graph, outcome);
    if kept >= 4 {
        lemma_sync_grows(data.take(kept), data.skip(kept), graph);
        assert(data.take(kept) + data.skip(kept) =~= data);
        match open_snapshot(data.take(kept), graph) {
            Opening::Ended(_) => lemma_clipped_announcements(
                data.take(kept),
                data.skip(kept),
                graph,
            ),
            Opening::Updates { .. } => lemma_clipped_updates(
                data.take(kept),
                data.skip(kept),
                graph,
                outcome,
            ),
        }
    }
}

/// Announcements that a graph has taken before bring nothing to it.
proof fn lemma_announcements_again(
    rest: Seq<u8>,
    previous_scid: u64,
    graph: GraphState,
    later: GraphState,
    header: Header,
    count: nat,
)
    requires
        ({
            let end = after_announcements(
                Progress::Running { rest, previous_scid, graph },
                header,
                count,
            );
            end is Running && advanced(
                graph_of(end),
                later,
                week_before(header.latest_seen_timestamp),
            )
        }),
    ensures
        ({
            let end = after_announcements(
                Progress::Running { rest, previous_scid, graph },
                header,
                count,
            );
            after_announcements(
                Progress::Running { rest, previous_scid, graph: later },
                header,
                count,
            ) == (Progress::Running {
                rest: end->Running_rest,
                previous_scid: end->Running_previous_scid,
                graph: later,
            })
        }),
    decreases count,
{
    if count > 0 {
        let start = Progress::Running { rest, previous_scid, graph };
        let time = week_before(header.latest_seen_timestamp);
        let before = after_announcements(start, header, (count - 1) as nat);
        let end = after_announcements(start, header, count);
        assert(before is Running);
        let known = before->Running_graph;
        let (announced, _) = parse_announcement(
            before->Running_rest,
            before->Running_previous_scid,
            header.node_ids,
        )->Ok_0;
        lemma_announce_advances(
            known,
            announced.short_channel_id,
            time,
            announced.features,
            announced.node_one,
            announced.node_two,
        );
        lemma_advanced_transitive(known, graph_of(end), later, time);
        lemma_announcements_again(
            rest,
            previous_scid,
            graph,
            later,
            header,
            (count - 1) as nat,
        );
        assert(graph_of(end).channels.contains_key(announced.short_channel_id));
        assert(later.channels.contains_key(announced.short_channel_id));
    }
}

/// Making the same changes twice is making them once.
proof fn lemma_changes_again(s: Seq<u8>, flags: u8, base: ChannelPolicy)
    requires
        parse_changes(s, flags, base) is Ok,
    ensures
        parse_changes(s, flags, parse_changes(s, flags, base)->Ok_0.0) == parse_changes(
            s,
            flags,
            base,
        ),
{
}

/// The refusal of an update that has the timestamp of the one before.
pub open spec fn same_timestamp() -> Refusal {
    refusal(
        "Update had same timestamp as last processed update",
        ErrorAction::IgnoreDuplicateGossip,
    )
}

proof fn lemma_first_update_again(
    rest: Seq<u8>,
    graph: GraphState,
    later: GraphState,
    context: UpdateContext,
)
    requires
        ({
            let next = update_step(Progress::Running { rest, previous_scid: 0, graph }, context);
            next is Running && advanced(graph_of(next), later, context.timestamp)
        }),
    ensures
        next_update(rest, 0, later, context) is Ok,
        update_step(
            Progress::Running { rest, previous_scid: 0, graph: later },
            context,
        ) matches Progress::Stopped { failure, graph: stopped, .. } && failure
            == SyncFailure::Graph(same_timestamp()) && stopped == later,
{
    let next = update_step(Progress::Running { rest, previous_scid: 0, graph }, context);
    let ((scid, flags), s) = parse_update_head(rest, 0)->Ok_0;
    let standard = flags & 0x03;
    let (update, left) = next_update(rest, 0, graph, context)->Ok_0;
    let base = base_policy(graph, context.defaults, scid, flags)->Ok_0;
    assert((flags & 0b0000_0011u8) & 1 == flags & 1) by (bit_vector);
    assert(direction(graph_of(next), scid, standard) == Some(
        ChannelUpdateInfo {
            last_update: context.timestamp,
            enabled: standard & 2 != 2,
            policy: update.policy,
        },
    ));
    assert(direction_advanced(
        direction(graph_of(next), scid, standard),
        direction(later, scid, standard),
        context.timestamp,
    ));
    assert(graph_of(next).channels.contains_key(scid));
    assert(same_channel(graph_of(next).channels[scid], later.channels[scid]));
    assert(direction(later, scid, standard) == direction(graph_of(next), scid, standard));
    lemma_changes_again(s, flags, base);
    assert(next_update(rest, 0, later, context) == Ok::<_, (SyncFailure, Seq<u8>)>(
        (update, left),
    ));
}

/// A snapshot that was applied to the end brings nothing when it comes again. If it has no
/// updates, it ends as it did before; if it has, its first update is refused, as it is not newer
/// than what the graph has from it.
#[verifier::rlimit(60)]
pub proof fn replayed_snapshot_changes_nothing(data: Seq<u8>, graph: GraphState, again: Outcome)
    requires
        sync(data, graph).result is Ok,
        can_end(data, sync(data, graph).graph, again),
    ensures
        again.graph == sync(data, graph).graph,
        open_snapshot(data, graph) is Ended ==> again == sync(data, graph),
        open_snapshot(data, graph) is Updates ==> (again.result matches Err(
            SyncFailure::Graph(refused),
        ) && (refused == same_timestamp() || is_clock_refusal(refused))),
{
    let first = sync(data, graph);
    let later = first.graph;
    let (header, s) = parse_header(data)->Ok_0;
    let time = week_before(header.latest_seen_timestamp);
    let (count, rest) = parse_u32(s)->Ok_0;
    let announced = after_announcements(
        Progress::Running { rest, previous_scid: 0, graph },
        header,
        count as nat,
    );
    match open_snapshot(data, graph) {
        Opening::Ended(_) => {
            assert(advanced(later, later, time));
            lemma_announcements_again(rest, 0, graph, later, header, count as nat);
        },
        Opening::Updates { start, context, count: updates, timestamp } => {
            let end = after_updates(start, context, updates as nat);
            lemma_updates_advance(start, context, 0, updates as nat);
            lemma_advanced_whatever_last_sync(
                graph_of(start),
                graph_of(end),
                time,
                Some(timestamp),
            );
            lemma_announcements_again(rest, 0, graph, later, header, count as nat);
            let restart = Progress::Running {
                rest: start->Running_rest,
                previous_scid: 0,
                graph: later,
            };
            assert(open_snapshot(data, later) == (Opening::Updates {
                start: restart,
                context,
                count: updates,
                timestamp,
            }));
            let one = after_updates(start, context, 1);
            assert(one == update_step(start, context)) by {
                reveal_with_fuel(after_updates, 2);
            }
            if one is Stopped {
                lemma_stopped_updates_stay(start, context, 1, updates as nat);
            }
            lemma_updates_advance(start, context, 1, updates as nat);
            lemma_advanced_whatever_last_sync(graph_of(one), graph_of(end), time, Some(timestamp));
            lemma_first_update_again(start->Running_rest, graph_of(start), later, context);
            assert(after_updates(restart, context, 1) == update_step(restart, context)) by {
                reveal_with_fuel(after_updates, 2);
            }
            lemma_stopped_updates_stay(restart, context, 1, updates as nat);
            if !again.same_as(sync(data, later)) {
                let applied = lemma_updates_up_to_the_end(data, later, again);
                if applied > 0 {
                    lemma_stopped_updates_stay(restart, context, 1, applied);
                }
            }
        },
    }
}

/// An incremental update of a channel that the graph does not know ends the snapshot, wherever in
/// the updates it stands: those before it stay applied, and the failure says that the channel was
/// not found.
pub proof fn incremental_update_needs_channel(data: Seq<u8>, graph: GraphState, applied: nat)
    requires
        open_snapshot(data, graph) matches Opening::Updates { start, context, count, timestamp }
            && {
            &&& applied < count
            &&& after_updates(start, context, applied) matches Progress::Running {
                rest,
                previous_scid,
                graph: reached,
            }
            &&& parse_update_head(rest, previous_scid) matches Ok(((scid, flags), _))
            &&& flags & 0x80 != 0
            &&& !reached.channels.contains_key(scid)
        },
    ensures
        open_snapshot(data, graph) matches Opening::Updates { start, context, count, timestamp }
            && after_updates(start, context, applied) matches Progress::Running {
            rest,
            previous_scid,
            graph: reached,
        } && sync(data, graph) == (Outcome {
            result: Err(SyncFailure::Graph(unknown_channel())),
            rest: parse_update_head(rest, previous_scid)->Ok_0.1,
            graph: reached,
        }),
{
    if let Opening::Updates { start, context, count, timestamp } = open_snapshot(data, graph) {
        assert(after_updates(start, context, applied + 1) == update_step(
            after_updates(start, context, applied),
            context,
        ));
        lemma_stopped_updates_stay(start, context, applied + 1, count as nat);
    }
}

/// An incremental update of a direction that the graph knows nothing about ends the snapshot,
/// wherever in the updates it stands: those before it stay applied, and the failure says that
/// there is nothing to build on.
pub proof fn incremental_update_needs_direction(data: Seq<u8>, graph: GraphState, applied: nat)
    requires
        open_snapshot(data, graph) matches Opening::Updates { start, context, count, timestamp }
            && {
            &&& applied < count
            &&& after_updates(start, context, applied) matches Progress::Running {
                rest,
                previous_scid,
                graph: reached,
            }
            &&& parse_update_head(rest, previous_scid) matches Ok(((scid, flags), _))
            &&& flags & 0x80 != 0
            &&& reached.channels.contains_key(scid)
            &&& direction(reached, scid, flags) is None
        },
    ensures
        open_snapshot(data, graph) matches Opening::Updates { start, context, count, timestamp }
            && after_updates(start, context, applied) matches Progress::Running {
            rest,
            previous_scid,
            graph: reached,
        } && sync(data, graph) == (Outcome {
            result: Err(SyncFailure::Graph(unknown_direction())),
            rest: parse_update_head(rest, previous_scid)->Ok_0.1,
            graph: reached,
        }),
{
    if let Opening::Updates { start, context, count, timestamp } = open_snapshot(data, graph) {
        assert(after_updates(start, context, applied + 1) == update_step(
            after_updates(start, context, applied),
            context,
        ));
        lemma_stopped_updates_stay(start, context, applied + 1, count as nat);
    }
}

/// The clock has no say in an update that cannot be made out, nor in any after it: the snapshot
/// ends with that failure there, unless the clock stops it at an earlier update. If the first
/// update cannot be made out, it ends in one way only. That is so of an incremental update where
/// the graph has nothing to build on.
pub proof fn clock_comes_after_resolution(
    data: Seq<u8>,
    graph: GraphState,
    outcome: Outcome,
    unclear: nat,
)
    requires
        can_end(data, graph, outcome),
        open_snapshot(data, graph) matches Opening::Updates { start, context, count, timestamp }
            && {
            &&& unclear < count
            &&& after_updates(start, context, unclear) matches Progress::Running {
                rest,
                previous_scid,
                graph: reached,
            }
            &&& next_update(rest, previous_scid, reached, context) is Err
        },
    ensures
        open_snapshot(data, graph) matches Opening::Updates { start, context, count, timestamp }
            && {
            &&& after_updates(start, context, unclear) matches Progress::Running {
                rest,
                previous_scid,
                graph: reached,
            }
            &&& next_update(rest, previous_scid, reached, context) matches Err((failure, left))
            &&& sync(data, graph) == (Outcome {
                result: Err(failure),
                rest: left,
                graph: reached,
            })
            &&& outcome.same_as(sync(data, graph)) || exists|applied: nat|
                applied < unclear && #[trigger] clock_stops_next(
                    after_updates(start, context, applied),
                    context,
                    outcome,
                )
        },
{
    if let Opening::Updates { start, context, count, timestamp } = open_snapshot(data, graph) {
        assert(after_updates(start, context, unclear + 1) == update_step(
            after_updates(start, context, unclear),
            context,
        ));
        lemma_stopped_updates_stay(start, context, unclear + 1, count as nat);
        if !outcome.same_as(sync(data, graph)) {
            let applied = lemma_updates_up_to_the_end(data, graph, outcome);
            if applied > unclear {
                lemma_stopped_updates_stay(start, context, unclear + 1, applied);
            }
        }
    }
}

/// What the graph is handed of an update is for the chain of the snapshot and of its time less a
/// week, for the channel that the update is of, with the flags that the graph knows and without
/// excess data.
pub proof fn handed_over_update_is_of_the_snapshot(
    data: Seq<u8>,
    graph: GraphState,
    s: Seq<u8>,
    previous_scid: u64,
    reached: GraphState,
)
    requires
        open_snapshot(data, graph) matches Opening::Updates { start, context, count, timestamp }
            && next_update(s, previous_scid, reached, context) is Ok,
    ensures
        open_snapshot(data, graph) matches Opening::Updates { start, context, count, timestamp }
            && {
            &&& next_update(s, previous_scid, reached, context) matches Ok((update, _))
            &&& parse_update_head(s, previous_scid) matches Ok(((scid, flags), _))
            &&& update.chain_hash == data.subrange(4, 36)
            &&& update.timestamp == week_before(timestamp)
            &&& update.short_channel_id == scid
            &&& update.flags == flags & 0x03
            &&& update.excess_data == Seq::<u8>::empty()
        },
{
    lemma_opening_advances(data, graph);
    let header = parse_header(data)->Ok_0.0;
    assert(header.chain_hash =~= data.subrange(4, 36)) by {
        assert(parse_bytes(data.skip(4), 32) is Ok);
        assert(data.skip(4).take(32) =~= data.subrange(4, 36));
    }
}

/// A full update is made out in the same way whatever the graph knows.
pub proof fn full_update_builds_on_nothing(
    s: Seq<u8>,
    previous_scid: u64,
    graph: GraphState,
    other: GraphState,
    context: UpdateContext,
)
    requires
        parse_update_head(s, previous_scid) matches Ok(((_, flags), _)) && flags & 0x80 == 0,
    ensures
        next_update(s, previous_scid, graph, context) == next_update(
            s,
            previous_scid,
            other,
            context,
        ),
{
}

/// An update leaves the terms that it does not give as they are: those of the defaults in a full
/// update, those that the graph knows in an incremental one.
pub proof fn terms_not_given_are_kept(
    s: Seq<u8>,
    previous_scid: u64,
    graph: GraphState,
    context: UpdateContext,
)
    requires
        next_update(s, previous_scid, graph, context) is Ok,
    ensures
        parse_update_head(s, previous_scid) matches Ok(((scid, flags), _)) && {
            let policy = next_update(s, previous_scid, graph, context)->Ok_0.0.policy;
            let kept = if flags & 0x80 == 0 {
                context.defaults
            } else {
                direction(graph, scid, flags)->Some_0.policy
            };
            &&& flags & 0x80 != 0 ==> direction(graph, scid, flags) is Some
            &&& flags & 0x40 == 0 ==> policy.cltv_expiry_delta
                == kept.cltv_expiry_delta
            &&& flags & 0x20 == 0 ==> policy.htlc_minimum_msat
                == kept.htlc_minimum_msat
            &&& flags & 0x10 == 0 ==> policy.fee_base_msat == kept.fee_base_msat
            &&& flags & 0x08 == 0 ==> policy.fee_proportional_millionths
                == kept.fee_proportional_millionths
            &&& flags & 0x04 == 0 ==> policy.htlc_maximum_msat
                == kept.htlc_maximum_msat
        },
{
}

/// After an update that was applied the graph knows exactly its terms about the direction, as of
/// the time of the updates, and about every other direction what it did before.
pub proof fn applied_update_is_known(
    s: Seq<u8>,
    previous_scid: u64,
    graph: GraphState,
    context: UpdateContext,
    scid: u64,
    flags: u8,
)
    requires
        update_step(Progress::Running { rest: s, previous_scid, graph }, context) is Running,
    ensures
        ({
            let update = next_update(s, previous_scid, graph, context)->Ok_0.0;
            let after = update_step(
                Progress::Running { rest: s, previous_scid, graph },
                context,
            )->Running_graph;
            direction(after, scid, flags) == if scid == update.short_channel_id && flags & 1
                == update.flags & 1 {
                Some(
                    ChannelUpdateInfo {
                        last_update: context.timestamp,
                        enabled: update.flags & 2 != 2,
                        policy: update.policy,
                    },
                )
            } else {
                direction(graph, scid, flags)
            }
        }),
{
    let update = next_update(s, previous_scid, graph, context)->Ok_0.0;
    let given = update.flags;
    assert(flags & 1 == 0 || flags & 1 == 1) by (bit_vector);
    assert(given & 1 == 0 || given & 1 == 1) by (bit_vector);
}

/// After an announcement that was applied the graph knows the channel, and every other channel as
/// it did before. A channel that it did not know is as announced, with nothing known about its
/// directions; one that it knew is as it was.
pub proof fn applied_announcement_is_known(
    s: Seq<u8>,
    previous_scid: u64,
    graph: GraphState,
    header: Header,
    scid: u64,
)
    requires
        announcement_step(Progress::Running { rest: s, previous_scid, graph }, header) is Running,
    ensures
        ({
            let announced = parse_announcement(s, previous_scid, header.node_ids)->Ok_0.0;
            let after = announcement_step(
                Progress::Running { rest: s, previous_scid, graph },
                header,
            )->Running_graph;
            if scid == announced.short_channel_id && !graph.channels.contains_key(scid) {
                &&& after.channels.contains_key(scid)
                &&& after.channels[scid] == (Channel {
                    features: announced.features,
                    node_one: announced.node_one,
                    node_two: announced.node_two,
                    directions: ChannelDirections { one_to_two: None, two_to_one: None },
                    capacity_sats: None,
                    announcement_received_time: week_before(header.latest_seen_timestamp) as u64,
                })
            } else {
                &&& after.channels.contains_key(scid) == graph.channels.contains_key(scid)
                &&& after.channels[scid] == graph.channels[scid]
            }
        }),
{
}

/// An announcement of a channel between two different nodes is always taken, whether the graph
/// knows the channel or not.
pub proof fn announcement_of_two_nodes_is_taken(
    s: Seq<u8>,
    previous_scid: u64,
    graph: GraphState,
    header: Header,
)
    requires
        parse_announcement(s, previous_scid, header.node_ids) matches Ok((announced, _))
            && announced.node_one != announced.node_two,
    ensures
        announcement_step(
            Progress::Running { rest: s, previous_scid, graph },
            header,
        ) matches Progress::Running { rest, previous_scid: reached, graph: after } && {
            let (announced, left) = parse_announcement(s, previous_scid, header.node_ids)->Ok_0;
            &&& rest == left
            &&& reached == announced.short_channel_id
            &&& after.channels.contains_key(announced.short_channel_id)
        },
{
}

/// An update that can be made out succeeds where the graph knows the channel and nothing newer or
/// equally new about the direction, and the maximum is possible and within the capacity.
pub proof fn newer_update_of_a_known_channel_is_taken(
    s: Seq<u8>,
    previous_scid: u64,
    graph: GraphState,
    context: UpdateContext,
)
    requires
        next_update(s, previous_scid, graph, context) matches Ok((update, _)) && {
            let scid = update.short_channel_id;
            let most = update.policy.htlc_maximum_msat;
            &&& graph.channels.contains_key(scid)
            &&& direction(graph, scid, update.flags) matches Some(known) ==> known.last_update
                < context.timestamp
            &&& most <= 2_100_000_000_000_000_000
            &&& graph.channels[scid].capacity_sats matches Some(sats) ==> most <= sats * 1000
                && sats <= 2_100_000_000_000_000
        },
    ensures
        update_step(
            Progress::Running { rest: s, previous_scid, graph },
            context,
        ) matches Progress::Running { rest, previous_scid: reached, graph: after } && {
            let (update, left) = next_update(s, previous_scid, graph, context)->Ok_0;
            &&& rest == left
            &&& reached == update.short_channel_id
            &&& direction(after, update.short_channel_id, update.flags) == Some(
                ChannelUpdateInfo {
                    last_update: context.timestamp,
                    enabled: update.flags & 2 != 2,
                    policy: update.policy,
                },
            )
        },
{
}

/// The short channel ids of a section never go down.
pub proof fn short_channel_ids_never_go_down(
    s: Seq<u8>,
    previous_scid: u64,
    graph: GraphState,
    header: Header,
    context: UpdateContext,
)
    ensures
        announcement_step(
            Progress::Running { rest: s, previous_scid, graph },
            header,
        ) matches Progress::Running { previous_scid: next, .. } ==> previous_scid <= next,
        update_step(
            Progress::Running { rest: s, previous_scid, graph },
            context,
        ) matches Progress::Running { previous_scid: next, .. } ==> previous_scid <= next,
{
}

} // verus!

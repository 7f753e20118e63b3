//! What holds of every announcement and update that a graph is handed, and of what contracts say
//! of values.

use crate::error::{
    DecodeError, ErrorAction, GraphSyncError, IoErrorKind, LightningError, Refusal, SyncFailure,
};
use crate::graph::{
    answer, Channel, ChannelDirections, ChannelUpdateInfo, GraphState, Node, RoutingFees,
    UnsignedChannelUpdate, UpdateMessage,
};
use crate::processing::{
    are_node_ids, id_bytes, outcome, progressed, ChannelAnnouncement, SnapshotHeader,
};
use crate::snapshot::{announcement_failure, Progress};
use crate::wire::{faults, is_public_key, reads, Parsed};
use vstd::prelude::*;

verus! {

/// Even flags stand for the direction from the first node to the second, odd ones for the other.
/// Replacing what is known about one direction leaves the other as it is.
pub proof fn lowest_flag_gives_the_direction(
    directions: ChannelDirections,
    flags: u8,
    info: ChannelUpdateInfo,
)
    ensures
        directions.directional_info(flags) == if flags % 2 == 0 {
            directions.one_to_two
        } else {
            directions.two_to_one
        },
        ({
            let changed = directions.with_directional_info(flags, info);
            if flags % 2 == 0 {
                changed.one_to_two == Some(info) && changed.two_to_one == directions.two_to_one
            } else {
                changed.two_to_one == Some(info) && changed.one_to_two == directions.one_to_two
            }
        }),
{
    assert(flags & 1 == flags % 2) by (bit_vector);
}

/// A node that the graph may know.
pub open spec fn known_node(graph: GraphState, node: Seq<u8>) -> Node {
    if graph.nodes.contains_key(node) {
        graph.nodes[node]
    } else {
        Node { channels: Seq::empty(), lowest_inbound_channel_fees: None }
    }
}

/// A channel is taken exactly where it is between two different nodes and not known. Then the graph
/// has it as announced, lists it last with both nodes, and is otherwise as it was; if it is not
/// taken, all is as it was.
pub proof fn announcing_adds_the_channel(
    graph: GraphState,
    scid: u64,
    time: u64,
    features: Seq<u8>,
    one: Seq<u8>,
    two: Seq<u8>,
    other: u64,
    node: Seq<u8>,
)
    ensures
        ({
            let (answered, after) = graph.announce(scid, time, features, one, two);
            if one == two {
                &&& answered == Err::<(), Refusal>(
                    Refusal {
                        err: "Channel announcement node had a channel with itself"@,
                        action: ErrorAction::IgnoreError,
                    },
                )
                &&& after == graph
            } else if graph.channels.contains_key(scid) {
                &&& answered == Err::<(), Refusal>(
                    Refusal {
                        err: "Already have knowledge of channel"@,
                        action: ErrorAction::IgnoreDuplicateGossip,
                    },
                )
                &&& after == graph
            } else {
                &&& answered == Ok::<(), Refusal>(())
                &&& after.channels.contains_key(scid)
                &&& after.channels[scid].features == features
                &&& after.channels[scid].node_one == one
                &&& after.channels[scid].node_two == two
                &&& after.channels[scid].directions.one_to_two is None
                &&& after.channels[scid].directions.two_to_one is None
                &&& after.channels[scid].capacity_sats is None
                &&& after.channels[scid].announcement_received_time == time
                &&& other != scid ==> after.channels.contains_key(other)
                    == graph.channels.contains_key(other) && after.channels[other]
                    == graph.channels[other]
                &&& after.nodes.contains_key(node) == (graph.nodes.contains_key(node) || node == one
                    || node == two)
                &&& node == one || node == two ==> after.nodes[node].channels == known_node(
                    graph,
                    node,
                ).channels.push(scid) && after.nodes[node].lowest_inbound_channel_fees
                    == known_node(graph, node).lowest_inbound_channel_fees
                &&& node != one && node != two ==> after.nodes[node] == graph.nodes[node]
                &&& after.last_sync == graph.last_sync
                &&& after.genesis_hash == graph.genesis_hash
            }
        }),
{
}

/// Whether the graph can take an update that is not refused for its age: it knows the channel, the
/// maximum is no more than there can be and than the channel holds, and what it knows about the
/// direction is older.
pub open spec fn is_acceptable(graph: GraphState, update: UpdateMessage) -> bool {
    let channel = graph.channels[update.short_channel_id];
    let known = if update.flags % 2 == 0 {
        channel.directions.one_to_two
    } else {
        channel.directions.two_to_one
    };
    &&& graph.channels.contains_key(update.short_channel_id)
    &&& update.policy.htlc_maximum_msat <= 2_100_000_000_000_000_000
    &&& channel.capacity_sats matches Some(sats) ==> sats <= 2_100_000_000_000_000
        && update.policy.htlc_maximum_msat <= sats * 1000
    &&& known matches Some(info) ==> info.last_update < update.timestamp
}

/// An update is taken exactly where it is acceptable. Then the graph has just its terms for the
/// direction, as of its time, and is otherwise as it was, but for the lowest fees towards the node
/// that the direction leads to; if it is not taken, all is as it was.
pub proof fn updating_replaces_the_direction(
    graph: GraphState,
    update: UpdateMessage,
    other: u64,
    node: Seq<u8>,
)
    ensures
        ({
            let (answered, after) = graph.update(update);
            let scid = update.short_channel_id;
            let channel = graph.channels[scid];
            let target = if update.flags % 2 == 0 {
                channel.node_two
            } else {
                channel.node_one
            };
            let info = ChannelUpdateInfo {
                last_update: update.timestamp,
                enabled: (update.flags / 2) % 2 == 0,
                policy: update.policy,
            };
            &&& answered is Ok <==> is_acceptable(graph, update)
            &&& !graph.channels.contains_key(scid) ==> answered == Err::<(), Refusal>(
                Refusal {
                    err: "Couldn't find channel for update"@,
                    action: ErrorAction::IgnoreError,
                },
            )
            &&& answered is Err ==> after == graph
            &&& answered is Ok ==> {
                &&& after.channels.contains_key(scid)
                &&& after.channels[scid] == (Channel {
                    directions: if update.flags % 2 == 0 {
                        ChannelDirections { one_to_two: Some(info), ..channel.directions }
                    } else {
                        ChannelDirections { two_to_one: Some(info), ..channel.directions }
                    },
                    ..channel
                })
                &&& other != scid ==> after.channels.contains_key(other)
                    == graph.channels.contains_key(other) && after.channels[other]
                    == graph.channels[other]
                &&& node != target ==> after.nodes.contains_key(node) == graph.nodes.contains_key(
                    node,
                ) && after.nodes[node] == graph.nodes[node]
                &&& after.nodes[target].channels == graph.nodes[target].channels
                &&& info.enabled ==> (after.nodes[target].lowest_inbound_channel_fees matches Some(
                    lowest,
                ) && match graph.nodes[target].lowest_inbound_channel_fees {
                    Some(known) => is_lower_of(
                        lowest,
                        known,
                        update.policy.fees(),
                    ),
                    None => lowest == update.policy.fees(),
                })
                &&& !info.enabled ==> after.nodes[target].lowest_inbound_channel_fees == if (
                if update.flags % 2 == 0 {
                    channel.directions.one_to_two
                } else {
                    channel.directions.two_to_one
                }) matches Some(known) && known.enabled {
                    GraphState::lowest_inbound_fees(
                        after.channels,
                        target,
                        graph.nodes[target].channels,
                    )
                } else {
                    graph.nodes[target].lowest_inbound_channel_fees
                }
                &&& after.last_sync == graph.last_sync
                &&& after.genesis_hash == graph.genesis_hash
            }
        }),
{
    let flags = update.flags;
    assert(flags & 1 == flags % 2) by (bit_vector);
    assert((flags & 2 != 2) == ((flags / 2) % 2 == 0)) by (bit_vector);
}

/// Whether each of the fees is the lower one of two.
pub open spec fn is_lower_of(lowest: RoutingFees, one: RoutingFees, two: RoutingFees) -> bool {
    &&& lowest.base_msat <= one.base_msat && lowest.base_msat <= two.base_msat
    &&& lowest.base_msat == one.base_msat || lowest.base_msat == two.base_msat
    &&& lowest.proportional_millionths <= one.proportional_millionths
        && lowest.proportional_millionths <= two.proportional_millionths
    &&& lowest.proportional_millionths == one.proportional_millionths
        || lowest.proportional_millionths == two.proportional_millionths
}

/// The fees on the direction of a channel towards `node`, where it is known and enabled.
pub open spec fn inbound_fees(channel: Channel, node: Seq<u8>) -> Option<RoutingFees> {
    match if channel.node_one == node {
        channel.directions.two_to_one
    } else {
        channel.directions.one_to_two
    } {
        Some(info) => if info.enabled {
            Some(
                RoutingFees {
                    base_msat: info.policy.fee_base_msat,
                    proportional_millionths: info.policy.fee_proportional_millionths,
                },
            )
        } else {
            None
        },
        None => None,
    }
}

/// The lowest fees towards a node are no higher than those of any of its channels, and each of the
/// two is that of one of them; there are none exactly where no direction towards it is enabled.
pub proof fn lowest_fees_are_the_lowest(
    channels: Map<u64, Channel>,
    node: Seq<u8>,
    scids: Seq<u64>,
    i: int,
)
    ensures
        match GraphState::lowest_inbound_fees(channels, node, scids) {
            Some(lowest) => {
                &&& 0 <= i < scids.len() ==> (inbound_fees(channels[scids[i]], node) matches Some(
                    fees,
                ) ==> lowest.base_msat <= fees.base_msat && lowest.proportional_millionths
                    <= fees.proportional_millionths)
                &&& exists|j: int|
                    0 <= j < scids.len() && (#[trigger] inbound_fees(
                        channels[scids[j]],
                        node,
                    ) matches Some(fees) && fees.base_msat == lowest.base_msat)
                &&& exists|j: int|
                    0 <= j < scids.len() && (#[trigger] inbound_fees(
                        channels[scids[j]],
                        node,
                    ) matches Some(fees) && fees.proportional_millionths
                        == lowest.proportional_millionths)
            },
            None => 0 <= i < scids.len() ==> inbound_fees(channels[scids[i]], node) is None,
        },
    decreases scids.len(),
{
    if scids.len() > 0 {
        let shorter = scids.drop_last();
        let last = scids.len() - 1;
        lowest_fees_are_the_lowest(channels, node, shorter, i);
        assert(inbound_fees(channels[scids[last]], node) == inbound_fees(
            channels[scids.last()],
            node,
        ));
        if let Some(known) = GraphState::lowest_inbound_fees(channels, node, shorter) {
            let base = choose|j: int|
                0 <= j < shorter.len() && (#[trigger] inbound_fees(
                    channels[shorter[j]],
                    node,
                ) matches Some(fees) && fees.base_msat == known.base_msat);
            let proportional = choose|j: int|
                0 <= j < shorter.len() && (#[trigger] inbound_fees(
                    channels[shorter[j]],
                    node,
                ) matches Some(fees) && fees.proportional_millionths
                    == known.proportional_millionths);
            assert(inbound_fees(channels[scids[base]], node) is Some);
            assert(inbound_fees(channels[scids[proportional]], node) is Some);
        }
    }
}

/// An answer to an announcement is passed over exactly where the graph has taken it or knows the
/// channel already. Any other is the failure of the snapshot.
pub proof fn only_known_channels_are_passed_over(answered: Result<(), Refusal>)
    ensures
        announcement_failure(answered) is None <==> (answered is Ok || (answered matches Err(
            refused,
        ) && refused.action == ErrorAction::IgnoreDuplicateGossip)),
        announcement_failure(answered) matches Some(failure) ==> (answered matches Err(refused)
            && failure == SyncFailure::Graph(refused)),
{
}

/// What a reader returns is what the bytes stand for, value or error, and it leaves what follows;
/// only where the data ends too early is it open what is left.
pub proof fn readers_give_what_is_read<T>(
    parsed: Parsed<T>,
    r: Result<T, DecodeError>,
    rest: Seq<u8>,
)
    ensures
        parsed matches Ok((value, left)) ==> (reads(parsed, r, rest) <==> r == Ok::<
            T,
            DecodeError,
        >(value) && rest == left),
        parsed matches Err(fault) ==> (reads(parsed, r, rest) <==> r == Err::<T, DecodeError>(
            fault.error,
        ) && (rest == fault.rest || fault.error == DecodeError::ShortRead || fault.error
            == DecodeError::Io(IoErrorKind::UnexpectedEof))),
        r matches Err(e) ==> (faults(parsed, e, rest) <==> reads(parsed, r, rest)),
{
}

/// What contracts say of a synchronisation is what it returned, what it left and the graph.
pub proof fn outcome_is_what_came_back(
    r: Result<u32, GraphSyncError>,
    rest: Seq<u8>,
    graph: GraphState,
)
    ensures
        outcome(r, rest, graph).rest == rest,
        outcome(r, rest, graph).graph == graph,
        match r {
            Ok(timestamp) => outcome(r, rest, graph).result == Ok::<u32, SyncFailure>(timestamp),
            Err(GraphSyncError::DecodeError(error)) => outcome(r, rest, graph).result == Err::<
                u32,
                SyncFailure,
            >(SyncFailure::Decode(error)),
            Err(GraphSyncError::LightningError(error)) => outcome(r, rest, graph).result == Err::<
                u32,
                SyncFailure,
            >(SyncFailure::Graph(Refusal { err: error.err@, action: error.action })),
        },
{
}

/// A section succeeds exactly where it has not stopped, and otherwise fails with what stopped it.
pub proof fn sections_return_how_they_went(
    progress: Progress,
    r: Result<(), GraphSyncError>,
    rest: Seq<u8>,
    graph: GraphState,
)
    requires
        progressed(progress, r, rest, graph),
    ensures
        match progress {
            Progress::Running { rest: left, previous_scid, graph: after } => r is Ok && rest == left
                && graph == after,
            Progress::Stopped { failure, rest: left, graph: after } => {
                &&& r matches Err(e) && e@ == failure
                &&& graph == after
                &&& rest == left || failure == SyncFailure::Decode(DecodeError::ShortRead)
                    || failure == SyncFailure::Decode(
                    DecodeError::Io(IoErrorKind::UnexpectedEof),
                )
            },
        },
{
}

/// What contracts say of a header, an announcement, an update and an answer is what they hold.
pub proof fn views_show_what_values_hold(
    header: SnapshotHeader,
    announced: ChannelAnnouncement,
    update: UnsignedChannelUpdate,
    answered: Result<(), LightningError>,
    i: int,
)
    ensures
        header@.chain_hash == header.chain_hash@,
        header@.latest_seen_timestamp == header.latest_seen_timestamp,
        header@.node_ids.len() == header.node_ids@.len(),
        0 <= i < header.node_ids@.len() ==> header@.node_ids[i] == header.node_ids@[i]@,
        id_bytes(header.node_ids@) == header@.node_ids,
        are_node_ids(header@.node_ids) && 0 <= i < header.node_ids@.len()
            ==> header@.node_ids[i].len() == 33 && is_public_key(header@.node_ids[i]),
        announced@.features == announced.features@,
        announced@.short_channel_id == announced.short_channel_id,
        announced@.node_one == announced.node_one@,
        announced@.node_two == announced.node_two@,
        update@.chain_hash == update.chain_hash@,
        update@.short_channel_id == update.short_channel_id,
        update@.timestamp == update.timestamp,
        update@.flags == update.flags,
        update@.policy == update.policy,
        update@.excess_data == update.excess_data@,
        answered is Ok <==> answer(answered) is Ok,
        answered matches Err(e) ==> answer(answered) == Err::<(), Refusal>(
            Refusal { err: e.err@, action: e.action },
        ),
{
}

} // verus!

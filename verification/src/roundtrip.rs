//! Whole snapshots: what was written is applied, and what is applied had been written.

use crate::encoding::{
    announcement_fits, announcement_written, changes_are_read_as_written, changes_written,
    defaults_are_read_as_written, header_is_read_as_written, header_stands_in_its_places,
    header_written, keeps_the_rest, lemma_limits, lemma_number_stands_at, lemma_policy_stands_at,
    node_ids_fit, number_at, number_written, numbers_are_read_as_written, policy_written,
    read_announcement_was_written, update_head_is_read_as_written, update_head_written,
    written_announcement_is_read, ListedAnnouncement,
};
use crate::error::{DecodeError, ErrorAction, GraphSyncError, IoErrorKind, Refusal, SyncFailure};
use crate::graph::{ChannelPolicy, GraphState, UpdateMessage};
use crate::processing::{completes_the_sync, outcome};
use crate::snapshot::{
    after_announcements, after_updates, announcement_step, base_policy, can_end, clock_stops,
    lemma_stopped_announcements_stay, lemma_stopped_updates_stay, lemma_updates_up_to_the_end,
    next_update, open_body, open_snapshot, open_updates, parse_announcement, parse_changes,
    parse_defaults, parse_header, parse_update_head, sync, update_context, update_step, Header,
    Opening, Outcome, Progress, UpdateContext,
};
use crate::wire::parse_u32;
use vstd::prelude::*;

verus! {

/// An update as it stands in a snapshot, with the terms that it leads to.
pub struct ListedUpdate {
    pub short_channel_id: u64,
    pub flags: u8,
    pub policy: ChannelPolicy,
}

/// A snapshot.
pub struct Snapshot {
    pub header: Header,
    pub announcements: Seq<ListedAnnouncement>,
    pub defaults: ChannelPolicy,
    pub updates: Seq<ListedUpdate>,
}

/// The channel of the last of some announcements, which the next one is written from.
pub open spec fn last_announced(items: Seq<ListedAnnouncement>) -> u64 {
    if items.len() == 0 {
        0
    } else {
        items.last().short_channel_id
    }
}

/// Announcements, one after the other.
pub open spec fn announcements_written(items: Seq<ListedAnnouncement>) -> Seq<u8>
    decreases items.len(),
{
    if items.len() == 0 {
        Seq::empty()
    } else {
        announcements_written(items.drop_last()) + announcement_written(
            items.last(),
            last_announced(items.drop_last()),
        )
    }
}

/// Whether announcements can be written so: their channels do not go down, and the list has the
/// places that they give.
pub open spec fn announcements_fit(items: Seq<ListedAnnouncement>, ids: Seq<Seq<u8>>) -> bool
    decreases items.len(),
{
    items.len() == 0 || {
        &&& announcements_fit(items.drop_last(), ids)
        &&& announcement_fits(items.last(), last_announced(items.drop_last()))
        &&& items.last().one < ids.len()
        &&& items.last().two < ids.len()
    }
}

/// The graph after it has taken all of the announcements, if it takes them all: it takes those
/// between two different nodes.
pub open spec fn announcements_taken(
    graph: GraphState,
    items: Seq<ListedAnnouncement>,
    ids: Seq<Seq<u8>>,
    time: u64,
) -> Option<GraphState>
    decreases items.len(),
{
    if items.len() == 0 {
        Some(graph)
    } else {
        let item = items.last();
        let (one, two) = (ids[item.one as int], ids[item.two as int]);
        match announcements_taken(graph, items.drop_last(), ids, time) {
            Some(before) => if one == two {
                None
            } else {
                Some(before.announce(item.short_channel_id, time, item.features, one, two).1)
            },
            None => None,
        }
    }
}

/// The channel of the last of some updates, which the next one is written from.
pub open spec fn last_updated(items: Seq<ListedUpdate>) -> u64 {
    if items.len() == 0 {
        0
    } else {
        items.last().short_channel_id
    }
}

/// An update that follows one of the channel `previous_scid`.
pub open spec fn update_written(item: ListedUpdate, previous_scid: u64) -> Seq<u8> {
    update_head_written(item.short_channel_id, item.flags, previous_scid) + changes_written(
        item.policy,
        item.flags,
    )
}

/// Updates, one after the other.
pub open spec fn updates_written(items: Seq<ListedUpdate>) -> Seq<u8>
    decreases items.len(),
{
    if items.len() == 0 {
        Seq::empty()
    } else {
        updates_written(items.drop_last()) + update_written(
            items.last(),
            last_updated(items.drop_last()),
        )
    }
}

/// Whether updates can be written so: their channels do not go down.
pub open spec fn updates_fit(items: Seq<ListedUpdate>) -> bool
    decreases items.len(),
{
    items.len() == 0 || {
        &&& updates_fit(items.drop_last())
        &&& last_updated(items.drop_last()) <= items.last().short_channel_id
    }
}

/// The terms that the graph knows for the direction of a channel that the lowest bit of `flags`
/// stands for.
pub open spec fn known_terms(
    graph: GraphState,
    short_channel_id: u64,
    flags: u8,
) -> Option<ChannelPolicy> {
    if graph.channels.contains_key(short_channel_id) {
        let directions = graph.channels[short_channel_id].directions;
        match if flags & 1 == 0 {
            directions.one_to_two
        } else {
            directions.two_to_one
        } {
            Some(known) => Some(known.policy),
            None => None,
        }
    } else {
        None
    }
}

/// Whether an update leads to the terms that it is listed with: what it does not give it has from
/// the defaults, or if it is incremental from the graph.
pub open spec fn update_is_based(
    graph: GraphState,
    item: ListedUpdate,
    defaults: ChannelPolicy,
) -> bool {
    if item.flags & 0x80 == 0 {
        keeps_the_rest(item.policy, defaults, item.flags)
    } else {
        known_terms(graph, item.short_channel_id, item.flags) matches Some(known)
            && keeps_the_rest(item.policy, known, item.flags)
    }
}

/// What the graph is handed of an update.
pub open spec fn message(item: ListedUpdate, chain_hash: Seq<u8>, time: u32) -> UpdateMessage {
    UpdateMessage {
        chain_hash,
        short_channel_id: item.short_channel_id,
        timestamp: time,
        flags: item.flags & 0x03,
        policy: item.policy,
        excess_data: Seq::empty(),
    }
}

/// The graph after it has taken all of the updates, if it takes them all and each leads to the
/// terms that it is listed with.
pub open spec fn updates_taken(
    graph: GraphState,
    items: Seq<ListedUpdate>,
    defaults: ChannelPolicy,
    chain_hash: Seq<u8>,
    time: u32,
) -> Option<GraphState>
    decreases items.len(),
{
    if items.len() == 0 {
        Some(graph)
    } else {
        match updates_taken(graph, items.drop_last(), defaults, chain_hash, time) {
            Some(before) => {
                let (answered, after) = before.update(message(items.last(), chain_hash, time));
                if update_is_based(before, items.last(), defaults) && answered is Ok {
                    Some(after)
                } else {
                    None
                }
            },
            None => None,
        }
    }
}

/// A week before `timestamp`, or 0.
pub open spec fn week_before(timestamp: u32) -> u32 {
    if timestamp < 604_800 {
        0
    } else {
        (timestamp - 604_800) as u32
    }
}

/// The updates of a snapshot after their number: the defaults, then the updates; nothing where
/// there are none.
pub open spec fn update_section_written(snapshot: Snapshot) -> Seq<u8> {
    if snapshot.updates.len() == 0 {
        Seq::empty()
    } else {
        policy_written(snapshot.defaults) + updates_written(snapshot.updates)
    }
}

/// A snapshot up to the number of its updates.
pub open spec fn front_written(
    header: Header,
    announcements: Seq<ListedAnnouncement>,
    updates: nat,
) -> Seq<u8> {
    header_written(header) + (number_written(announcements.len(), 4) + (announcements_written(
        announcements,
    ) + number_written(updates, 4)))
}

/// A snapshot: the header, the announcements after their number, and the updates after theirs.
pub open spec fn snapshot_written(snapshot: Snapshot) -> Seq<u8> {
    front_written(snapshot.header, snapshot.announcements, snapshot.updates.len())
        + update_section_written(snapshot)
}

/// Whether a header can be written.
pub open spec fn header_fits(header: Header) -> bool {
    &&& header.chain_hash.len() == 32
    &&& header.node_ids.len() < 0x1_0000_0000
    &&& node_ids_fit(header.node_ids)
}

/// Whether a snapshot can be written.
pub open spec fn snapshot_fits(snapshot: Snapshot) -> bool {
    &&& header_fits(snapshot.header)
    &&& snapshot.announcements.len() < 0x1_0000_0000
    &&& announcements_fit(snapshot.announcements, snapshot.header.node_ids)
    &&& snapshot.updates.len() < 0x1_0000_0000
    &&& updates_fit(snapshot.updates)
}

/// The graph after it has taken all of a snapshot, if it takes it all. It remembers a snapshot that
/// has updates.
pub open spec fn snapshot_taken(graph: GraphState, snapshot: Snapshot) -> Option<GraphState> {
    let header = snapshot.header;
    let time = week_before(header.latest_seen_timestamp);
    match announcements_taken(graph, snapshot.announcements, header.node_ids, time as u64) {
        Some(announced) => if snapshot.updates.len() == 0 {
            Some(announced)
        } else {
            match updates_taken(
                announced,
                snapshot.updates,
                snapshot.defaults,
                header.chain_hash,
                time,
            ) {
                Some(updated) => Some(
                    GraphState { last_sync: Some(header.latest_seen_timestamp), ..updated },
                ),
                None => None,
            }
        },
        None => None,
    }
}

proof fn lemma_regroup(a: Seq<u8>, b: Seq<u8>, c: Seq<u8>)
    ensures
        a + b + c == a + (b + c),
{
    assert(a + b + c =~= a + (b + c));
}

/// Announcements that were written are taken, all of them and in their order.
pub proof fn written_announcements_are_taken(
    items: Seq<ListedAnnouncement>,
    graph: GraphState,
    header: Header,
    rest: Seq<u8>,
)
    requires
        announcements_fit(items, header.node_ids),
        announcements_taken(
            graph,
            items,
            header.node_ids,
            week_before(header.latest_seen_timestamp) as u64,
        ) is Some,
    ensures
        after_announcements(
            Progress::Running {
                rest: announcements_written(items) + rest,
                previous_scid: 0,
                graph,
            },
            header,
            items.len(),
        ) == (Progress::Running {
            rest,
            previous_scid: last_announced(items),
            graph: announcements_taken(
                graph,
                items,
                header.node_ids,
                week_before(header.latest_seen_timestamp) as u64,
            )->Some_0,
        }),
    decreases items.len(),
{
    if items.len() == 0 {
        assert(announcements_written(items) + rest =~= rest);
    } else {
        let before = items.drop_last();
        let previous_scid = last_announced(before);
        let last = announcement_written(items.last(), previous_scid);
        written_announcements_are_taken(before, graph, header, last + rest);
        lemma_regroup(announcements_written(before), last, rest);
        written_announcement_is_read(items.last(), previous_scid, header.node_ids, rest);
    }
}

/// Announcements that were applied had been written, all of them and in their order.
#[verifier::rlimit(60)]
pub proof fn applied_announcements_were_written(
    s: Seq<u8>,
    graph: GraphState,
    header: Header,
    count: nat,
) -> (items: Seq<ListedAnnouncement>)
    requires
        after_announcements(
            Progress::Running { rest: s, previous_scid: 0, graph },
            header,
            count,
        ) is Running,
    ensures
        items.len() == count,
        announcements_fit(items, header.node_ids),
        after_announcements(
            Progress::Running { rest: s, previous_scid: 0, graph },
            header,
            count,
        ) matches Progress::Running { rest, previous_scid, graph: after } && {
            &&& s == announcements_written(items) + rest
            &&& previous_scid == last_announced(items)
            &&& announcements_taken(
                graph,
                items,
                header.node_ids,
                week_before(header.latest_seen_timestamp) as u64,
            ) == Some(after)
        },
    decreases count,
{
    let start = Progress::Running { rest: s, previous_scid: 0, graph };
    if count == 0 {
        let items = Seq::<ListedAnnouncement>::empty();
        assert(announcements_written(items) + s =~= s);
        items
    } else {
        let before = applied_announcements_were_written(s, graph, header, (count - 1) as nat);
        let step = after_announcements(start, header, (count - 1) as nat);
        let tail = step->Running_rest;
        let previous_scid = last_announced(before);
        let item = read_announcement_was_written(tail, previous_scid, header.node_ids);
        let items = before.push(item);
        assert(items.drop_last() =~= before);
        let rest = after_announcements(start, header, count)->Running_rest;
        lemma_regroup(
            announcements_written(before),
            announcement_written(item, previous_scid),
            rest,
        );
        items
    }
}

/// The time that updates have in common is a week before that of the header.
proof fn lemma_context(header: Header, defaults: ChannelPolicy)
    ensures
        update_context(header, defaults) == (UpdateContext {
            chain_hash: header.chain_hash,
            timestamp: week_before(header.latest_seen_timestamp),
            defaults,
        }),
{
}

/// An update that was written, and leads to the terms that it is listed with, is handed to the
/// graph with these terms.
pub proof fn written_update_is_handed_over(
    item: ListedUpdate,
    previous_scid: u64,
    graph: GraphState,
    context: UpdateContext,
    rest: Seq<u8>,
)
    requires
        previous_scid <= item.short_channel_id,
        update_is_based(graph, item, context.defaults),
    ensures
        next_update(update_written(item, previous_scid) + rest, previous_scid, graph, context)
            == Ok::<(UpdateMessage, Seq<u8>), (SyncFailure, Seq<u8>)>(
            (message(item, context.chain_hash, context.timestamp), rest),
        ),
{
    let head = update_head_written(item.short_channel_id, item.flags, previous_scid);
    let changes = changes_written(item.policy, item.flags);
    let flags = item.flags;
    lemma_regroup(head, changes, rest);
    update_head_is_read_as_written(
        head + (changes + rest),
        previous_scid,
        item.short_channel_id,
        flags,
        changes + rest,
    );
    let base = if flags & 0x80 == 0 {
        context.defaults
    } else {
        known_terms(graph, item.short_channel_id, flags)->Some_0
    };
    assert(base_policy(graph, context.defaults, item.short_channel_id, flags) == Ok::<
        ChannelPolicy,
        Refusal,
    >(base));
    changes_are_read_as_written(changes + rest, flags, base, item.policy, rest);
}

/// An update that is handed to the graph was written, and leads to the terms that it is handed
/// over with.
pub proof fn handed_over_update_was_written(
    s: Seq<u8>,
    previous_scid: u64,
    graph: GraphState,
    context: UpdateContext,
) -> (item: ListedUpdate)
    requires
        next_update(s, previous_scid, graph, context) is Ok,
    ensures
        previous_scid <= item.short_channel_id,
        update_is_based(graph, item, context.defaults),
        next_update(s, previous_scid, graph, context) matches Ok((handed, rest)) && {
            &&& s == update_written(item, previous_scid) + rest
            &&& handed == message(item, context.chain_hash, context.timestamp)
        },
{
    let ((short_channel_id, flags), tail) = parse_update_head(s, previous_scid)->Ok_0;
    update_head_is_read_as_written(s, previous_scid, short_channel_id, flags, tail);
    let base = base_policy(graph, context.defaults, short_channel_id, flags)->Ok_0;
    let (policy, rest) = parse_changes(tail, flags, base)->Ok_0;
    changes_are_read_as_written(tail, flags, base, policy, rest);
    let item = ListedUpdate { short_channel_id, flags, policy };
    lemma_regroup(
        update_head_written(short_channel_id, flags, previous_scid),
        changes_written(policy, flags),
        rest,
    );
    item
}

/// Updates that were written are taken, all of them and in their order.
pub proof fn written_updates_are_taken(
    items: Seq<ListedUpdate>,
    graph: GraphState,
    context: UpdateContext,
    rest: Seq<u8>,
)
    requires
        updates_fit(items),
        updates_taken(
            graph,
            items,
            context.defaults,
            context.chain_hash,
            context.timestamp,
        ) is Some,
    ensures
        after_updates(
            Progress::Running { rest: updates_written(items) + rest, previous_scid: 0, graph },
            context,
            items.len(),
        ) == (Progress::Running {
            rest,
            previous_scid: last_updated(items),
            graph: updates_taken(
                graph,
                items,
                context.defaults,
                context.chain_hash,
                context.timestamp,
            )->Some_0,
        }),
    decreases items.len(),
{
    if items.len() == 0 {
        assert(updates_written(items) + rest =~= rest);
    } else {
        let before = items.drop_last();
        let previous_scid = last_updated(before);
        let last = update_written(items.last(), previous_scid);
        written_updates_are_taken(before, graph, context, last + rest);
        lemma_regroup(updates_written(before), last, rest);
        let reached = updates_taken(
            graph,
            before,
            context.defaults,
            context.chain_hash,
            context.timestamp,
        )->Some_0;
        written_update_is_handed_over(items.last(), previous_scid, reached, context, rest);
    }
}

/// Updates that were applied had been written, all of them and in their order.
#[verifier::rlimit(60)]
pub proof fn applied_updates_were_written(
    s: Seq<u8>,
    graph: GraphState,
    context: UpdateContext,
    count: nat,
) -> (items: Seq<ListedUpdate>)
    requires
        after_updates(
            Progress::Running { rest: s, previous_scid: 0, graph },
            context,
            count,
        ) is Running,
    ensures
        items.len() == count,
        updates_fit(items),
        after_updates(
            Progress::Running { rest: s, previous_scid: 0, graph },
            context,
            count,
        ) matches Progress::Running { rest, previous_scid, graph: after } && {
            &&& s == updates_written(items) + rest
            &&& previous_scid == last_updated(items)
            &&& updates_taken(
                graph,
                items,
                context.defaults,
                context.chain_hash,
                context.timestamp,
            ) == Some(after)
        },
    decreases count,
{
    let start = Progress::Running { rest: s, previous_scid: 0, graph };
    if count == 0 {
        let items = Seq::<ListedUpdate>::empty();
        assert(updates_written(items) + s =~= s);
        items
    } else {
        let before = applied_updates_were_written(s, graph, context, (count - 1) as nat);
        let step = after_updates(start, context, (count - 1) as nat);
        let tail = step->Running_rest;
        let previous_scid = last_updated(before);
        let item = handed_over_update_was_written(
            tail,
            previous_scid,
            step->Running_graph,
            context,
        );
        let items = before.push(item);
        assert(items.drop_last() =~= before);
        let rest = after_updates(start, context, count)->Running_rest;
        lemma_regroup(updates_written(before), update_written(item, previous_scid), rest);
        items
    }
}

proof fn lemma_regroup_front(
    header: Header,
    announcements: Seq<ListedAnnouncement>,
    updates: nat,
    rest: Seq<u8>,
)
    ensures
        front_written(header, announcements, updates) + rest == header_written(header) + (
        number_written(announcements.len(), 4) + (announcements_written(announcements) + (
        number_written(updates, 4) + rest))),
{
    let count = number_written(announcements.len(), 4);
    let items = announcements_written(announcements);
    let updates = number_written(updates, 4);
    lemma_regroup(items, updates, rest);
    lemma_regroup(count, items + updates, rest);
    lemma_regroup(header_written(header), count + (items + updates), rest);
}

/// The announcements of a snapshot that was written are taken, as many as their number says. Then,
/// where the number of updates is 0, the snapshot has ended; otherwise the defaults follow, and as
/// many updates as their number says.
#[verifier::rlimit(60)]
pub proof fn written_front_is_opened(
    header: Header,
    announcements: Seq<ListedAnnouncement>,
    updates: u32,
    defaults: ChannelPolicy,
    rest: Seq<u8>,
    graph: GraphState,
)
    requires
        header_fits(header),
        announcements.len() < 0x1_0000_0000,
        announcements_fit(announcements, header.node_ids),
        announcements_taken(
            graph,
            announcements,
            header.node_ids,
            week_before(header.latest_seen_timestamp) as u64,
        ) is Some,
    ensures
        ({
            let front = front_written(header, announcements, updates as nat);
            let announced = announcements_taken(
                graph,
                announcements,
                header.node_ids,
                week_before(header.latest_seen_timestamp) as u64,
            )->Some_0;
            if updates == 0 {
                open_snapshot(front + rest, graph) == Opening::Ended(
                    Outcome {
                        result: Ok(header.latest_seen_timestamp),
                        rest,
                        graph: announced,
                    },
                )
            } else {
                open_snapshot(front + (policy_written(defaults) + rest), graph) == (
                Opening::Updates {
                    start: Progress::Running { rest, previous_scid: 0, graph: announced },
                    context: UpdateContext {
                        chain_hash: header.chain_hash,
                        timestamp: week_before(header.latest_seen_timestamp),
                        defaults,
                    },
                    count: updates,
                    timestamp: header.latest_seen_timestamp,
                })
            }
        }),
{
    let left = if updates == 0 {
        rest
    } else {
        policy_written(defaults) + rest
    };
    let data = front_written(header, announcements, updates as nat) + left;
    lemma_regroup_front(header, announcements, updates as nat, left);
    let s3 = number_written(updates as nat, 4) + left;
    let s2 = announcements_written(announcements) + s3;
    let s1 = number_written(announcements.len(), 4) + s2;
    header_is_read_as_written(data, header, s1);
    numbers_are_read_as_written(s1, 0, 0, announcements.len() as u32, 0, s2);
    written_announcements_are_taken(announcements, graph, header, s3);
    numbers_are_read_as_written(s3, 0, 0, updates, 0, left);
    defaults_are_read_as_written(left, defaults, rest);
    lemma_context(header, defaults);
    let announced = after_announcements(
        Progress::Running { rest: s2, previous_scid: 0, graph },
        header,
        announcements.len(),
    )->Running_graph;
    assert(open_snapshot(data, graph) == open_body(s1, graph, header));
    assert(open_body(s1, graph, header) == open_updates(s3, announced, header));
}

/// A snapshot that is opened had been written up to its updates: it has the announcements that
/// their number says and that were taken, and as many updates as their number says.
#[verifier::rlimit(60)]
pub proof fn opened_front_was_written(data: Seq<u8>, graph: GraphState) -> (items: Seq<
    ListedAnnouncement,
>)
    requires
        open_snapshot(data, graph) matches Opening::Ended(outcome) ==> outcome.result is Ok,
    ensures
        parse_header(data) matches Ok((header, _)) && {
            let taken = announcements_taken(
                graph,
                items,
                header.node_ids,
                week_before(header.latest_seen_timestamp) as u64,
            );
            &&& header_fits(header)
            &&& items.len() < 0x1_0000_0000
            &&& announcements_fit(items, header.node_ids)
            &&& match open_snapshot(data, graph) {
                Opening::Ended(outcome) => {
                    &&& data == front_written(header, items, 0) + outcome.rest
                    &&& outcome.result == Ok::<u32, SyncFailure>(header.latest_seen_timestamp)
                    &&& taken == Some(outcome.graph)
                },
                Opening::Updates { start, context, count, timestamp } => {
                    &&& start matches Progress::Running { rest, previous_scid, graph: announced }
                    &&& data == front_written(header, items, count as nat) + (policy_written(
                        context.defaults,
                    ) + rest)
                    &&& count > 0
                    &&& timestamp == header.latest_seen_timestamp
                    &&& context.chain_hash == header.chain_hash
                    &&& context.timestamp == week_before(header.latest_seen_timestamp)
                    &&& previous_scid == 0
                    &&& taken == Some(announced)
                },
            }
        },
{
    let (header, s1) = parse_header(data)->Ok_0;
    header_is_read_as_written(data, header, s1);
    let (announcements, s2) = parse_u32(s1)->Ok_0;
    numbers_are_read_as_written(s1, 0, 0, announcements, 0, s2);
    let items = applied_announcements_were_written(s2, graph, header, announcements as nat);
    let s3 = after_announcements(
        Progress::Running { rest: s2, previous_scid: 0, graph },
        header,
        announcements as nat,
    )->Running_rest;
    let (updates, left) = parse_u32(s3)->Ok_0;
    numbers_are_read_as_written(s3, 0, 0, updates, 0, left);
    lemma_regroup_front(header, items, updates as nat, left);
    if let Ok((defaults, rest)) = parse_defaults(left) {
        defaults_are_read_as_written(left, defaults, rest);
        lemma_context(header, defaults);
    }
    items
}

/// A snapshot that was written, and that the graph takes, is applied whole: all of its
/// announcements, then all of its updates, each once and in its order. Its timestamp is returned,
/// and what follows it is left. Only the clock can keep it from that.
#[verifier::rlimit(60)]
pub proof fn written_snapshot_is_applied(
    snapshot: Snapshot,
    rest: Seq<u8>,
    graph: GraphState,
    outcome: Outcome,
)
    requires
        snapshot_fits(snapshot),
        snapshot_taken(graph, snapshot) is Some,
        can_end(snapshot_written(snapshot) + rest, graph, outcome),
    ensures
        ({
            let applied = Outcome {
                result: Ok(snapshot.header.latest_seen_timestamp),
                rest,
                graph: snapshot_taken(graph, snapshot)->Some_0,
            };
            &&& sync(snapshot_written(snapshot) + rest, graph) == applied
            &&& outcome == applied || is_refused_for_its_age(outcome)
        }),
        open_snapshot(snapshot_written(snapshot) + rest, graph) is Updates
            <==> snapshot.updates.len() > 0,
{
    let header = snapshot.header;
    let front = front_written(header, snapshot.announcements, snapshot.updates.len());
    let updates = updates_written(snapshot.updates);
    lemma_regroup(front, update_section_written(snapshot), rest);
    written_front_is_opened(
        header,
        snapshot.announcements,
        snapshot.updates.len() as u32,
        snapshot.defaults,
        if snapshot.updates.len() == 0 {
            rest
        } else {
            updates + rest
        },
        graph,
    );
    if snapshot.updates.len() == 0 {
        assert(update_section_written(snapshot) + rest =~= rest);
    } else {
        lemma_regroup(policy_written(snapshot.defaults), updates, rest);
        let data = snapshot_written(snapshot) + rest;
        if let Opening::Updates { start, context, count, timestamp } = open_snapshot(data, graph) {
            written_updates_are_taken(snapshot.updates, start->Running_graph, context, rest);
        }
    }
}

/// Whether a snapshot ended because the graph refused an update for its age.
pub open spec fn is_refused_for_its_age(outcome: Outcome) -> bool {
    outcome.result matches Err(SyncFailure::Graph(refused)) && (refused == (Refusal {
        err: "channel_update is older than two weeks old"@,
        action: ErrorAction::IgnoreAndLog(0),
    }) || refused == (Refusal {
        err: "channel_update has a timestamp more than a day in the future"@,
        action: ErrorAction::IgnoreAndLog(0),
    }))
}

/// A snapshot that is applied whole had been written, and the graph is what taking it makes of it:
/// whatever data a timestamp is returned for is that of a snapshot, with something after it.
#[verifier::rlimit(60)]
pub proof fn applied_snapshot_was_written(
    data: Seq<u8>,
    graph: GraphState,
    outcome: Outcome,
) -> (snapshot: Snapshot)
    requires
        can_end(data, graph, outcome),
        outcome.result is Ok,
    ensures
        snapshot_fits(snapshot),
        data == snapshot_written(snapshot) + outcome.rest,
        outcome.result == Ok::<u32, SyncFailure>(snapshot.header.latest_seen_timestamp),
        snapshot_taken(graph, snapshot) == Some(outcome.graph),
        open_snapshot(data, graph) is Updates <==> snapshot.updates.len() > 0,
{
    assert(outcome == sync(data, graph));
    let announcements = opened_front_was_written(data, graph);
    let header = parse_header(data)->Ok_0.0;
    match open_snapshot(data, graph) {
        Opening::Ended(ended) => {
            let updates = Seq::<ListedUpdate>::empty();
            let snapshot = Snapshot { header, announcements, defaults: arbitrary(), updates };
            assert(snapshot_written(snapshot) =~= front_written(header, announcements, 0));
            snapshot
        },
        Opening::Updates { start, context, count, timestamp } => {
            let updates = applied_updates_were_written(
                start->Running_rest,
                start->Running_graph,
                context,
                count as nat,
            );
            let snapshot = Snapshot { header, announcements, defaults: context.defaults, updates };
            let front = front_written(header, announcements, count as nat);
            let defaults = policy_written(context.defaults);
            lemma_regroup(defaults, updates_written(updates), outcome.rest);
            lemma_regroup(front, defaults + updates_written(updates), outcome.rest);
            snapshot
        },
    }
}

/// A snapshot whose announcements come to a stop ends there.
proof fn lemma_stopped_announcement_ends(
    header: Header,
    count: u32,
    items: Seq<ListedAnnouncement>,
    s: Seq<u8>,
    graph: GraphState,
)
    requires
        header_fits(header),
        items.len() < count,
        announcements_fit(items, header.node_ids),
        announcements_taken(
            graph,
            items,
            header.node_ids,
            week_before(header.latest_seen_timestamp) as u64,
        ) is Some,
        announcement_step(
            Progress::Running {
                rest: s,
                previous_scid: last_announced(items),
                graph: announcements_taken(
                    graph,
                    items,
                    header.node_ids,
                    week_before(header.latest_seen_timestamp) as u64,
                )->Some_0,
            },
            header,
        ) is Stopped,
    ensures
        announcement_step(
            Progress::Running {
                rest: s,
                previous_scid: last_announced(items),
                graph: announcements_taken(
                    graph,
                    items,
                    header.node_ids,
                    week_before(header.latest_seen_timestamp) as u64,
                )->Some_0,
            },
            header,
        ) matches Progress::Stopped { failure, rest, graph: reached } && sync(
            header_written(header) + (number_written(count as nat, 4) + (announcements_written(
                items,
            ) + s)),
            graph,
        ) == (Outcome { result: Err(failure), rest, graph: reached }),
{
    let s2 = announcements_written(items) + s;
    let s1 = number_written(count as nat, 4) + s2;
    let start = Progress::Running { rest: s2, previous_scid: 0, graph };
    header_is_read_as_written(header_written(header) + s1, header, s1);
    numbers_are_read_as_written(s1, 0, 0, count, 0, s2);
    written_announcements_are_taken(items, graph, header, s);
    assert(after_announcements(start, header, items.len() + 1) == announcement_step(
        after_announcements(start, header, items.len()),
        header,
    ));
    lemma_stopped_announcements_stay(start, header, items.len() + 1, count as nat);
}

/// The announcement of a channel of a node with itself ends the snapshot, wherever among the
/// announcements it stands: those before it stay applied, and what follows it is left.
pub proof fn channel_with_itself_ends_the_snapshot(
    header: Header,
    count: u32,
    items: Seq<ListedAnnouncement>,
    item: ListedAnnouncement,
    rest: Seq<u8>,
    graph: GraphState,
)
    requires
        header_fits(header),
        items.len() < count,
        announcements_fit(items.push(item), header.node_ids),
        header.node_ids[item.one as int] == header.node_ids[item.two as int],
        announcements_taken(
            graph,
            items,
            header.node_ids,
            week_before(header.latest_seen_timestamp) as u64,
        ) is Some,
    ensures
        sync(
            header_written(header) + (number_written(count as nat, 4) + (announcements_written(
                items,
            ) + (announcement_written(item, last_announced(items)) + rest))),
            graph,
        ) == (Outcome {
            result: Err(
                SyncFailure::Graph(
                    Refusal {
                        err: "Channel announcement node had a channel with itself"@,
                        action: ErrorAction::IgnoreError,
                    },
                ),
            ),
            rest,
            graph: announcements_taken(
                graph,
                items,
                header.node_ids,
                week_before(header.latest_seen_timestamp) as u64,
            )->Some_0,
        }),
{
    assert(items.push(item).drop_last() =~= items);
    assert(items.push(item).last() == item);
    written_announcement_is_read(item, last_announced(items), header.node_ids, rest);
    lemma_stopped_announcement_ends(
        header,
        count,
        items,
        announcement_written(item, last_announced(items)) + rest,
        graph,
    );
}

/// An announcement that cannot be read ends the snapshot, wherever among the announcements it
/// stands: those before it stay applied.
pub proof fn unreadable_announcement_ends_the_snapshot(
    header: Header,
    count: u32,
    items: Seq<ListedAnnouncement>,
    s: Seq<u8>,
    graph: GraphState,
)
    requires
        header_fits(header),
        items.len() < count,
        announcements_fit(items, header.node_ids),
        parse_announcement(s, last_announced(items), header.node_ids) is Err,
        announcements_taken(
            graph,
            items,
            header.node_ids,
            week_before(header.latest_seen_timestamp) as u64,
        ) is Some,
    ensures
        parse_announcement(s, last_announced(items), header.node_ids) matches Err(fault) && sync(
            header_written(header) + (number_written(count as nat, 4) + (announcements_written(
                items,
            ) + s)),
            graph,
        ) == (Outcome {
            result: Err(SyncFailure::Decode(fault.error)),
            rest: fault.rest,
            graph: announcements_taken(
                graph,
                items,
                header.node_ids,
                week_before(header.latest_seen_timestamp) as u64,
            )->Some_0,
        }),
{
    lemma_stopped_announcement_ends(header, count, items, s, graph);
}

/// The graph after it has taken all of the announcements of a snapshot and the given updates, if
/// it takes them all.
pub open spec fn taken_so_far(graph: GraphState, snapshot: Snapshot) -> Option<GraphState> {
    let header = snapshot.header;
    let time = week_before(header.latest_seen_timestamp);
    match announcements_taken(graph, snapshot.announcements, header.node_ids, time as u64) {
        Some(announced) => updates_taken(
            announced,
            snapshot.updates,
            snapshot.defaults,
            header.chain_hash,
            time,
        ),
        None => None,
    }
}

/// A snapshot that has more updates than those given, which are written and followed by `s`.
pub open spec fn updates_so_far_written(snapshot: Snapshot, count: u32, s: Seq<u8>) -> Seq<u8> {
    front_written(snapshot.header, snapshot.announcements, count as nat) + (policy_written(
        snapshot.defaults,
    ) + (updates_written(snapshot.updates) + s))
}

/// What the updates of a snapshot have in common.
pub open spec fn context_of(snapshot: Snapshot) -> UpdateContext {
    UpdateContext {
        chain_hash: snapshot.header.chain_hash,
        timestamp: week_before(snapshot.header.latest_seen_timestamp),
        defaults: snapshot.defaults,
    }
}

/// A snapshot whose updates come to a stop ends there.
proof fn lemma_stopped_update_ends(snapshot: Snapshot, count: u32, s: Seq<u8>, graph: GraphState)
    requires
        snapshot_fits(snapshot),
        snapshot.updates.len() < count,
        taken_so_far(graph, snapshot) is Some,
        update_step(
            Progress::Running {
                rest: s,
                previous_scid: last_updated(snapshot.updates),
                graph: taken_so_far(graph, snapshot)->Some_0,
            },
            context_of(snapshot),
        ) is Stopped,
    ensures
        update_step(
            Progress::Running {
                rest: s,
                previous_scid: last_updated(snapshot.updates),
                graph: taken_so_far(graph, snapshot)->Some_0,
            },
            context_of(snapshot),
        ) matches Progress::Stopped { failure, rest, graph: reached } && sync(
            updates_so_far_written(snapshot, count, s),
            graph,
        ) == (Outcome { result: Err(failure), rest, graph: reached }),
{
    let items = snapshot.updates;
    written_front_is_opened(
        snapshot.header,
        snapshot.announcements,
        count,
        snapshot.defaults,
        updates_written(items) + s,
        graph,
    );
    let data = updates_so_far_written(snapshot, count, s);
    if let Opening::Updates { start, context, count: number, timestamp } = open_snapshot(
        data,
        graph,
    ) {
        written_updates_are_taken(items, start->Running_graph, context, s);
        assert(after_updates(start, context, items.len() + 1) == update_step(
            after_updates(start, context, items.len()),
            context,
        ));
        lemma_stopped_updates_stay(start, context, items.len() + 1, count as nat);
    }
}

/// An update that the graph refuses ends the snapshot with that refusal, wherever among the updates
/// it stands: those before it stay applied, and what follows it is left.
pub proof fn refused_update_ends_the_snapshot(
    snapshot: Snapshot,
    count: u32,
    item: ListedUpdate,
    rest: Seq<u8>,
    graph: GraphState,
)
    requires
        snapshot_fits(snapshot),
        snapshot.updates.len() < count,
        last_updated(snapshot.updates) <= item.short_channel_id,
        taken_so_far(graph, snapshot) matches Some(reached) && update_is_based(
            reached,
            item,
            snapshot.defaults,
        ) && reached.update(
            message(
                item,
                snapshot.header.chain_hash,
                week_before(snapshot.header.latest_seen_timestamp),
            ),
        ).0 is Err,
    ensures
        taken_so_far(graph, snapshot) matches Some(reached) && reached.update(
            message(
                item,
                snapshot.header.chain_hash,
                week_before(snapshot.header.latest_seen_timestamp),
            ),
        ).0 matches Err(refused) && sync(
            updates_so_far_written(
                snapshot,
                count,
                update_written(item, last_updated(snapshot.updates)) + rest,
            ),
            graph,
        ) == (Outcome { result: Err(SyncFailure::Graph(refused)), rest, graph: reached }),
{
    let previous_scid = last_updated(snapshot.updates);
    let reached = taken_so_far(graph, snapshot)->Some_0;
    written_update_is_handed_over(item, previous_scid, reached, context_of(snapshot), rest);
    lemma_stopped_update_ends(snapshot, count, update_written(item, previous_scid) + rest, graph);
}

/// An incremental update of a direction that the graph has no terms for ends the snapshot, wherever
/// among the updates it stands, before what it gives is read: the updates before it stay applied.
/// The failure says whether the channel or the direction was not found.
pub proof fn baseless_update_ends_the_snapshot(
    snapshot: Snapshot,
    count: u32,
    short_channel_id: u64,
    flags: u8,
    rest: Seq<u8>,
    graph: GraphState,
)
    requires
        snapshot_fits(snapshot),
        snapshot.updates.len() < count,
        last_updated(snapshot.updates) <= short_channel_id,
        flags & 0x80 != 0,
        taken_so_far(graph, snapshot) matches Some(reached) && known_terms(
            reached,
            short_channel_id,
            flags,
        ) is None,
    ensures
        taken_so_far(graph, snapshot) matches Some(reached) && sync(
            updates_so_far_written(
                snapshot,
                count,
                update_head_written(short_channel_id, flags, last_updated(snapshot.updates)) + rest,
            ),
            graph,
        ) == (Outcome {
            result: Err(
                SyncFailure::Graph(
                    Refusal {
                        err: if reached.channels.contains_key(short_channel_id) {
                            "Couldn't find previous directional data for update"@
                        } else {
                            "Couldn't find channel for update"@
                        },
                        action: ErrorAction::IgnoreError,
                    },
                ),
            ),
            rest,
            graph: reached,
        }),
{
    let previous_scid = last_updated(snapshot.updates);
    let head = update_head_written(short_channel_id, flags, previous_scid);
    update_head_is_read_as_written(head + rest, previous_scid, short_channel_id, flags, rest);
    lemma_stopped_update_ends(snapshot, count, head + rest, graph);
}

/// An update that cannot be read ends the snapshot, wherever among the updates it stands: those
/// before it stay applied.
pub proof fn unreadable_update_ends_the_snapshot(
    snapshot: Snapshot,
    count: u32,
    s: Seq<u8>,
    graph: GraphState,
)
    requires
        snapshot_fits(snapshot),
        snapshot.updates.len() < count,
        parse_update_head(s, last_updated(snapshot.updates)) is Err,
        taken_so_far(graph, snapshot) is Some,
    ensures
        parse_update_head(s, last_updated(snapshot.updates)) matches Err(fault) && sync(
            updates_so_far_written(snapshot, count, s),
            graph,
        ) == (Outcome {
            result: Err(SyncFailure::Decode(fault.error)),
            rest: fault.rest,
            graph: taken_so_far(graph, snapshot)->Some_0,
        }),
{
    lemma_stopped_update_ends(snapshot, count, s, graph);
}

/// A snapshot that the clock stops had been written up to and with the update that it is stopped
/// at. The updates before that one stay applied, and what follows it is left.
#[verifier::rlimit(60)]
pub proof fn refused_for_its_age_leaves_the_rest_applied(
    data: Seq<u8>,
    graph: GraphState,
    outcome: Outcome,
) -> (r: (Snapshot, u32, ListedUpdate))
    requires
        clock_stops(data, graph, outcome),
    ensures
        is_refused_for_its_age(outcome),
        snapshot_fits(r.0),
        r.0.updates.len() < r.1,
        last_updated(r.0.updates) <= r.2.short_channel_id,
        update_is_based(outcome.graph, r.2, r.0.defaults),
        taken_so_far(graph, r.0) == Some(outcome.graph),
        data == updates_so_far_written(
            r.0,
            r.1,
            update_written(r.2, last_updated(r.0.updates)) + outcome.rest,
        ),
{
    let announcements = opened_front_was_written(data, graph);
    let header = parse_header(data)->Ok_0.0;
    let applied = lemma_updates_up_to_the_end(data, graph, outcome);
    match open_snapshot(data, graph) {
        Opening::Ended(_) => arbitrary(),
        Opening::Updates { start, context, count, timestamp } => {
            let updates = applied_updates_were_written(
                start->Running_rest,
                start->Running_graph,
                context,
                applied,
            );
            let tail = after_updates(start, context, applied)->Running_rest;
            let item = handed_over_update_was_written(
                tail,
                last_updated(updates),
                outcome.graph,
                context,
            );
            (Snapshot { header, announcements, defaults: context.defaults, updates }, count, item)
        },
    }
}

/// The initial synchronisation is complete once a snapshot that has updates is applied whole. One
/// without updates does not complete it, nor does one that fails.
pub proof fn snapshots_with_updates_complete_the_sync(
    snapshot: Snapshot,
    rest: Seq<u8>,
    graph: GraphState,
    r: Result<u32, GraphSyncError>,
    after: GraphState,
)
    requires
        snapshot_fits(snapshot),
        snapshot_taken(graph, snapshot) is Some,
        can_end(snapshot_written(snapshot) + rest, graph, outcome(r, rest, after)),
    ensures
        completes_the_sync(snapshot_written(snapshot) + rest, graph, r) <==> r is Ok
            && snapshot.updates.len() > 0,
        r matches Ok(timestamp) ==> timestamp == snapshot.header.latest_seen_timestamp && after
            == snapshot_taken(graph, snapshot)->Some_0,
{
    written_snapshot_is_applied(snapshot, rest, graph, outcome(r, rest, after));
}

/// The clock is all that leaves a choice: of two ways that the same snapshot can end on the same
/// graph, neither refused for the age of an update, both have the same result and the same graph,
/// and leave the same, unless the data ended too early.
pub proof fn endings_differ_only_by_the_clock(
    data: Seq<u8>,
    graph: GraphState,
    one: Outcome,
    two: Outcome,
)
    requires
        can_end(data, graph, one),
        can_end(data, graph, two),
        !is_refused_for_its_age(one),
        !is_refused_for_its_age(two),
    ensures
        one.result == two.result,
        one.graph == two.graph,
        one.rest == two.rest || (one.result matches Err(SyncFailure::Decode(error)) && (error
            == DecodeError::ShortRead || error == DecodeError::Io(IoErrorKind::UnexpectedEof))),
{
}

/// An update whose terms cannot be read ends the snapshot, wherever among the updates it stands:
/// those before it stay applied.
pub proof fn unreadable_changes_end_the_snapshot(
    snapshot: Snapshot,
    count: u32,
    short_channel_id: u64,
    flags: u8,
    base: ChannelPolicy,
    s: Seq<u8>,
    graph: GraphState,
)
    requires
        snapshot_fits(snapshot),
        snapshot.updates.len() < count,
        last_updated(snapshot.updates) <= short_channel_id,
        taken_so_far(graph, snapshot) matches Some(reached) && base == if flags & 0x80 == 0 {
            snapshot.defaults
        } else {
            known_terms(reached, short_channel_id, flags)->Some_0
        } && (flags & 0x80 == 0 || known_terms(reached, short_channel_id, flags) is Some),
        parse_changes(s, flags, base) is Err,
    ensures
        parse_changes(s, flags, base) matches Err(fault) && sync(
            updates_so_far_written(
                snapshot,
                count,
                update_head_written(short_channel_id, flags, last_updated(snapshot.updates)) + s,
            ),
            graph,
        ) == (Outcome {
            result: Err(SyncFailure::Decode(fault.error)),
            rest: fault.rest,
            graph: taken_so_far(graph, snapshot)->Some_0,
        }),
{
    let previous_scid = last_updated(snapshot.updates);
    let head = update_head_written(short_channel_id, flags, previous_scid);
    let reached = taken_so_far(graph, snapshot)->Some_0;
    update_head_is_read_as_written(head + s, previous_scid, short_channel_id, flags, s);
    assert(base_policy(reached, snapshot.defaults, short_channel_id, flags) == Ok::<
        ChannelPolicy,
        Refusal,
    >(base));
    lemma_stopped_update_ends(snapshot, count, head + s, graph);
}

/// A header that cannot be read ends the snapshot, and the graph stays as it is.
pub proof fn unreadable_header_ends_the_snapshot(data: Seq<u8>, graph: GraphState)
    requires
        parse_header(data) is Err,
    ensures
        parse_header(data) matches Err(fault) && sync(data, graph) == (Outcome {
            result: Err(SyncFailure::Decode(fault.error)),
            rest: fault.rest,
            graph,
        }),
{
}

/// Where the numbers of a snapshot stand: that of the announcements, all of which are applied,
/// behind the header, and that of the updates behind the announcements. There are no updates
/// exactly where that number is 0; otherwise the defaults follow it, in 26 bytes, and then the
/// updates.
#[verifier::rlimit(60)]
#[verifier::spinoff_prover]
pub proof fn numbers_and_defaults_stand_in_their_places(
    data: Seq<u8>,
    graph: GraphState,
) -> (items: Seq<ListedAnnouncement>)
    requires
        open_snapshot(data, graph) matches Opening::Ended(outcome) ==> outcome.result is Ok,
    ensures
        parse_header(data) matches Ok((header, _)) && {
            let first: int = 44 + 33 * (header.node_ids.len() as int);
            let second: int = first + 4 + announcements_written(items).len();
            &&& items.len() == number_at(data, first, 4)
            &&& data.subrange(first + 4, second) == announcements_written(items)
            &&& match open_snapshot(data, graph) {
                Opening::Ended(outcome) => {
                    &&& number_at(data, second, 4) == 0
                    &&& outcome.rest == data.skip(second + 4)
                    &&& announcements_taken(
                        graph,
                        items,
                        header.node_ids,
                        week_before(header.latest_seen_timestamp) as u64,
                    ) == Some(outcome.graph)
                },
                Opening::Updates { start, context, count, timestamp } => {
                    &&& count == number_at(data, second, 4)
                    &&& count > 0
                    &&& context.defaults.cltv_expiry_delta == number_at(data, second + 4, 2)
                    &&& context.defaults.htlc_minimum_msat == number_at(data, second + 6, 8)
                    &&& context.defaults.fee_base_msat == number_at(data, second + 14, 4)
                    &&& context.defaults.fee_proportional_millionths == number_at(
                        data,
                        second + 18,
                        4,
                    )
                    &&& context.defaults.htlc_maximum_msat == number_at(data, second + 22, 8)
                    &&& start == (Progress::Running {
                        rest: data.skip(second + 30),
                        previous_scid: 0,
                        graph: announcements_taken(
                            graph,
                            items,
                            header.node_ids,
                            week_before(header.latest_seen_timestamp) as u64,
                        )->Some_0,
                    })
                },
            }
        },
{
    let items = opened_front_was_written(data, graph);
    let header = parse_header(data)->Ok_0.0;
    match open_snapshot(data, graph) {
        Opening::Ended(outcome) => {
            lemma_front_stands(data, header, items, 0, outcome.rest);
        },
        Opening::Updates { start, context, count, timestamp } => {
            let rest = start->Running_rest;
            let left = policy_written(context.defaults) + rest;
            let second: int = 48 + 33 * (header.node_ids.len() as int) + announcements_written(
                items,
            ).len();
            lemma_front_stands(data, header, items, count as nat, left);
            lemma_policy_stands_at(data, second + 4, context.defaults, rest);
        },
    }
    items
}

proof fn lemma_front_stands(
    data: Seq<u8>,
    header: Header,
    items: Seq<ListedAnnouncement>,
    updates: nat,
    left: Seq<u8>,
)
    requires
        header_fits(header),
        items.len() < 0x1_0000_0000,
        updates < 0x1_0000_0000,
        data == front_written(header, items, updates) + left,
    ensures
        ({
            let first: int = 44 + 33 * (header.node_ids.len() as int);
            let second: int = first + 4 + announcements_written(items).len();
            &&& number_at(data, first, 4) == items.len()
            &&& data.subrange(first + 4, second) == announcements_written(items)
            &&& number_at(data, second, 4) == updates
            &&& second + 4 <= data.len()
            &&& data.skip(second + 4) == left
        }),
{
    let first: int = 44 + 33 * (header.node_ids.len() as int);
    let behind = number_written(items.len(), 4) + (announcements_written(items) + (number_written(
        updates,
        4,
    ) + left));
    lemma_regroup_front(header, items, updates, left);
    lemma_behind_the_header(data, header, behind);
    lemma_numbers_stand(data, first, items.len(), announcements_written(items), updates, left);
}

proof fn lemma_behind_the_header(data: Seq<u8>, header: Header, rest: Seq<u8>)
    requires
        header_fits(header),
        data == header_written(header) + rest,
    ensures
        44 + 33 * header.node_ids.len() <= data.len(),
        data.skip(44 + 33 * (header.node_ids.len() as int)) == rest,
{
    header_is_read_as_written(data, header, rest);
    header_stands_in_its_places(data, 0);
    assert(data.skip(44 + 33 * (header.node_ids.len() as int)) =~= rest);
}

proof fn lemma_numbers_stand(
    data: Seq<u8>,
    first: int,
    count: nat,
    items: Seq<u8>,
    updates: nat,
    left: Seq<u8>,
)
    requires
        0 <= first <= data.len(),
        count < 0x1_0000_0000,
        updates < 0x1_0000_0000,
        data.skip(first) == number_written(count, 4) + (items + (number_written(updates, 4)
            + left)),
    ensures
        number_at(data, first, 4) == count,
        data.subrange(first + 4, first + 4 + items.len()) == items,
        number_at(data, first + 4 + items.len(), 4) == updates,
        data.skip(first + 8 + items.len()) == left,
        first + 8 + items.len() <= data.len(),
{
    lemma_limits();
    let s3 = number_written(updates, 4) + left;
    let s2 = items + s3;
    let second: int = first + 4 + items.len();
    lemma_number_stands_at(data, first, number_written(count, 4) + s2, count, 4, s2);
    assert(data.skip(first + 4).subrange(0, items.len() as int) =~= items);
    assert(data.subrange(first + 4, second) =~= data.skip(first + 4).subrange(
        0,
        items.len() as int,
    ));
    assert(s2.skip(items.len() as int) =~= s3);
    assert(data.skip(second) =~= data.skip(first + 4).skip(items.len() as int));
    lemma_number_stands_at(data, second, s3, updates, 4, left);
}

} // verus!

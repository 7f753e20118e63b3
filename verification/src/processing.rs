//! Applying a snapshot of gossip to a network graph.

use crate::error::{
    DecodeError, ErrorAction, GraphSyncError, IoErrorKind, LightningError, Refusal, SyncFailure,
};
use crate::graph::{
    answer, is_clock_refusal, ChannelDirections, ChannelPolicy, GossipGraph, GraphState,
    UnsignedChannelUpdate, UpdateMessage,
};
use crate::snapshot::{
    after_announcements, after_updates, announcement_failure, backdated, base_policy, can_end,
    clock_stops_next, is_cut_off, lemma_node_ids_are_of_the_version, lemma_node_ids_error_stays,
    lemma_stopped_announcements_stay, lemma_stopped_updates_stay,
    lemma_version_is_that_of_the_prefix, next_update, open_snapshot, parse_announcement,
    parse_changes, parse_defaults, parse_header, parse_node_ids, parse_scid, parse_update_head,
    sync, update_context, Announcement, Header, Outcome, Progress, BACKDATE_SECS, GOSSIP_PREFIX,
    HAS_CLTV_EXPIRY_DELTA, HAS_FEE_BASE_MSAT, HAS_FEE_PROPORTIONAL_MILLIONTHS,
    HAS_HTLC_MAXIMUM_MSAT, HAS_HTLC_MINIMUM_MSAT, INCREMENTAL, STANDARD_FLAGS,
};
use crate::wire::{
    faults, is_public_key, read_big_size, read_bytes, read_features, read_node_id, read_u16,
    read_u32, read_u64, read_u8, reads, Fault, NODE_ID_LEN,
};
use vstd::prelude::*;

verus! {

/// The number of node ids that room is made for before any is read. The data gives their number
/// before the ids, so without a limit a few bytes could ask for any amount of memory.
pub const MAX_INITIAL_NODE_ID_VECTOR_CAPACITY: u32 = 50_000;

/// The start of a snapshot, as it stands in the data.
pub struct SnapshotHeader<'a> {
    pub chain_hash: &'a [u8],
    pub latest_seen_timestamp: u32,
    pub node_ids: Vec<&'a [u8]>,
}

/// The bytes of some node ids.
pub open spec fn id_bytes(ids: Seq<&[u8]>) -> Seq<Seq<u8>> {
    ids.map_values(|id: &[u8]| id@)
}

impl<'a> View for SnapshotHeader<'a> {
    type V = Header;

    open spec fn view(&self) -> Header {
        Header {
            chain_hash: self.chain_hash@,
            latest_seen_timestamp: self.latest_seen_timestamp,
            node_ids: id_bytes(self.node_ids@),
        }
    }
}

/// Whether `ids` are ids of nodes: each of the right length, and a public key.
pub open spec fn are_node_ids(ids: Seq<Seq<u8>>) -> bool {
    forall|i: int|
        0 <= i < ids.len() ==> (#[trigger] ids[i]).len() == NODE_ID_LEN && is_public_key(ids[i])
}

/// The number of node ids that room is made for where the data gives `count` as their number.
pub fn initial_capacity(count: u32) -> (r: usize)
    ensures
        r == if count < MAX_INITIAL_NODE_ID_VECTOR_CAPACITY {
            count as int
        } else {
            MAX_INITIAL_NODE_ID_VECTOR_CAPACITY as int
        },
{
    if count < MAX_INITIAL_NODE_ID_VECTOR_CAPACITY {
        count as usize
    } else {
        MAX_INITIAL_NODE_ID_VECTOR_CAPACITY as usize
    }
}

/// Makes room for `capacity` node ids. More than the limit cannot be asked for.
fn room_for_node_ids<'a>(capacity: usize) -> (r: Vec<&'a [u8]>)
    requires
        capacity <= MAX_INITIAL_NODE_ID_VECTOR_CAPACITY,
    ensures
        r@ == Seq::<&'a [u8]>::empty(),
{
    Vec::with_capacity(capacity)
}

/// Reads `count` node ids.
pub fn read_node_ids<'a>(input: &mut &'a [u8], count: u32) -> (r: Result<
    Vec<&'a [u8]>,
    DecodeError,
>)
    ensures
        match r {
            Ok(ids) => parse_node_ids(old(input)@, count as nat) == Ok::<
                (Seq<Seq<u8>>, Seq<u8>),
                Fault,
            >((id_bytes(ids@), final(input)@)) && are_node_ids(id_bytes(ids@)) && ids@.len()
                == count,
            Err(e) => faults(parse_node_ids(old(input)@, count as nat), e, final(input)@),
        },
{
    let mut ids: Vec<&'a [u8]> = room_for_node_ids(initial_capacity(count));
    let ghost data = input@;
    proof {
        assert(id_bytes(ids@) =~= Seq::empty());
    }
    let mut i: u32 = 0;
    while i < count
        invariant
            i <= count,
            data == old(input)@,
            parse_node_ids(data, i as nat) == Ok::<(Seq<Seq<u8>>, Seq<u8>), Fault>(
                (id_bytes(ids@), input@),
            ),
            are_node_ids(id_bytes(ids@)),
            ids@.len() == i,
        decreases count - i,
    {
        match read_node_id(input) {
            Ok(id) => {
                proof {
                    assert(id_bytes(ids@.push(id)) =~= id_bytes(ids@).push(id@));
                }
                ids.push(id);
            },
            Err(e) => {
                proof {
                    assert(parse_node_ids(data, (i + 1) as nat) is Err);
                    lemma_node_ids_error_stays(data, (i + 1) as nat, count as nat);
                }
                return Err(e);
            },
        }
        i = i + 1;
    }
    Ok(ids)
}

/// Reads the header of a snapshot. Where the data has another prefix, just that is taken.
pub fn read_header<'a>(input: &mut &'a [u8]) -> (r: Result<SnapshotHeader<'a>, DecodeError>)
    ensures
        match r {
            Ok(header) => parse_header(old(input)@) == Ok::<(Header, Seq<u8>), Fault>(
                (header@, final(input)@),
            ) && are_node_ids(header@.node_ids) && header@.chain_hash.len() == 32,
            Err(e) => faults(parse_header(old(input)@), e, final(input)@),
        },
        r matches Err(DecodeError::UnknownVersion) ==> final(input)@ == old(input)@.skip(4),
{
    let prefix: &'a [u8] = match read_bytes(input, 4) {
        Ok(prefix) => prefix,
        Err(_) => return Err(DecodeError::Io(IoErrorKind::UnexpectedEof)),
    };
    if prefix[0] != GOSSIP_PREFIX[0] || prefix[1] != GOSSIP_PREFIX[1] || prefix[2]
        != GOSSIP_PREFIX[2] || prefix[3] != GOSSIP_PREFIX[3] {
        return Err(DecodeError::UnknownVersion);
    }
    proof {
        assert(prefix@ =~= GOSSIP_PREFIX@);
    }
    let chain_hash: &'a [u8] = read_bytes(input, 32)?;
    let latest_seen_timestamp: u32 = read_u32(input)?;
    let node_id_count: u32 = read_u32(input)?;
    proof {
        lemma_node_ids_are_of_the_version(input@, node_id_count as nat);
    }
    let node_ids: Vec<&'a [u8]> = read_node_ids(input, node_id_count)?;
    Ok(SnapshotHeader { chain_hash, latest_seen_timestamp, node_ids })
}

/// Reads a short channel id, given by its distance from the one before.
pub fn read_scid(input: &mut &[u8], previous_scid: u64) -> (r: Result<u64, DecodeError>)
    ensures
        reads(parse_scid(old(input)@, previous_scid), r, final(input)@),
{
    let scid_delta: u64 = read_big_size(input)?;
    match previous_scid.checked_add(scid_delta) {
        Some(short_channel_id) => Ok(short_channel_id),
        None => Err(DecodeError::InvalidValue),
    }
}

/// The announcement of a channel, as it stands in the data.
pub struct ChannelAnnouncement<'a> {
    pub features: Vec<u8>,
    pub short_channel_id: u64,
    pub node_one: &'a [u8],
    pub node_two: &'a [u8],
}

impl<'a> View for ChannelAnnouncement<'a> {
    type V = Announcement;

    open spec fn view(&self) -> Announcement {
        Announcement {
            features: self.features@,
            short_channel_id: self.short_channel_id,
            node_one: self.node_one@,
            node_two: self.node_two@,
        }
    }
}

/// Reads an announcement.
pub fn read_announcement<'a>(
    input: &mut &[u8],
    previous_scid: u64,
    node_ids: &Vec<&'a [u8]>,
) -> (r: Result<ChannelAnnouncement<'a>, DecodeError>)
    ensures
        match r {
            Ok(announced) => parse_announcement(
                old(input)@,
                previous_scid,
                id_bytes(node_ids@),
            ) == Ok::<(Announcement, Seq<u8>), Fault>((announced@, final(input)@)),
            Err(e) => faults(
                parse_announcement(old(input)@, previous_scid, id_bytes(node_ids@)),
                e,
                final(input)@,
            ),
        },
{
    let features: Vec<u8> = read_features(input)?;
    let short_channel_id: u64 = read_scid(input, previous_scid)?;
    let node_id_1_index: u64 = read_big_size(input)?;
    let node_id_2_index: u64 = read_big_size(input)?;
    if node_id_1_index >= node_ids.len() as u64 || node_id_2_index >= node_ids.len() as u64 {
        return Err(DecodeError::InvalidValue);
    }
    let node_one: &'a [u8] = node_ids[node_id_1_index as usize];
    let node_two: &'a [u8] = node_ids[node_id_2_index as usize];
    Ok(ChannelAnnouncement { features, short_channel_id, node_one, node_two })
}

/// What the answer of the graph to an announcement means for the snapshot. A channel that the
/// graph knows already is no failure.
pub fn settle_announcement(answered: Result<(), LightningError>) -> (r: Result<(), GraphSyncError>)
    ensures
        match r {
            Ok(()) => announcement_failure(answer(answered)) is None,
            Err(e) => announcement_failure(answer(answered)) == Some(e@),
        },
{
    match answered {
        Ok(()) => Ok(()),
        Err(lightning_error) => if let ErrorAction::IgnoreDuplicateGossip = lightning_error.action {
            Ok(())
        } else {
            Err(GraphSyncError::LightningError(lightning_error))
        },
    }
}

/// What the answer of the graph to an update means for the snapshot.
pub fn settle_update(answered: Result<(), LightningError>) -> (r: Result<(), GraphSyncError>)
    ensures
        match r {
            Ok(()) => answered is Ok,
            Err(e) => answered matches Err(refused) && e@ == SyncFailure::Graph(refused@),
        },
{
    match answered {
        Ok(()) => Ok(()),
        Err(lightning_error) => Err(GraphSyncError::LightningError(lightning_error)),
    }
}

/// Reads the terms that full updates fall back on.
pub fn read_defaults(input: &mut &[u8]) -> (r: Result<ChannelPolicy, DecodeError>)
    ensures
        reads(parse_defaults(old(input)@), r, final(input)@),
{
    let cltv_expiry_delta: u16 = read_u16(input)?;
    let htlc_minimum_msat: u64 = read_u64(input)?;
    let fee_base_msat: u32 = read_u32(input)?;
    let fee_proportional_millionths: u32 = read_u32(input)?;
    let htlc_maximum_msat: u64 = read_u64(input)?;
    Ok(
        ChannelPolicy {
            cltv_expiry_delta,
            htlc_minimum_msat,
            htlc_maximum_msat,
            fee_base_msat,
            fee_proportional_millionths,
        },
    )
}

/// Reads the channel and the flags of an update.
pub fn read_update_head(input: &mut &[u8], previous_scid: u64) -> (r: Result<
    (u64, u8),
    DecodeError,
>)
    ensures
        reads(parse_update_head(old(input)@, previous_scid), r, final(input)@),
{
    let short_channel_id: u64 = read_scid(input, previous_scid)?;
    let channel_flags: u8 = read_u8(input)?;
    Ok((short_channel_id, channel_flags))
}

/// Reads what an update changes in the terms that it starts from.
pub fn read_changes(input: &mut &[u8], channel_flags: u8, base: ChannelPolicy) -> (r: Result<
    ChannelPolicy,
    DecodeError,
>)
    ensures
        reads(parse_changes(old(input)@, channel_flags, base), r, final(input)@),
{
    let mut policy: ChannelPolicy = base;
    if channel_flags & HAS_CLTV_EXPIRY_DELTA > 0 {
        policy.cltv_expiry_delta = read_u16(input)?;
    }
    if channel_flags & HAS_HTLC_MINIMUM_MSAT > 0 {
        policy.htlc_minimum_msat = read_u64(input)?;
    }
    if channel_flags & HAS_FEE_BASE_MSAT > 0 {
        policy.fee_base_msat = read_u32(input)?;
    }
    if channel_flags & HAS_FEE_PROPORTIONAL_MILLIONTHS > 0 {
        policy.fee_proportional_millionths = read_u32(input)?;
    }
    if channel_flags & HAS_HTLC_MAXIMUM_MSAT > 0 {
        policy.htlc_maximum_msat = read_u64(input)?;
    }
    Ok(policy)
}

/// Finds the terms that an update starts from: the defaults, or for an incremental update the
/// terms that the graph knows.
pub fn find_base_policy(
    network_graph: &GossipGraph,
    defaults: ChannelPolicy,
    short_channel_id: u64,
    channel_flags: u8,
) -> (r: Result<ChannelPolicy, LightningError>)
    ensures
        match r {
            Ok(policy) => base_policy(
                network_graph@,
                defaults,
                short_channel_id,
                channel_flags,
            ) == Ok::<ChannelPolicy, Refusal>(policy),
            Err(e) => base_policy(network_graph@, defaults, short_channel_id, channel_flags)
                == Err::<ChannelPolicy, Refusal>(e@),
        },
{
    if channel_flags & INCREMENTAL == 0 {
        return Ok(defaults);
    }
    let channel: ChannelDirections = match network_graph.get_channel(short_channel_id) {
        Some(channel) => channel,
        None => return Err(
            LightningError {
                err: "Couldn't find channel for update".to_owned(),
                action: ErrorAction::IgnoreError,
            },
        ),
    };
    match channel.get_directional_info(channel_flags) {
        Some(directional_info) => Ok(directional_info.policy),
        None => Err(
            LightningError {
                err: "Couldn't find previous directional data for update".to_owned(),
                action: ErrorAction::IgnoreError,
            },
        ),
    }
}

/// Makes the update that the graph is given: for the chain of the header, dated back from its
/// timestamp, with the flags that the graph knows, and no excess data.
pub fn synthetic_update<'a>(
    header: &SnapshotHeader<'a>,
    short_channel_id: u64,
    channel_flags: u8,
    policy: ChannelPolicy,
) -> (r: UnsignedChannelUpdate<'a>)
    ensures
        r@ == (UpdateMessage {
            chain_hash: header@.chain_hash,
            short_channel_id,
            timestamp: backdated(header@.latest_seen_timestamp),
            flags: channel_flags & STANDARD_FLAGS,
            policy,
            excess_data: Seq::empty(),
        }),
{
    UnsignedChannelUpdate {
        chain_hash: header.chain_hash,
        short_channel_id,
        // backdate the applied timestamp by a week
        timestamp: header.latest_seen_timestamp.saturating_sub(BACKDATE_SECS),
        flags: channel_flags & STANDARD_FLAGS,
        policy,
        excess_data: Vec::new(),
    }
}

/// Reads the next update, and makes what the graph is given of it.
pub fn read_update<'a>(
    input: &mut &[u8],
    previous_scid: u64,
    network_graph: &GossipGraph,
    header: &SnapshotHeader<'a>,
    defaults: ChannelPolicy,
) -> (r: Result<UnsignedChannelUpdate<'a>, GraphSyncError>)
    ensures
        ({
            let next = next_update(
                old(input)@,
                previous_scid,
                network_graph@,
                update_context(header@, defaults),
            );
            match r {
                Ok(update) => next == Ok::<(UpdateMessage, Seq<u8>), (SyncFailure, Seq<u8>)>(
                    (update@, final(input)@),
                ),
                Err(e) => next matches Err((failure, rest)) && failure == e@ && (is_cut_off(
                    failure,
                ) || rest == final(input)@),
            }
        }),
{
    let (short_channel_id, channel_flags): (u64, u8) = match read_update_head(
        input,
        previous_scid,
    ) {
        Ok(head) => head,
        Err(e) => return Err(GraphSyncError::DecodeError(e)),
    };
    let base: ChannelPolicy = match find_base_policy(
        network_graph,
        defaults,
        short_channel_id,
        channel_flags,
    ) {
        Ok(base) => base,
        Err(e) => return Err(GraphSyncError::LightningError(e)),
    };
    match read_changes(input, channel_flags, base) {
        Ok(policy) => Ok(synthetic_update(header, short_channel_id, channel_flags, policy)),
        Err(e) => Err(GraphSyncError::DecodeError(e)),
    }
}

/// How a synchronisation ended: `r` is what it returned, `rest` the data that it left, `graph` the
/// graph after it.
pub open spec fn outcome(
    r: Result<u32, GraphSyncError>,
    rest: Seq<u8>,
    graph: GraphState,
) -> Outcome {
    Outcome {
        result: match r {
            Ok(timestamp) => Ok(timestamp),
            Err(e) => Err(e@),
        },
        rest,
        graph,
    }
}

/// How far the items of a section were applied: `r` is what applying them returned, `rest` the
/// data that it left, `graph` the graph after it.
pub open spec fn progressed(
    progress: Progress,
    r: Result<(), GraphSyncError>,
    rest: Seq<u8>,
    graph: GraphState,
) -> bool {
    match r {
        Ok(()) => progress matches Progress::Running { rest: left, previous_scid, graph: after }
            && left == rest && after == graph,
        Err(e) => progress matches Progress::Stopped { failure, rest: left, graph: after }
            && failure == e@ && after == graph && (is_cut_off(failure) || left == rest),
    }
}

/// Whether a synchronisation that returned `r` completes the initial one: whether it has applied a
/// snapshot with updates to the end.
pub open spec fn completes_the_sync(
    data: Seq<u8>,
    graph: GraphState,
    r: Result<u32, GraphSyncError>,
) -> bool {
    r is Ok && open_snapshot(data, graph) is Updates
}

/// Keeps a network graph up to date with snapshots of gossip.
pub struct RapidGossipSync {
    pub network_graph: GossipGraph,
    /// Whether a snapshot with updates has been applied to the end.
    pub is_initial_sync_complete: bool,
}

impl RapidGossipSync {
    /// Whether the channels and the nodes of the graph fit each other.
    pub open spec fn wf(self) -> bool {
        self.network_graph@.consistent()
    }

    /// Starts to keep `network_graph` up to date.
    pub fn new(network_graph: GossipGraph) -> (r: RapidGossipSync)
        requires
            network_graph@.consistent(),
        ensures
            r.wf(),
            r.network_graph == network_graph,
            !r.is_initial_sync_complete,
    {
        RapidGossipSync { network_graph, is_initial_sync_complete: false }
    }

    /// Reads and applies `count` announcements.
    fn apply_announcements(
        &mut self,
        read_cursor: &mut &[u8],
        header: &SnapshotHeader,
        count: u32,
    ) -> (r: Result<(), GraphSyncError>)
        requires
            old(self).wf(),
            are_node_ids(header@.node_ids),
        ensures
            final(self).wf(),
            final(self).is_initial_sync_complete == old(self).is_initial_sync_complete,
            progressed(
                after_announcements(
                    Progress::Running {
                        rest: old(read_cursor)@,
                        previous_scid: 0,
                        graph: old(self).network_graph@,
                    },
                    header@,
                    count as nat,
                ),
                r,
                final(read_cursor)@,
                final(self).network_graph@,
            ),
    {
        let ghost start = Progress::Running {
            rest: read_cursor@,
            previous_scid: 0,
            graph: self.network_graph@,
        };
        let backdated_timestamp: u32 = header.latest_seen_timestamp.saturating_sub(BACKDATE_SECS);
        let mut previous_scid: u64 = 0;
        let mut i: u32 = 0;
        while i < count
            invariant
                i <= count,
                self.wf(),
                self.is_initial_sync_complete == old(self).is_initial_sync_complete,
                are_node_ids(header@.node_ids),
                backdated_timestamp == backdated(header@.latest_seen_timestamp),
                start == (Progress::Running {
                    rest: old(read_cursor)@,
                    previous_scid: 0,
                    graph: old(self).network_graph@,
                }),
                after_announcements(start, header@, i as nat) == (Progress::Running {
                    rest: read_cursor@,
                    previous_scid,
                    graph: self.network_graph@,
                }),
            decreases count - i,
        {
            let ghost before = self.network_graph@;
            let announced: ChannelAnnouncement = match read_announcement(
                read_cursor,
                previous_scid,
                &header.node_ids,
            ) {
                Ok(announced) => announced,
                Err(e) => {
                    proof {
                        assert(after_announcements(start, header@, (i + 1) as nat) is Stopped);
                        lemma_stopped_announcements_stay(
                            start,
                            header@,
                            (i + 1) as nat,
                            count as nat,
                        );
                    }
                    return Err(GraphSyncError::DecodeError(e));
                },
            };
            let short_channel_id: u64 = announced.short_channel_id;
            proof {
                before.lemma_announce_consistent(
                    short_channel_id,
                    backdated_timestamp as u64,
                    announced.features@,
                    announced.node_one@,
                    announced.node_two@,
                );
            }
            let answered: Result<(), LightningError> =
                self.network_graph.add_channel_from_partial_announcement(
                short_channel_id,
                backdated_timestamp as u64,
                announced.features,
                announced.node_one,
                announced.node_two,
            );
            match settle_announcement(answered) {
                Ok(()) => {},
                Err(e) => {
                    proof {
                        assert(after_announcements(start, header@, (i + 1) as nat) is Stopped);
                        lemma_stopped_announcements_stay(
                            start,
                            header@,
                            (i + 1) as nat,
                            count as nat,
                        );
                    }
                    return Err(e);
                },
            }
            previous_scid = short_channel_id;
            i = i + 1;
        }
        Ok(())
    }

    /// Hands an update to the graph. It has to be one for the chain and of the time of the header,
    /// without excess data. The graph can refuse it for its age, and is then left as it is.
    fn apply_update(
        &mut self,
        header: &SnapshotHeader,
        update: UnsignedChannelUpdate,
    ) -> (r: Result<(), GraphSyncError>)
        requires
            old(self).wf(),
            header@.chain_hash.len() == 32,
            update@.chain_hash == header@.chain_hash,
            update@.timestamp == backdated(header@.latest_seen_timestamp),
            update@.excess_data == Seq::<u8>::empty(),
        ensures
            final(self).wf(),
            final(self).is_initial_sync_complete == old(self).is_initial_sync_complete,
            ({
                let (answered, after) = old(self).network_graph@.update(update@);
                ||| {
                    &&& final(self).network_graph@ == after
                    &&& match r {
                        Ok(()) => answered is Ok,
                        Err(e) => answered matches Err(refused) && e@ == SyncFailure::Graph(
                            refused,
                        ),
                    }
                }
                ||| {
                    &&& final(self).network_graph@ == old(self).network_graph@
                    &&& r matches Err(e) && e@ matches SyncFailure::Graph(refused)
                        && is_clock_refusal(refused)
                }
            }),
    {
        proof {
            self.network_graph@.lemma_update_consistent(update@);
        }
        settle_update(self.network_graph.update_channel_unsigned(update))
    }

    /// Reads and applies `count` updates. Either all of what `after_updates` says comes of them, or
    /// the graph refuses one of them for its age.
    fn apply_updates(
        &mut self,
        read_cursor: &mut &[u8],
        header: &SnapshotHeader,
        defaults: ChannelPolicy,
        count: u32,
    ) -> (r: Result<(), GraphSyncError>)
        requires
            old(self).wf(),
            header@.chain_hash.len() == 32,
        ensures
            final(self).wf(),
            final(self).is_initial_sync_complete == old(self).is_initial_sync_complete,
            ({
                let start = Progress::Running {
                    rest: old(read_cursor)@,
                    previous_scid: 0,
                    graph: old(self).network_graph@,
                };
                let context = update_context(header@, defaults);
                ||| progressed(
                    after_updates(start, context, count as nat),
                    r,
                    final(read_cursor)@,
                    final(self).network_graph@,
                )
                ||| r matches Err(e) && exists|applied: nat|
                    applied < count && #[trigger] clock_stops_next(
                        after_updates(start, context, applied),
                        context,
                        (Outcome {
                            result: Err(e@),
                            rest: final(read_cursor)@,
                            graph: final(self).network_graph@,
                        }),
                    )
            }),
    {
        let ghost start = Progress::Running {
            rest: read_cursor@,
            previous_scid: 0,
            graph: self.network_graph@,
        };
        let ghost context = update_context(header@, defaults);
        let mut previous_scid: u64 = 0;
        let mut i: u32 = 0;
        while i < count
            invariant
                i <= count,
                self.wf(),
                self.is_initial_sync_complete == old(self).is_initial_sync_complete,
                header@.chain_hash.len() == 32,
                start == (Progress::Running {
                    rest: old(read_cursor)@,
                    previous_scid: 0,
                    graph: old(self).network_graph@,
                }),
                context == update_context(header@, defaults),
                after_updates(start, context, i as nat) == (Progress::Running {
                    rest: read_cursor@,
                    previous_scid,
                    graph: self.network_graph@,
                }),
            decreases count - i,
        {
            let ghost before = self.network_graph@;
            let update: UnsignedChannelUpdate = match read_update(
                read_cursor,
                previous_scid,
                &self.network_graph,
                header,
                defaults,
            ) {
                Ok(update) => update,
                Err(e) => {
                    proof {
                        assert(after_updates(start, context, (i + 1) as nat) is Stopped);
                        lemma_stopped_updates_stay(start, context, (i + 1) as nat, count as nat);
                    }
                    return Err(e);
                },
            };
            let short_channel_id: u64 = update.short_channel_id;
            let ghost message = update@;
            match self.apply_update(header, update) {
                Ok(()) => {},
                Err(e) => {
                    proof {
                        if before.update(message).0 == Err::<(), Refusal>(e@->Graph_0) {
                            assert(after_updates(start, context, (i + 1) as nat) is Stopped);
                            lemma_stopped_updates_stay(
                                start,
                                context,
                                (i + 1) as nat,
                                count as nat,
                            );
                        } else {
                            assert(clock_stops_next(
                                after_updates(start, context, i as nat),
                                context,
                                Outcome {
                                    result: Err(e@),
                                    rest: read_cursor@,
                                    graph: self.network_graph@,
                                },
                            ));
                        }
                    }
                    return Err(e);
                },
            }
            previous_scid = short_channel_id;
            i = i + 1;
        }
        Ok(())
    }

    /// Applies the snapshot at the front of `read_cursor`, and returns its timestamp: the one to
    /// ask for the next snapshot with. What comes after the snapshot is left in `read_cursor`.
    /// After a failure, `read_cursor` is just behind what was read before the failure showed,
    /// unless the data ended too early; of data with another prefix, just that is taken.
    pub fn update_network_graph_from_byte_stream(&mut self, read_cursor: &mut &[u8]) -> (r: Result<
        u32,
        GraphSyncError,
    >)
        requires
            old(self).wf(),
        ensures
            final(self).wf(),
            can_end(
                old(read_cursor)@,
                old(self).network_graph@,
                outcome(r, final(read_cursor)@, final(self).network_graph@),
            ),
            r matches Err(GraphSyncError::DecodeError(DecodeError::UnknownVersion)) <==> {
                &&& old(read_cursor)@.len() >= 4
                &&& old(read_cursor)@.take(4) != GOSSIP_PREFIX@
            },
            r matches Err(GraphSyncError::DecodeError(DecodeError::UnknownVersion)) ==> {
                &&& final(read_cursor)@ == old(read_cursor)@.skip(4)
                &&& final(self).network_graph == old(self).network_graph
            },
            final(self).is_initial_sync_complete == (old(self).is_initial_sync_complete
                || completes_the_sync(old(read_cursor)@, old(self).network_graph@, r)),
    {
        proof {
            lemma_version_is_that_of_the_prefix(read_cursor@, self.network_graph@);
        }
        let header: SnapshotHeader = match read_header(read_cursor) {
            Ok(header) => header,
            Err(e) => return Err(GraphSyncError::DecodeError(e)),
        };
        let latest_seen_timestamp: u32 = header.latest_seen_timestamp;

        let announcement_count: u32 = match read_u32(read_cursor) {
            Ok(count) => count,
            Err(e) => return Err(GraphSyncError::DecodeError(e)),
        };
        match self.apply_announcements(read_cursor, &header, announcement_count) {
            Ok(()) => {},
            Err(e) => return Err(e),
        }

        let update_count: u32 = match read_u32(read_cursor) {
            Ok(count) => count,
            Err(e) => return Err(GraphSyncError::DecodeError(e)),
        };
        if update_count == 0 {
            return Ok(latest_seen_timestamp);
        }
        // obtain default values for non-incremental updates

        let defaults: ChannelPolicy = match read_defaults(read_cursor) {
            Ok(defaults) => defaults,
            Err(e) => return Err(GraphSyncError::DecodeError(e)),
        };
        match self.apply_updates(read_cursor, &header, defaults, update_count) {
            Ok(()) => {},
            Err(e) => return Err(e),
        }
        self.network_graph.set_last_rapid_gossip_sync_timestamp(latest_seen_timestamp);
        self.is_initial_sync_complete = true;
        Ok(latest_seen_timestamp)
    }

    /// Applies the snapshot that `update_data` starts with, and returns its timestamp: the one to
    /// ask for the next snapshot with.
    pub fn update_network_graph(&mut self, update_data: &[u8]) -> (r: Result<u32, GraphSyncError>)
        requires
            old(self).wf(),
        ensures
            final(self).wf(),
            match r {
                Ok(timestamp) => {
                    let applied = sync(update_data@, old(self).network_graph@);
                    &&& applied.result matches Ok(latest) && latest == timestamp
                    &&& applied.graph == final(self).network_graph@
                },
                Err(e) => exists|rest: Seq<u8>|
                    can_end(
                        update_data@,
                        old(self).network_graph@,
                        #[trigger] outcome(r, rest, final(self).network_graph@),
                    ),
            },
            final(self).is_initial_sync_complete == (old(self).is_initial_sync_complete
                || completes_the_sync(update_data@, old(self).network_graph@, r)),
    {
        let mut read_cursor: &[u8] = update_data;
        self.update_network_graph_from_byte_stream(&mut read_cursor)
    }
}

} // verus!

//! The network graph that gossip is applied to.
//!
//! The graph itself is lightning's `NetworkGraph`. [`GossipGraph`] holds one, and the functions
//! here are the only ones of this library that touch it. Contracts speak of its contents, a
//! [`GraphState`].

use crate::error::{ErrorAction, LightningError, Refusal, LOG_LEVEL_GOSSIP};
use crate::wire::{is_public_key, NODE_ID_LEN};
use bitcoin::secp256k1::PublicKey;
use bitcoin::BlockHash;
use lightning::ln::features::ChannelFeatures;
use lightning::ln::msgs;
use lightning::routing::gossip;
use lightning::routing::gossip::NetworkGraph;
use lightning::util::logger::{Logger, Record};
use std::sync::Arc;
use vstd::prelude::*;

verus! {

/// The number of millisatoshis that can ever exist.
pub const MAX_VALUE_MSAT: u64 = 2_100_000_000_000_000_000;

/// The terms on which a node forwards payments through a channel.
#[derive(Clone, Copy, Debug, PartialEq, Eq, Structural)]
pub struct ChannelPolicy {
    pub cltv_expiry_delta: u16,
    pub htlc_minimum_msat: u64,
    pub htlc_maximum_msat: u64,
    pub fee_base_msat: u32,
    pub fee_proportional_millionths: u32,
}

/// What the graph knows about one direction of a channel.
#[derive(Clone, Copy, Debug, PartialEq, Eq, Structural)]
pub struct ChannelUpdateInfo {
    /// The timestamp of the update that this comes from.
    pub last_update: u32,
    /// Whether payments can currently take this direction.
    pub enabled: bool,
    pub policy: ChannelPolicy,
}

/// What the graph knows about both directions of a channel.
#[derive(Clone, Copy, Debug, PartialEq, Eq, Structural)]
pub struct ChannelDirections {
    pub one_to_two: Option<ChannelUpdateInfo>,
    pub two_to_one: Option<ChannelUpdateInfo>,
}

impl ChannelDirections {
    /// The direction that the lowest bit of `channel_flags` stands for.
    pub open spec fn directional_info(self, channel_flags: u8) -> Option<ChannelUpdateInfo> {
        if channel_flags & 1 == 0 {
            self.one_to_two
        } else {
            self.two_to_one
        }
    }

    /// Both directions, with the one that `channel_flags` stands for replaced.
    pub open spec fn with_directional_info(
        self,
        channel_flags: u8,
        info: ChannelUpdateInfo,
    ) -> ChannelDirections {
        if channel_flags & 1 == 0 {
            ChannelDirections { one_to_two: Some(info), ..self }
        } else {
            ChannelDirections { two_to_one: Some(info), ..self }
        }
    }

    /// What is known about the direction that `channel_flags` stands for.
    pub fn get_directional_info(&self, channel_flags: u8) -> (r: Option<ChannelUpdateInfo>)
        ensures
            r == self.directional_info(channel_flags),
    {
        if channel_flags & 1 == 0 {
            self.one_to_two
        } else {
            self.two_to_one
        }
    }
}

/// What a node charges for forwarding a payment.
#[derive(Clone, Copy, Debug, PartialEq, Eq, Structural)]
pub struct RoutingFees {
    pub base_msat: u32,
    pub proportional_millionths: u32,
}

impl ChannelPolicy {
    /// The fees among the terms.
    pub open spec fn fees(self) -> RoutingFees {
        RoutingFees {
            base_msat: self.fee_base_msat,
            proportional_millionths: self.fee_proportional_millionths,
        }
    }
}

/// A channel update that carries no signature.
#[derive(Debug)]
pub struct UnsignedChannelUpdate<'a> {
    pub chain_hash: &'a [u8],
    pub short_channel_id: u64,
    pub timestamp: u32,
    /// Bit 0 gives the direction, bit 1 is set where the direction is disabled.
    pub flags: u8,
    pub policy: ChannelPolicy,
    pub excess_data: Vec<u8>,
}

/// A channel update that carries no signature, as contracts speak of it.
pub struct UpdateMessage {
    pub chain_hash: Seq<u8>,
    pub short_channel_id: u64,
    pub timestamp: u32,
    pub flags: u8,
    pub policy: ChannelPolicy,
    pub excess_data: Seq<u8>,
}

impl<'a> View for UnsignedChannelUpdate<'a> {
    type V = UpdateMessage;

    open spec fn view(&self) -> UpdateMessage {
        UpdateMessage {
            chain_hash: self.chain_hash@,
            short_channel_id: self.short_channel_id,
            timestamp: self.timestamp,
            flags: self.flags,
            policy: self.policy,
            excess_data: self.excess_data@,
        }
    }
}

/// A channel of the graph.
pub struct Channel {
    /// The feature flags, the byte with the lowest bits first.
    pub features: Seq<u8>,
    pub node_one: Seq<u8>,
    pub node_two: Seq<u8>,
    pub directions: ChannelDirections,
    /// The capacity as seen on the chain, where that was looked up.
    pub capacity_sats: Option<u64>,
    pub announcement_received_time: u64,
}

/// A node of the graph. What it has announced of itself is left out: nothing here depends on it.
pub struct Node {
    /// The short channel ids of its channels, in the order in which they came.
    pub channels: Seq<u64>,
    /// The lowest of each of the fees on enabled directions towards the node, where one is known.
    pub lowest_inbound_channel_fees: Option<RoutingFees>,
}

/// The contents of the graph.
#[verifier::ext_equal]
pub struct GraphState {
    /// The known channels, by their short channel id.
    pub channels: Map<u64, Channel>,
    /// The known nodes, by their id.
    pub nodes: Map<Seq<u8>, Node>,
    /// The timestamp of the last completed synchronisation.
    pub last_sync: Option<u32>,
    /// The hash of the first block of the chain that the channels are on.
    pub genesis_hash: Seq<u8>,
}

/// A network graph. It is lightning's, with any logger.
///
/// Lightning lets a shared graph be changed. The contents that contracts speak of are those while
/// nobody else does: the functions of this library that change a graph hold it exclusively.
#[verifier::external_body]
pub struct GossipGraph {
    pub inner: NetworkGraph<Arc<dyn Logger + Send + Sync>>,
}

/// The channels that the graph holds.
pub uninterp spec fn graph_channels(graph: GossipGraph) -> Map<u64, Channel>;

/// The nodes that the graph holds.
pub uninterp spec fn graph_nodes(graph: GossipGraph) -> Map<Seq<u8>, Node>;

/// The timestamp of the last synchronisation that the graph remembers.
pub uninterp spec fn graph_last_sync(graph: GossipGraph) -> Option<u32>;

/// The hash of the first block that the graph was made with.
pub uninterp spec fn graph_genesis_hash(graph: GossipGraph) -> Seq<u8>;

impl View for GossipGraph {
    type V = GraphState;

    open spec fn view(&self) -> GraphState {
        GraphState {
            channels: graph_channels(*self),
            nodes: graph_nodes(*self),
            last_sync: graph_last_sync(*self),
            genesis_hash: graph_genesis_hash(*self),
        }
    }
}

pub open spec fn refusal(err: &str, action: ErrorAction) -> Refusal {
    Refusal { err: err@, action }
}

impl GraphState {
    /// A graph without channels and nodes.
    pub open spec fn empty(genesis_hash: Seq<u8>) -> GraphState {
        GraphState { channels: Map::empty(), nodes: Map::empty(), last_sync: None, genesis_hash }
    }

    /// Whether channels and nodes fit each other: both ends of every channel are known, and every
    /// channel that a node lists is.
    pub open spec fn consistent(self) -> bool {
        &&& forall|scid: u64| #[trigger]
            self.channels.contains_key(scid) ==> self.nodes.contains_key(
                self.channels[scid].node_one,
            ) && self.nodes.contains_key(self.channels[scid].node_two)
        &&& forall|node: Seq<u8>, i: int|
            self.nodes.contains_key(node) && 0 <= i < self.nodes[node].channels.len()
                ==> self.channels.contains_key(#[trigger] self.nodes[node].channels[i])
    }

    /// The nodes after `node` has got the channel `scid`.
    pub open spec fn nodes_listing(
        nodes: Map<Seq<u8>, Node>,
        node: Seq<u8>,
        scid: u64,
    ) -> Map<Seq<u8>, Node> {
        let known = if nodes.contains_key(node) {
            nodes[node]
        } else {
            Node { channels: Seq::empty(), lowest_inbound_channel_fees: None }
        };
        nodes.insert(node, Node { channels: known.channels.push(scid), ..known })
    }

    /// The lower of each of the fees that are known and those that come.
    pub open spec fn lower_fees(known: Option<RoutingFees>, fees: RoutingFees) -> RoutingFees {
        match known {
            None => fees,
            Some(known) => RoutingFees {
                base_msat: if known.base_msat < fees.base_msat {
                    known.base_msat
                } else {
                    fees.base_msat
                },
                proportional_millionths: if known.proportional_millionths
                    < fees.proportional_millionths {
                    known.proportional_millionths
                } else {
                    fees.proportional_millionths
                },
            },
        }
    }

    /// The lowest of each of the fees on the enabled directions towards `node` of the channels
    /// `scids`.
    pub open spec fn lowest_inbound_fees(
        channels: Map<u64, Channel>,
        node: Seq<u8>,
        scids: Seq<u64>,
    ) -> Option<RoutingFees>
        decreases scids.len(),
    {
        if scids.len() == 0 {
            None
        } else {
            let known = Self::lowest_inbound_fees(channels, node, scids.drop_last());
            let channel = channels[scids.last()];
            let inbound = if channel.node_one == node {
                channel.directions.two_to_one
            } else {
                channel.directions.one_to_two
            };
            match inbound {
                Some(info) => if info.enabled {
                    Some(Self::lower_fees(known, info.policy.fees()))
                } else {
                    known
                },
                None => known,
            }
        }
    }

    /// The nodes after a direction of `channel` was updated: the lowest fees towards the node that
    /// it leads to are lowered where the direction is enabled, and worked out anew where it no
    /// longer is. `channels` are the channels after the update.
    pub open spec fn nodes_updated(
        nodes: Map<Seq<u8>, Node>,
        channels: Map<u64, Channel>,
        channel: Channel,
        flags: u8,
        policy: ChannelPolicy,
    ) -> Map<Seq<u8>, Node> {
        let target = if flags & 1 == 0 {
            channel.node_two
        } else {
            channel.node_one
        };
        let node = nodes[target];
        if flags & 2 != 2 {
            let fees = Self::lower_fees(node.lowest_inbound_channel_fees, policy.fees());
            nodes.insert(target, Node { lowest_inbound_channel_fees: Some(fees), ..node })
        } else if channel.directions.directional_info(flags) matches Some(known) && known.enabled {
            let fees = Self::lowest_inbound_fees(channels, target, node.channels);
            nodes.insert(target, Node { lowest_inbound_channel_fees: fees, ..node })
        } else {
            nodes
        }
    }

    /// What comes of announcing a channel between two nodes: the answer, and the graph after it.
    pub open spec fn announce(
        self,
        scid: u64,
        timestamp: u64,
        features: Seq<u8>,
        node_one: Seq<u8>,
        node_two: Seq<u8>,
    ) -> (Result<(), Refusal>, GraphState) {
        if node_one == node_two {
            (
                Err(
                    refusal(
                        "Channel announcement node had a channel with itself",
                        ErrorAction::IgnoreError,
                    ),
                ),
                self,
            )
        } else if self.channels.contains_key(scid) {
            (
                Err(
                    refusal(
                        "Already have knowledge of channel",
                        ErrorAction::IgnoreDuplicateGossip,
                    ),
                ),
                self,
            )
        } else {
            let channel = Channel {
                features,
                node_one,
                node_two,
                directions: ChannelDirections { one_to_two: None, two_to_one: None },
                capacity_sats: None,
                announcement_received_time: timestamp,
            };
            let nodes = Self::nodes_listing(self.nodes, node_one, scid);
            (
                Ok(()),
                GraphState {
                    channels: self.channels.insert(scid, channel),
                    nodes: Self::nodes_listing(nodes, node_two, scid),
                    ..self
                },
            )
        }
    }

    /// What comes of a channel update that is not refused for its age: the answer, and the graph
    /// after it.
    pub open spec fn update(self, update: UpdateMessage) -> (Result<(), Refusal>, GraphState) {
        let UpdateMessage { short_channel_id: scid, timestamp, flags, policy, .. } = update;
        if !self.channels.contains_key(scid) {
            (Err(unknown_channel()), self)
        } else {
            let channel = self.channels[scid];
            match Self::update_refusal(channel, timestamp, flags, policy) {
                Some(refused) => (Err(refused), self),
                None => {
                    let info = ChannelUpdateInfo {
                        last_update: timestamp,
                        enabled: flags & 2 != 2,
                        policy,
                    };
                    let directions = channel.directions.with_directional_info(flags, info);
                    let channels = self.channels.insert(scid, Channel { directions, ..channel });
                    let nodes = Self::nodes_updated(self.nodes, channels, channel, flags, policy);
                    (Ok(()), GraphState { channels, nodes, ..self })
                },
            }
        }
    }

    /// Why an update of a known channel is refused, if it is.
    pub open spec fn update_refusal(
        channel: Channel,
        timestamp: u32,
        flags: u8,
        policy: ChannelPolicy,
    ) -> Option<Refusal> {
        if policy.htlc_maximum_msat > MAX_VALUE_MSAT {
            Some(
                refusal(
                    "htlc_maximum_msat is larger than maximum possible msats",
                    ErrorAction::IgnoreError,
                ),
            )
        } else if channel.capacity_sats matches Some(sats) && (sats > MAX_VALUE_MSAT / 1000
            || policy.htlc_maximum_msat > sats * 1000) {
            Some(
                refusal(
                    "htlc_maximum_msat is larger than channel capacity or capacity is bogus",
                    ErrorAction::IgnoreError,
                ),
            )
        } else {
            match channel.directions.directional_info(flags) {
                Some(known) => if known.last_update > timestamp {
                    Some(
                        refusal(
                            "Update older than last processed update",
                            ErrorAction::IgnoreAndLog(LOG_LEVEL_GOSSIP),
                        ),
                    )
                } else if known.last_update == timestamp {
                    Some(
                        refusal(
                            "Update had same timestamp as last processed update",
                            ErrorAction::IgnoreDuplicateGossip,
                        ),
                    )
                } else {
                    None
                },
                None => None,
            }
        }
    }
}

impl GraphState {
    /// Announcing a channel keeps channels and nodes fitting each other.
    pub proof fn lemma_announce_consistent(
        self,
        scid: u64,
        timestamp: u64,
        features: Seq<u8>,
        node_one: Seq<u8>,
        node_two: Seq<u8>,
    )
        requires
            self.consistent(),
        ensures
            self.announce(scid, timestamp, features, node_one, node_two).1.consistent(),
    {
        let (answered, after) = self.announce(scid, timestamp, features, node_one, node_two);
        if answered is Ok {
            assert forall|node: Seq<u8>, i: int|
                after.nodes.contains_key(node) && 0 <= i
                    < after.nodes[node].channels.len() implies after.channels.contains_key(
                #[trigger] after.nodes[node].channels[i],
            ) by {
                if self.nodes.contains_key(node) && i < self.nodes[node].channels.len() {
                    assert(self.channels.contains_key(self.nodes[node].channels[i]));
                }
            }
        }
    }

    /// Updating a channel keeps channels and nodes fitting each other.
    pub proof fn lemma_update_consistent(self, update: UpdateMessage)
        requires
            self.consistent(),
        ensures
            self.update(update).1.consistent(),
    {
        let after = self.update(update).1;
        assert forall|node: Seq<u8>, i: int|
            after.nodes.contains_key(node) && 0 <= i
                < after.nodes[node].channels.len() implies after.channels.contains_key(
            #[trigger] after.nodes[node].channels[i],
        ) by {
            assert(self.channels.contains_key(self.nodes[node].channels[i]));
        }
    }
}

/// The refusal of an update of a channel that is not known.
pub open spec fn unknown_channel() -> Refusal {
    refusal("Couldn't find channel for update", ErrorAction::IgnoreError)
}

/// Whether `refused` is a refusal that the graph gives for the age of an update, by the clock of
/// the machine that it runs on.
pub open spec fn is_clock_refusal(refused: Refusal) -> bool {
    ||| refused == refusal(
        "channel_update is older than two weeks old",
        ErrorAction::IgnoreAndLog(LOG_LEVEL_GOSSIP),
    )
    ||| refused == refusal(
        "channel_update has a timestamp more than a day in the future",
        ErrorAction::IgnoreAndLog(LOG_LEVEL_GOSSIP),
    )
}

/// The answer of the graph, as contracts speak of it.
pub open spec fn answer(r: Result<(), LightningError>) -> Result<(), Refusal> {
    match r {
        Ok(()) => Ok(()),
        Err(e) => Err(e@),
    }
}

/// Declares lightning's `Record`, what a logger is given. Nothing is claimed of it.
#[verifier::external_type_specification]
#[verifier::external_body]
pub struct ExRecord<'a>(Record<'a>);

/// A logger that drops everything.
#[derive(Debug)]
pub struct NoLogger;

impl Logger for NoLogger {
    fn log(&self, _record: &Record) {
    }
}

impl GossipGraph {
    /// Makes a graph with lightning's `NetworkGraph::new`, which starts without channels and nodes
    /// and remembers no synchronisation.
    #[verifier::external_body]
    fn new_network_graph(genesis_hash: &[u8; 32]) -> (r: GossipGraph)
        ensures
            graph_channels(r) == GraphState::empty(genesis_hash@).channels,
            graph_nodes(r) == GraphState::empty(genesis_hash@).nodes,
            graph_last_sync(r) == GraphState::empty(genesis_hash@).last_sync,
            graph_genesis_hash(r) == GraphState::empty(genesis_hash@).genesis_hash,
    {
        let hash: BlockHash = bitcoin::hashes::Hash::from_inner(*genesis_hash);
        GossipGraph { inner: NetworkGraph::new(hash, Arc::new(NoLogger)) }
    }

    /// Announces a channel with lightning's `NetworkGraph::add_channel_from_partial_announcement`.
    /// The source refuses a channel of a node with itself, then a channel that it knows, and
    /// otherwise stores the channel and lists it with both nodes. It stores the nodes by the
    /// compressed form of their keys, which are the bytes that the keys were parsed from.
    #[verifier::external_body]
    pub(crate) fn add_channel_from_partial_announcement(
        &mut self,
        short_channel_id: u64,
        timestamp: u64,
        features: Vec<u8>,
        node_id_1: &[u8],
        node_id_2: &[u8],
    ) -> (r: Result<(), LightningError>)
        requires
            node_id_1@.len() == NODE_ID_LEN,
            node_id_2@.len() == NODE_ID_LEN,
            is_public_key(node_id_1@),
            is_public_key(node_id_2@),
        ensures
            ({
                let (answered, after) = old(self)@.announce(
                    short_channel_id,
                    timestamp,
                    features@,
                    node_id_1@,
                    node_id_2@,
                );
                &&& answer(r) == answered
                &&& graph_channels(*final(self)) == after.channels
                &&& graph_nodes(*final(self)) == after.nodes
                &&& graph_last_sync(*final(self)) == after.last_sync
                &&& graph_genesis_hash(*final(self)) == after.genesis_hash
            }),
    {
        let features = ChannelFeatures::from_le_bytes(features);
        let key_1 = PublicKey::from_slice(node_id_1).unwrap();
        let key_2 = PublicKey::from_slice(node_id_2).unwrap();
        self.inner.add_channel_from_partial_announcement(short_channel_id, timestamp, features, key_1, key_2)
            .map_err(|e| LightningError { err: e.err, action: match e.action {
                msgs::ErrorAction::DisconnectPeer { .. } => ErrorAction::DisconnectPeer,
                msgs::ErrorAction::IgnoreError => ErrorAction::IgnoreError,
                msgs::ErrorAction::IgnoreAndLog(level) => ErrorAction::IgnoreAndLog(level as u8),
                msgs::ErrorAction::IgnoreDuplicateGossip => ErrorAction::IgnoreDuplicateGossip,
                msgs::ErrorAction::SendErrorMessage { .. } => ErrorAction::SendErrorMessage,
                msgs::ErrorAction::SendWarningMessage { .. } => ErrorAction::SendWarningMessage,
            } })
    }

    /// Updates one direction of a channel with lightning's `NetworkGraph::update_channel_unsigned`.
    /// The source first refuses an update whose timestamp is too far from the time of the machine,
    /// where it is built to look at that time; then it refuses an unknown channel, a maximum that
    /// cannot be, and an update that is not newer than the last one; otherwise it replaces what it
    /// knows about the direction, and adapts the lowest fees of the node that the direction leads
    /// to. Neither the chain hash nor the excess data has a part in that. The source relies on the
    /// ends of the channel, and the channels that they list, being known, and on a clock that is at
    /// least two weeks past 1970.
    #[verifier::external_body]
    pub(crate) fn update_channel_unsigned(&mut self, update: UnsignedChannelUpdate) -> (r: Result<
        (),
        LightningError,
    >)
        requires
            old(self)@.consistent(),
            update.chain_hash@.len() == 32,
        ensures
            ({
                let (answered, after) = old(self)@.update(update@);
                ||| {
                    &&& answer(r) == answered
                    &&& graph_channels(*final(self)) == after.channels
                    &&& graph_nodes(*final(self)) == after.nodes
                    &&& graph_last_sync(*final(self)) == after.last_sync
                    &&& graph_genesis_hash(*final(self)) == after.genesis_hash
                }
                ||| {
                    &&& answer(r) matches Err(refused) && is_clock_refusal(refused)
                    &&& final(self)@ == old(self)@
                }
            }),
    {
        let UnsignedChannelUpdate { chain_hash, short_channel_id, timestamp, flags, policy, excess_data } = update;
        let ChannelPolicy { cltv_expiry_delta, htlc_minimum_msat, htlc_maximum_msat, fee_base_msat, fee_proportional_millionths } = policy;
        let chain_hash = bitcoin::hashes::Hash::from_slice(chain_hash).unwrap();
        let msg = msgs::UnsignedChannelUpdate { chain_hash, short_channel_id, timestamp, flags, cltv_expiry_delta,
            htlc_minimum_msat, htlc_maximum_msat, fee_base_msat, fee_proportional_millionths, excess_data };
        self.inner.update_channel_unsigned(&msg).map_err(|e| LightningError { err: e.err, action: match e.action {
            msgs::ErrorAction::DisconnectPeer { .. } => ErrorAction::DisconnectPeer,
            msgs::ErrorAction::IgnoreError => ErrorAction::IgnoreError,
            msgs::ErrorAction::IgnoreAndLog(level) => ErrorAction::IgnoreAndLog(level as u8),
            msgs::ErrorAction::IgnoreDuplicateGossip => ErrorAction::IgnoreDuplicateGossip,
            msgs::ErrorAction::SendErrorMessage { .. } => ErrorAction::SendErrorMessage,
            msgs::ErrorAction::SendWarningMessage { .. } => ErrorAction::SendWarningMessage,
        } })
    }

    /// What the graph knows about both directions of a channel, from lightning's
    /// `ReadOnlyNetworkGraph::channels`: nothing is there only where the channel is not known.
    #[verifier::external_body]
    pub(crate) fn get_channel(&self, short_channel_id: u64) -> (r: Option<ChannelDirections>)
        ensures
            r == if graph_channels(*self).contains_key(short_channel_id) {
                Some(graph_channels(*self)[short_channel_id].directions)
            } else {
                None
            },
    {
        let plain = |info: &gossip::ChannelUpdateInfo| ChannelUpdateInfo {
            last_update: info.last_update,
            enabled: info.enabled,
            policy: ChannelPolicy {
                cltv_expiry_delta: info.cltv_expiry_delta,
                htlc_minimum_msat: info.htlc_minimum_msat,
                htlc_maximum_msat: info.htlc_maximum_msat,
                fee_base_msat: info.fees.base_msat,
                fee_proportional_millionths: info.fees.proportional_millionths,
            },
        };
        self.inner.read_only().channels().get(&short_channel_id).map(|channel| ChannelDirections {
            one_to_two: channel.one_to_two.as_ref().map(plain), two_to_one: channel.two_to_one.as_ref().map(plain) })
    }

    /// Remembers the timestamp of a synchronisation with lightning's
    /// `NetworkGraph::set_last_rapid_gossip_sync_timestamp`, which changes nothing else.
    #[verifier::external_body]
    pub(crate) fn set_last_rapid_gossip_sync_timestamp(&mut self, timestamp: u32)
        ensures
            graph_channels(*final(self)) == graph_channels(*old(self)),
            graph_nodes(*final(self)) == graph_nodes(*old(self)),
            graph_last_sync(*final(self)) == Some(timestamp),
            graph_genesis_hash(*final(self)) == graph_genesis_hash(*old(self)),
    {
        self.inner.set_last_rapid_gossip_sync_timestamp(timestamp)
    }

    /// A graph without channels and nodes, which logs nothing. `genesis_hash` is the hash of the
    /// first block of the chain that the channels are on.
    pub fn new(genesis_hash: &[u8; 32]) -> (r: GossipGraph)
        ensures
            r@ == GraphState::empty(genesis_hash@),
            r@.consistent(),
    {
        Self::new_network_graph(genesis_hash)
    }
}

} // verus!

use std::sync::Arc;

use bitcoin::blockdata::constants::genesis_block;
use bitcoin::secp256k1::PublicKey;
use bitcoin::Network;
use bitcoin::TxOut;

use lightning::ln::chan_utils::make_funding_redeemscript;
use lightning::ln::features::ChannelFeatures;
use lightning::ln::msgs::UnsignedChannelAnnouncement;
use lightning::routing::gossip;
use lightning::routing::gossip::NetworkGraph;
use lightning::util::ser::{Readable, Writeable};
use lightning::util::test_utils::{TestChainSource, TestLogger};

use lightning_rapid_gossip_sync::error::{
    DecodeError, ErrorAction, GraphSyncError, IoErrorKind, LightningError,
};
use lightning_rapid_gossip_sync::graph::{
    ChannelDirections, ChannelPolicy, ChannelUpdateInfo, GossipGraph,
};
use lightning_rapid_gossip_sync::processing::{
    initial_capacity, read_update, settle_announcement, settle_update, synthetic_update,
    SnapshotHeader,
};
use lightning_rapid_gossip_sync::RapidGossipSync;

const TIMESTAMP: u32 = 1642291930;
const BACKDATED: u32 = 1641687130;

const SCID: u64 = 619737530008010752;

const NODE_A: [u8; 33] = [
    2, 22, 7, 207, 206, 25, 164, 197, 231, 230, 231, 56, 102, 61, 250, 251, 187, 172, 38, 46, 79,
    247, 108, 44, 155, 48, 219, 238, 252, 53, 192, 6, 67,
];
const NODE_B: [u8; 33] = [
    2, 36, 125, 157, 176, 223, 175, 234, 116, 94, 248, 201, 225, 97, 235, 50, 47, 115, 172, 63,
    136, 88, 216, 115, 11, 111, 217, 114, 84, 116, 124, 231, 107,
];

const DEFAULTS: ChannelPolicy = ChannelPolicy {
    cltv_expiry_delta: 40,
    htlc_minimum_msat: 1000,
    htlc_maximum_msat: 500_000_000,
    fee_base_msat: 999,
    fee_proportional_millionths: 7,
};

fn fresh_sync() -> RapidGossipSync {
    let block_hash = genesis_block(Network::Bitcoin).block_hash();
    let logger = Arc::new(TestLogger::new());
    RapidGossipSync::new(GossipGraph { inner: NetworkGraph::new(block_hash, logger) })
}

fn big_size(value: u64) -> Vec<u8> {
    let mut bytes = Vec::new();
    if value < 0xFD {
        bytes.push(value as u8);
    } else if value < 0x1_0000 {
        bytes.push(0xFD);
        bytes.extend_from_slice(&(value as u16).to_be_bytes());
    } else if value < 0x1_0000_0000 {
        bytes.push(0xFE);
        bytes.extend_from_slice(&(value as u32).to_be_bytes());
    } else {
        bytes.push(0xFF);
        bytes.extend_from_slice(&value.to_be_bytes());
    }
    bytes
}

fn header(timestamp: u32, node_ids: &[&[u8]]) -> Vec<u8> {
    let mut data = vec![76, 68, 75, 1];
    data.extend_from_slice(&genesis_block(Network::Bitcoin).block_hash()[..]);
    data.extend_from_slice(&timestamp.to_be_bytes());
    data.extend_from_slice(&(node_ids.len() as u32).to_be_bytes());
    for id in node_ids {
        data.extend_from_slice(id);
    }
    data
}

fn announcement(features: &[u8], scid_delta: u64, one: u64, two: u64) -> Vec<u8> {
    let mut data = (features.len() as u16).to_be_bytes().to_vec();
    data.extend_from_slice(features);
    data.extend(big_size(scid_delta));
    data.extend(big_size(one));
    data.extend(big_size(two));
    data
}

fn announcements(items: &[Vec<u8>]) -> Vec<u8> {
    let mut data = (items.len() as u32).to_be_bytes().to_vec();
    for item in items {
        data.extend_from_slice(item);
    }
    data
}

fn updates(defaults: &ChannelPolicy, items: &[Vec<u8>]) -> Vec<u8> {
    let mut data = (items.len() as u32).to_be_bytes().to_vec();
    if items.is_empty() {
        return data;
    }
    data.extend_from_slice(&defaults.cltv_expiry_delta.to_be_bytes());
    data.extend_from_slice(&defaults.htlc_minimum_msat.to_be_bytes());
    data.extend_from_slice(&defaults.fee_base_msat.to_be_bytes());
    data.extend_from_slice(&defaults.fee_proportional_millionths.to_be_bytes());
    data.extend_from_slice(&defaults.htlc_maximum_msat.to_be_bytes());
    for item in items {
        data.extend_from_slice(item);
    }
    data
}

fn update(scid_delta: u64, flags: u8, changes: &[u8]) -> Vec<u8> {
    let mut data = big_size(scid_delta);
    data.push(flags);
    data.extend_from_slice(changes);
    data
}

fn concat(parts: &[Vec<u8>]) -> Vec<u8> {
    let mut data = Vec::new();
    for part in parts {
        data.extend_from_slice(part);
    }
    data
}

/// A snapshot with one channel between two nodes, and the given updates.
fn one_channel(timestamp: u32, items: &[Vec<u8>]) -> Vec<u8> {
    concat(&[
        header(timestamp, &[&NODE_A, &NODE_B]),
        announcements(&[announcement(&[], SCID, 0, 1)]),
        updates(&DEFAULTS, items),
    ])
}

/// A snapshot with updates only.
fn updates_only(timestamp: u32, items: &[Vec<u8>]) -> Vec<u8> {
    concat(&[header(timestamp, &[]), announcements(&[]), updates(&DEFAULTS, items)])
}

fn decode_error(result: Result<u32, GraphSyncError>) -> DecodeError {
    match result {
        Err(GraphSyncError::DecodeError(e)) => e,
        other => panic!("Unexpected update result: {:?}", other),
    }
}

fn lightning_error(result: Result<u32, GraphSyncError>) -> (String, ErrorAction) {
    match result {
        Err(GraphSyncError::LightningError(e)) => (e.err, e.action),
        other => panic!("Unexpected update result: {:?}", other),
    }
}

fn channel(sync: &RapidGossipSync, scid: u64) -> gossip::ChannelInfo {
    sync.network_graph.inner.read_only().channels().get(&scid).unwrap().clone()
}

fn policy_of(info: &gossip::ChannelUpdateInfo) -> ChannelPolicy {
    ChannelPolicy {
        cltv_expiry_delta: info.cltv_expiry_delta,
        htlc_minimum_msat: info.htlc_minimum_msat,
        htlc_maximum_msat: info.htlc_maximum_msat,
        fee_base_msat: info.fees.base_msat,
        fee_proportional_millionths: info.fees.proportional_millionths,
    }
}

#[test]
fn stream_that_ends_inside_the_prefix_is_an_io_error() {
    let eof = DecodeError::Io(IoErrorKind::UnexpectedEof);
    assert_eq!(decode_error(fresh_sync().update_network_graph(&[])), eof);
    assert_eq!(decode_error(fresh_sync().update_network_graph(&[76, 68, 75])), eof);
    assert_eq!(decode_error(fresh_sync().update_network_graph(&[1, 2, 3])), eof);
}

#[test]
fn other_prefixes_are_unknown_versions() {
    for prefix in [[76, 68, 75, 2], [75, 68, 75, 1], [76, 67, 75, 1], [76, 68, 76, 1]] {
        let mut data = one_channel(TIMESTAMP, &[update(SCID, 0, &[])]);
        data[..4].copy_from_slice(&prefix);
        let mut sync = fresh_sync();
        assert_eq!(decode_error(sync.update_network_graph(&data)), DecodeError::UnknownVersion);
        assert_eq!(sync.network_graph.inner.read_only().channels().len(), 0);
    }
    assert_eq!(
        decode_error(fresh_sync().update_network_graph(&[76, 68, 75, 2])),
        DecodeError::UnknownVersion
    );
}

#[test]
fn every_clipped_snapshot_is_refused() {
    let data = one_channel(
        TIMESTAMP,
        &[
            update(SCID, 0b0111_1100, &[0; 26]),
            update(0, 0b0010_0001, &[0, 0, 0, 0, 0, 0, 0, 9]),
        ],
    );
    assert_eq!(fresh_sync().update_network_graph(&data).unwrap(), TIMESTAMP);
    for kept in 0..data.len() {
        let expected = if kept < 4 {
            DecodeError::Io(IoErrorKind::UnexpectedEof)
        } else {
            DecodeError::ShortRead
        };
        assert_eq!(decode_error(fresh_sync().update_network_graph(&data[..kept])), expected);
    }
}

#[test]
fn trailing_data_is_left_over() {
    let mut data = one_channel(TIMESTAMP, &[update(SCID, 0, &[])]);
    data.extend_from_slice(&[1, 2, 3]);
    let mut sync = fresh_sync();
    let mut cursor: &[u8] = &data[..];
    assert_eq!(sync.update_network_graph_from_byte_stream(&mut cursor).unwrap(), TIMESTAMP);
    assert_eq!(cursor, &[1, 2, 3]);
    assert_eq!(fresh_sync().update_network_graph(&data).unwrap(), TIMESTAMP);
}

#[test]
fn snapshots_can_follow_each_other_in_a_stream() {
    let mut data = one_channel(TIMESTAMP, &[update(SCID, 0, &[])]);
    data.extend(updates_only(TIMESTAMP + 10, &[update(SCID, 0b1001_0000, &[0, 0, 0, 5])]));
    let mut sync = fresh_sync();
    let mut cursor: &[u8] = &data[..];
    assert_eq!(sync.update_network_graph_from_byte_stream(&mut cursor).unwrap(), TIMESTAMP);
    assert_eq!(sync.update_network_graph_from_byte_stream(&mut cursor).unwrap(), TIMESTAMP + 10);
    assert!(cursor.is_empty());
    let info = channel(&sync, SCID).one_to_two.unwrap();
    assert_eq!(info.last_update, BACKDATED + 10);
    assert_eq!(policy_of(&info), ChannelPolicy { fee_base_msat: 5, ..DEFAULTS });
}

#[test]
fn snapshot_without_updates_does_not_complete_the_sync() {
    let mut sync = fresh_sync();
    let data = concat(&[
        header(TIMESTAMP, &[&NODE_A, &NODE_B]),
        announcements(&[announcement(&[], SCID, 1, 0)]),
        updates(&DEFAULTS, &[]),
    ]);
    assert_eq!(sync.update_network_graph(&data).unwrap(), TIMESTAMP);
    assert!(!sync.is_initial_sync_complete);
    assert_eq!(sync.network_graph.inner.get_last_rapid_gossip_sync_timestamp(), None);
    let info = channel(&sync, SCID);
    assert_eq!(info.node_one.as_slice(), &NODE_B[..]);
    assert_eq!(info.node_two.as_slice(), &NODE_A[..]);
    assert!(info.one_to_two.is_none());
    assert!(info.two_to_one.is_none());
    assert!(info.capacity_sats.is_none());
}

#[test]
fn snapshot_with_updates_completes_the_sync() {
    let mut sync = fresh_sync();
    let data = one_channel(TIMESTAMP, &[update(SCID, 0, &[]), update(0, 0b0000_0011, &[])]);
    assert_eq!(sync.update_network_graph(&data).unwrap(), TIMESTAMP);
    assert!(sync.is_initial_sync_complete);
    assert_eq!(sync.network_graph.inner.get_last_rapid_gossip_sync_timestamp(), Some(TIMESTAMP));
    let info = channel(&sync, SCID);
    let one_to_two = info.one_to_two.unwrap();
    assert_eq!(one_to_two.last_update, BACKDATED);
    assert!(one_to_two.enabled);
    assert_eq!(policy_of(&one_to_two), DEFAULTS);
    let two_to_one = info.two_to_one.unwrap();
    assert_eq!(two_to_one.last_update, BACKDATED);
    assert!(!two_to_one.enabled);
    assert_eq!(policy_of(&two_to_one), DEFAULTS);
    let graph = sync.network_graph.inner.read_only();
    assert_eq!(graph.nodes().len(), 2);
    for node in graph.nodes().values() {
        assert_eq!(node.channels, vec![SCID]);
    }
}

#[test]
fn failure_after_a_completed_sync_does_not_undo_it() {
    let mut sync = fresh_sync();
    sync.update_network_graph(&one_channel(TIMESTAMP, &[update(SCID, 0, &[])])).unwrap();
    assert_eq!(
        decode_error(sync.update_network_graph(&[0, 0, 0, 0])),
        DecodeError::UnknownVersion
    );
    assert!(sync.is_initial_sync_complete);
    assert_eq!(sync.network_graph.inner.get_last_rapid_gossip_sync_timestamp(), Some(TIMESTAMP));
}

#[test]
fn early_timestamps_are_backdated_to_zero() {
    let mut sync = fresh_sync();
    let data = one_channel(604_799, &[update(SCID, 0, &[])]);
    assert_eq!(sync.update_network_graph(&data).unwrap(), 604_799);
    assert_eq!(channel(&sync, SCID).one_to_two.unwrap().last_update, 0);

    let mut sync = fresh_sync();
    let data = one_channel(604_801, &[update(SCID, 0, &[])]);
    assert_eq!(sync.update_network_graph(&data).unwrap(), 604_801);
    assert_eq!(channel(&sync, SCID).one_to_two.unwrap().last_update, 1);
}

#[test]
fn full_update_takes_what_it_gives_and_defaults_for_the_rest() {
    let given: [u8; 26] = [
        1, 2, 0, 0, 0, 0, 0, 0, 3, 4, 0, 0, 5, 6, 0, 0, 7, 8, 0, 0, 0, 0, 0, 0, 9, 10,
    ];
    let mut sync = fresh_sync();
    let data = one_channel(
        TIMESTAMP,
        &[update(SCID, 0b0111_1100, &given), update(0, 0b0010_0001, &given[2..10])],
    );
    assert_eq!(sync.update_network_graph(&data).unwrap(), TIMESTAMP);
    let info = channel(&sync, SCID);
    assert_eq!(
        policy_of(&info.one_to_two.unwrap()),
        ChannelPolicy {
            cltv_expiry_delta: 0x0102,
            htlc_minimum_msat: 0x0304,
            fee_base_msat: 0x0506,
            fee_proportional_millionths: 0x0708,
            htlc_maximum_msat: 0x090a,
        }
    );
    assert_eq!(
        policy_of(&info.two_to_one.unwrap()),
        ChannelPolicy { htlc_minimum_msat: 0x0304, ..DEFAULTS }
    );
}

#[test]
fn incremental_update_keeps_what_it_does_not_give() {
    let mut sync = fresh_sync();
    let first = one_channel(TIMESTAMP, &[update(SCID, 0b0001_0000, &[0, 0, 0, 77])]);
    sync.update_network_graph(&first).unwrap();
    let second = updates_only(TIMESTAMP + 1, &[update(SCID, 0b1000_1000, &[0, 0, 0, 88])]);
    assert_eq!(sync.update_network_graph(&second).unwrap(), TIMESTAMP + 1);
    let info = channel(&sync, SCID);
    let one_to_two = info.one_to_two.unwrap();
    assert_eq!(one_to_two.last_update, BACKDATED + 1);
    assert_eq!(
        policy_of(&one_to_two),
        ChannelPolicy { fee_base_msat: 77, fee_proportional_millionths: 88, ..DEFAULTS }
    );
    assert!(info.two_to_one.is_none());
}

#[test]
fn full_update_of_an_unknown_channel_is_refused() {
    let data = updates_only(TIMESTAMP, &[update(SCID, 0, &[])]);
    assert_eq!(
        lightning_error(fresh_sync().update_network_graph(&data)),
        ("Couldn't find channel for update".to_owned(), ErrorAction::IgnoreError)
    );
}

#[test]
fn incremental_update_of_an_unknown_channel_fails_before_its_changes_are_read() {
    let data = updates_only(TIMESTAMP, &[update(SCID, 0b1100_0000, &[])]);
    assert_eq!(
        lightning_error(fresh_sync().update_network_graph(&data)),
        ("Couldn't find channel for update".to_owned(), ErrorAction::IgnoreError)
    );
}

#[test]
fn incremental_update_of_an_unknown_direction_keeps_the_updates_before_it() {
    let mut sync = fresh_sync();
    let data = one_channel(
        TIMESTAMP,
        &[update(SCID, 0, &[]), update(0, 0b1000_0001, &[]), update(0, 0b0000_0001, &[])],
    );
    assert_eq!(
        lightning_error(sync.update_network_graph(&data)),
        (
            "Couldn't find previous directional data for update".to_owned(),
            ErrorAction::IgnoreError
        )
    );
    assert!(!sync.is_initial_sync_complete);
    assert_eq!(sync.network_graph.inner.get_last_rapid_gossip_sync_timestamp(), None);
    let info = channel(&sync, SCID);
    assert_eq!(policy_of(&info.one_to_two.unwrap()), DEFAULTS);
    assert!(info.two_to_one.is_none());
}

#[test]
fn replayed_snapshot_is_refused_and_changes_nothing() {
    let mut sync = fresh_sync();
    let data = one_channel(TIMESTAMP, &[update(SCID, 0, &[]), update(0, 1, &[])]);
    sync.update_network_graph(&data).unwrap();
    let before = sync.network_graph.inner.to_string();
    assert_eq!(
        lightning_error(sync.update_network_graph(&data)),
        (
            "Update had same timestamp as last processed update".to_owned(),
            ErrorAction::IgnoreDuplicateGossip
        )
    );
    assert_eq!(sync.network_graph.inner.to_string(), before);
    assert!(sync.is_initial_sync_complete);
}

#[test]
fn replayed_announcements_are_accepted_and_change_nothing() {
    let mut sync = fresh_sync();
    let data = one_channel(TIMESTAMP, &[]);
    assert_eq!(sync.update_network_graph(&data).unwrap(), TIMESTAMP);
    let before = sync.network_graph.inner.to_string();
    assert_eq!(sync.update_network_graph(&data).unwrap(), TIMESTAMP);
    assert_eq!(sync.network_graph.inner.to_string(), before);
}

#[test]
fn older_snapshot_is_refused() {
    let mut sync = fresh_sync();
    sync.update_network_graph(&one_channel(TIMESTAMP, &[update(SCID, 0, &[])])).unwrap();
    assert_eq!(
        lightning_error(
            sync.update_network_graph(&one_channel(TIMESTAMP - 1, &[update(SCID, 0, &[])]))
        ),
        ("Update older than last processed update".to_owned(), ErrorAction::IgnoreAndLog(0))
    );
    assert_eq!(channel(&sync, SCID).one_to_two.unwrap().last_update, BACKDATED);
}

#[test]
fn impossible_maximum_is_refused() {
    let most: u64 = 2_100_000_000_000_000_000;
    let mut sync = fresh_sync();
    let data = one_channel(TIMESTAMP, &[update(SCID, 0b0000_0100, &most.to_be_bytes())]);
    assert_eq!(sync.update_network_graph(&data).unwrap(), TIMESTAMP);
    assert_eq!(channel(&sync, SCID).one_to_two.unwrap().htlc_maximum_msat, most);

    let data = one_channel(TIMESTAMP, &[update(SCID, 0b0000_0100, &(most + 1).to_be_bytes())]);
    assert_eq!(
        lightning_error(fresh_sync().update_network_graph(&data)),
        (
            "htlc_maximum_msat is larger than maximum possible msats".to_owned(),
            ErrorAction::IgnoreError
        )
    );
}

#[test]
fn maximum_above_the_capacity_is_refused() {
    let block_hash = genesis_block(Network::Bitcoin).block_hash();
    let logger = Arc::new(TestLogger::new());
    let network_graph = GossipGraph { inner: NetworkGraph::new(block_hash, logger) };

    let key_a = PublicKey::from_slice(&NODE_A).unwrap();
    let key_b = PublicKey::from_slice(&NODE_B).unwrap();
    let chain_source = TestChainSource::new(Network::Bitcoin);
    *chain_source.utxo_ret.lock().unwrap() = Ok(TxOut {
        value: 100,
        script_pubkey: make_funding_redeemscript(&key_a, &key_b).to_v0_p2wsh(),
    });
    let mut announced: Vec<u8> = vec![0, 0];
    announced.extend_from_slice(&block_hash[..]);
    announced.extend_from_slice(&SCID.to_be_bytes());
    for key in [NODE_A, NODE_B, NODE_A, NODE_B] {
        announced.extend_from_slice(&key);
    }
    let message: UnsignedChannelAnnouncement = Readable::read(&mut &announced[..]).unwrap();
    network_graph
        .inner
        .update_channel_from_unsigned_announcement(&message, &Some(&chain_source))
        .unwrap();

    let mut sync = RapidGossipSync::new(network_graph);
    assert_eq!(channel(&sync, SCID).capacity_sats, Some(100));
    let above = one_channel(
        TIMESTAMP,
        &[update(SCID, 0b0000_0100, &100_001u64.to_be_bytes())],
    );
    assert_eq!(
        lightning_error(sync.update_network_graph(&above)),
        (
            "htlc_maximum_msat is larger than channel capacity or capacity is bogus".to_owned(),
            ErrorAction::IgnoreError
        )
    );
    let within = one_channel(
        TIMESTAMP,
        &[update(SCID, 0b0000_0100, &100_000u64.to_be_bytes())],
    );
    assert_eq!(sync.update_network_graph(&within).unwrap(), TIMESTAMP);
}

fn lowest_fees(sync: &RapidGossipSync, node: &[u8; 33]) -> Option<(u32, u32)> {
    let id = gossip::NodeId::from_pubkey(&PublicKey::from_slice(node).unwrap());
    let graph = sync.network_graph.inner.read_only();
    let fees = graph.nodes().get(&id).unwrap().lowest_inbound_channel_fees;
    fees.map(|fees| (fees.base_msat, fees.proportional_millionths))
}

#[test]
fn lowest_fees_follow_the_enabled_directions() {
    let fees = |base: u8, proportional: u8| [0, 0, 0, base, 0, 0, 0, proportional];
    let mut sync = fresh_sync();
    let data = concat(&[
        header(TIMESTAMP, &[&NODE_A, &NODE_B]),
        announcements(&[announcement(&[], 10, 0, 1), announcement(&[], 10, 1, 0)]),
        updates(
            &DEFAULTS,
            &[update(10, 0b0001_1000, &fees(5, 9)), update(10, 0b0001_1001, &fees(7, 3))],
        ),
    ]);
    sync.update_network_graph(&data).unwrap();
    assert_eq!(lowest_fees(&sync, &NODE_A), None);
    assert_eq!(lowest_fees(&sync, &NODE_B), Some((5, 3)));

    let disabled = updates_only(TIMESTAMP + 1, &[update(10, 0b1000_0010, &[])]);
    sync.update_network_graph(&disabled).unwrap();
    assert_eq!(lowest_fees(&sync, &NODE_B), Some((7, 3)));

    let still_disabled = updates_only(TIMESTAMP + 2, &[update(10, 0b1001_0010, &[0, 0, 0, 1])]);
    sync.update_network_graph(&still_disabled).unwrap();
    assert_eq!(lowest_fees(&sync, &NODE_B), Some((7, 3)));

    let all_disabled = updates_only(TIMESTAMP + 3, &[update(20, 0b1000_0011, &[])]);
    sync.update_network_graph(&all_disabled).unwrap();
    assert_eq!(lowest_fees(&sync, &NODE_B), None);
}

#[test]
fn channel_of_a_node_with_itself_is_refused() {
    let mut sync = fresh_sync();
    let data = concat(&[
        header(TIMESTAMP, &[&NODE_A, &NODE_B]),
        announcements(&[announcement(&[], SCID, 0, 1), announcement(&[], 1, 1, 1)]),
        updates(&DEFAULTS, &[]),
    ]);
    assert_eq!(
        lightning_error(sync.update_network_graph(&data)),
        (
            "Channel announcement node had a channel with itself".to_owned(),
            ErrorAction::IgnoreError
        )
    );
    let graph = sync.network_graph.inner.read_only();
    assert_eq!(graph.channels().len(), 1);
    assert!(graph.channels().contains_key(&SCID));
}

#[test]
fn node_places_out_of_range_are_refused() {
    for (one, two) in [(2, 0), (0, 2), (u64::MAX, 1)] {
        let data = concat(&[
            header(TIMESTAMP, &[&NODE_A, &NODE_B]),
            announcements(&[announcement(&[], SCID, one, two)]),
            updates(&DEFAULTS, &[]),
        ]);
        assert_eq!(
            decode_error(fresh_sync().update_network_graph(&data)),
            DecodeError::InvalidValue
        );
    }
}

#[test]
fn short_channel_ids_that_do_not_fit_are_refused() {
    let items = [announcement(&[], u64::MAX, 0, 1), announcement(&[], 1, 0, 1)];
    let data = concat(&[
        header(TIMESTAMP, &[&NODE_A, &NODE_B]),
        announcements(&items),
        updates(&DEFAULTS, &[]),
    ]);
    let mut sync = fresh_sync();
    assert_eq!(decode_error(sync.update_network_graph(&data)), DecodeError::InvalidValue);
    assert!(sync.network_graph.inner.read_only().channels().contains_key(&u64::MAX));

    let mut sync = fresh_sync();
    let data = one_channel(TIMESTAMP, &[update(SCID, 0, &[]), update(u64::MAX, 1, &[])]);
    assert_eq!(decode_error(sync.update_network_graph(&data)), DecodeError::InvalidValue);
    assert!(channel(&sync, SCID).one_to_two.is_some());
}

#[test]
fn short_channel_ids_add_up_in_each_section() {
    let mut sync = fresh_sync();
    let data = concat(&[
        header(TIMESTAMP, &[&NODE_A, &NODE_B]),
        announcements(&[announcement(&[], 10, 0, 1), announcement(&[], 300, 0, 1)]),
        updates(&DEFAULTS, &[update(10, 0, &[]), update(300, 1, &[])]),
    ]);
    assert_eq!(sync.update_network_graph(&data).unwrap(), TIMESTAMP);
    assert!(channel(&sync, 10).one_to_two.is_some());
    assert!(channel(&sync, 10).two_to_one.is_none());
    assert!(channel(&sync, 310).one_to_two.is_none());
    assert!(channel(&sync, 310).two_to_one.is_some());
}

#[test]
fn node_ids_have_to_be_public_keys() {
    let not_a_point = [5u8; 33];
    let mut too_large = [255u8; 33];
    too_large[0] = 2;
    for id in [not_a_point, too_large, [0u8; 33]] {
        let data = concat(&[
            header(TIMESTAMP, &[&NODE_A, &id]),
            announcements(&[]),
            updates(&DEFAULTS, &[]),
        ]);
        assert_eq!(
            decode_error(fresh_sync().update_network_graph(&data)),
            DecodeError::InvalidValue
        );
    }
}

#[test]
fn numbers_in_longer_forms_than_they_need_are_refused() {
    let long_forms: [&[u8]; 3] = [
        &[0xFD, 0x00, 0xFC],
        &[0xFE, 0x00, 0x00, 0xFF, 0xFF],
        &[0xFF, 0x00, 0x00, 0x00, 0x00, 0xFF, 0xFF, 0xFF, 0xFF],
    ];
    for scid_delta in long_forms {
        let mut item = vec![0, 0];
        item.extend_from_slice(scid_delta);
        item.extend_from_slice(&[0, 1]);
        let data = concat(&[
            header(TIMESTAMP, &[&NODE_A, &NODE_B]),
            announcements(&[item]),
            updates(&DEFAULTS, &[]),
        ]);
        assert_eq!(
            decode_error(fresh_sync().update_network_graph(&data)),
            DecodeError::InvalidValue
        );
    }
}

#[test]
fn numbers_in_each_form_are_read() {
    for scid in [0, 0xFC, 0xFD, 0xFFFF, 0x1_0000, 0xFFFF_FFFF, 0x1_0000_0000, u64::MAX] {
        let mut sync = fresh_sync();
        let data = concat(&[
            header(TIMESTAMP, &[&NODE_A, &NODE_B]),
            announcements(&[announcement(&[], scid, 0, 1)]),
            updates(&DEFAULTS, &[update(scid, 0, &[])]),
        ]);
        assert_eq!(sync.update_network_graph(&data).unwrap(), TIMESTAMP);
        assert!(channel(&sync, scid).one_to_two.is_some());
    }
}

#[test]
fn features_are_stored_with_the_lowest_bits_first() {
    let mut sync = fresh_sync();
    let data = concat(&[
        header(TIMESTAMP, &[&NODE_A, &NODE_B]),
        announcements(&[announcement(&[1, 2, 3], SCID, 0, 1)]),
        updates(&DEFAULTS, &[]),
    ]);
    sync.update_network_graph(&data).unwrap();
    assert_eq!(channel(&sync, SCID).features, ChannelFeatures::from_le_bytes(vec![3, 2, 1]));
}

#[test]
fn flags_that_the_graph_does_not_know_are_dropped() {
    let header = SnapshotHeader {
        chain_hash: &[7; 32],
        latest_seen_timestamp: TIMESTAMP,
        node_ids: Vec::new(),
    };
    let update = synthetic_update(&header, SCID, 0b1111_1110, DEFAULTS);
    assert_eq!(update.chain_hash, &[7; 32]);
    assert_eq!(update.short_channel_id, SCID);
    assert_eq!(update.timestamp, BACKDATED);
    assert_eq!(update.flags, 0b10);
    assert_eq!(update.policy, DEFAULTS);
    assert!(update.excess_data.is_empty());
}

#[test]
fn updates_are_for_the_chain_of_the_header() {
    let graph = fresh_sync().network_graph;
    let header = SnapshotHeader {
        chain_hash: &[7; 32],
        latest_seen_timestamp: TIMESTAMP,
        node_ids: Vec::new(),
    };
    let data = concat(&[update(5, 0b0100_0011, &[0, 9]), vec![1]]);
    let mut cursor: &[u8] = &data[..];
    let update = read_update(&mut cursor, SCID, &graph, &header, DEFAULTS).unwrap();
    assert_eq!(update.chain_hash, &[7; 32]);
    assert_eq!(update.short_channel_id, SCID + 5);
    assert_eq!(update.timestamp, BACKDATED);
    assert_eq!(update.flags, 0b11);
    assert_eq!(update.policy, ChannelPolicy { cltv_expiry_delta: 9, ..DEFAULTS });
    assert!(update.excess_data.is_empty());
    assert_eq!(cursor, &[1]);
}

/// What is left of `data` by a synchronisation that fails, and the failure.
fn left_by_failure(sync: &mut RapidGossipSync, data: &[u8]) -> (Vec<u8>, GraphSyncError) {
    let mut cursor: &[u8] = data;
    let error = sync.update_network_graph_from_byte_stream(&mut cursor).unwrap_err();
    (cursor.to_vec(), error)
}

#[test]
fn room_for_node_ids_is_limited() {
    assert_eq!(initial_capacity(0), 0);
    assert_eq!(initial_capacity(49_999), 49_999);
    assert_eq!(initial_capacity(50_000), 50_000);
    assert_eq!(initial_capacity(50_001), 50_000);
    assert_eq!(initial_capacity(u32::MAX), 50_000);
}

#[test]
fn node_ids_that_do_not_follow_are_a_short_read() {
    let data = concat(&[vec![76, 68, 75, 1], vec![0; 36], vec![255; 4]]);
    assert_eq!(data.len(), 44);
    let mut sync = fresh_sync();
    assert_eq!(decode_error(sync.update_network_graph(&data)), DecodeError::ShortRead);
    assert_eq!(sync.network_graph.inner.read_only().channels().len(), 0);
    assert_eq!(sync.network_graph.inner.read_only().nodes().len(), 0);
}

#[test]
fn only_the_prefix_of_an_unknown_version_is_taken() {
    let (left, error) = left_by_failure(&mut fresh_sync(), &[76, 68, 75, 2, 5, 6, 7]);
    assert!(matches!(error, GraphSyncError::DecodeError(DecodeError::UnknownVersion)));
    assert_eq!(left, vec![5, 6, 7]);
}

#[test]
fn failures_leave_what_was_not_read() {
    // a number in a longer form than it needs is read whole
    let data = concat(&[
        header(TIMESTAMP, &[&NODE_A, &NODE_B]),
        vec![0, 0, 0, 1, 0, 0, 0xFD, 0, 1],
        vec![5, 6, 7],
    ]);
    let (left, error) = left_by_failure(&mut fresh_sync(), &data);
    assert!(matches!(error, GraphSyncError::DecodeError(DecodeError::InvalidValue)));
    assert_eq!(left, vec![5, 6, 7]);

    // an incremental update without anything to build on fails before its changes are read
    let data = updates_only(TIMESTAMP, &[update(SCID, 0b1100_0000, &[5, 6])]);
    let (left, error) = left_by_failure(&mut fresh_sync(), &data);
    assert!(matches!(error, GraphSyncError::LightningError(_)));
    assert_eq!(left, vec![5, 6]);

    // a full update that the graph refuses is read whole
    let data = concat(&[
        updates_only(TIMESTAMP, &[update(SCID, 0b0100_0000, &[5, 6])]),
        vec![7],
    ]);
    let (left, error) = left_by_failure(&mut fresh_sync(), &data);
    assert!(matches!(error, GraphSyncError::LightningError(_)));
    assert_eq!(left, vec![7]);
}

#[test]
fn clipped_snapshot_leaves_the_graph_on_its_way() {
    let data = one_channel(
        TIMESTAMP,
        &[update(SCID, 0b0000_0000, &[]), update(0, 0b0000_0001, &[])],
    );
    let mut sync = fresh_sync();
    // the flags of the second update are cut off
    sync.update_network_graph(&data[..data.len() - 1]).unwrap_err();
    assert_eq!(policy_of(channel(&sync, SCID).one_to_two.as_ref().unwrap()), DEFAULTS);
    assert!(channel(&sync, SCID).two_to_one.is_none());
    assert!(sync.network_graph.inner.get_last_rapid_gossip_sync_timestamp().is_none());
    assert!(!sync.is_initial_sync_complete);
}

fn answered(action: ErrorAction) -> Result<(), LightningError> {
    Err(LightningError { err: "no".to_owned(), action })
}

#[test]
fn known_channels_are_no_failure_of_announcements() {
    assert!(settle_announcement(Ok(())).is_ok());
    assert!(settle_announcement(answered(ErrorAction::IgnoreDuplicateGossip)).is_ok());
    for action in [
        ErrorAction::DisconnectPeer,
        ErrorAction::IgnoreError,
        ErrorAction::IgnoreAndLog(0),
        ErrorAction::SendErrorMessage,
        ErrorAction::SendWarningMessage,
    ] {
        match settle_announcement(answered(action)) {
            Err(GraphSyncError::LightningError(e)) => {
                assert_eq!(e.err, "no");
                assert_eq!(e.action, action);
            }
            other => panic!("Unexpected result: {:?}", other),
        }
    }
}

#[test]
fn every_refused_update_is_a_failure() {
    assert!(settle_update(Ok(())).is_ok());
    for action in [ErrorAction::IgnoreDuplicateGossip, ErrorAction::IgnoreAndLog(0)] {
        match settle_update(answered(action)) {
            Err(GraphSyncError::LightningError(e)) => assert_eq!(e.action, action),
            other => panic!("Unexpected result: {:?}", other),
        }
    }
}

#[test]
fn lowest_flag_picks_the_direction() {
    let info = ChannelUpdateInfo { last_update: 1, enabled: true, policy: DEFAULTS };
    let directions = ChannelDirections { one_to_two: Some(info), two_to_one: None };
    assert_eq!(directions.get_directional_info(0b1111_1110), Some(info));
    assert_eq!(directions.get_directional_info(1), None);
}

#[test]
fn new_graph_is_empty() {
    let hash = genesis_block(Network::Bitcoin).block_hash();
    let mut bytes = [0u8; 32];
    bytes.copy_from_slice(&hash[..]);
    let graph = GossipGraph::new(&bytes);
    // the serialized graph starts with two bytes of version, then the hash
    assert_eq!(graph.inner.encode()[2..34], bytes[..]);
    assert_eq!(graph.inner.read_only().channels().len(), 0);
    assert_eq!(graph.inner.read_only().nodes().len(), 0);
    assert_eq!(graph.inner.get_last_rapid_gossip_sync_timestamp(), None);
    let mut sync = RapidGossipSync::new(graph);
    assert!(!sync.is_initial_sync_complete);
    let data = one_channel(TIMESTAMP, &[update(SCID, 0, &[])]);
    assert_eq!(sync.update_network_graph(&data).unwrap(), TIMESTAMP);
}

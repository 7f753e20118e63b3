use std::sync::Arc;

use bitcoin::blockdata::constants::genesis_block;
use bitcoin::Network;

use lightning::routing::gossip::NetworkGraph;
use lightning::util::test_utils::TestLogger;

use lightning_rapid_gossip_sync::error::{DecodeError, GraphSyncError};
use lightning_rapid_gossip_sync::graph::GossipGraph;
use lightning_rapid_gossip_sync::RapidGossipSync;

#[test]
fn network_graph_fails_to_update_from_clipped_input() {
    let block_hash = genesis_block(Network::Bitcoin).block_hash();
    let logger = Arc::new(TestLogger::new());
    let network_graph = GossipGraph { inner: NetworkGraph::new(block_hash, logger) };

    let example_input = vec![
        76, 68, 75, 1, 111, 226, 140, 10, 182, 241, 179, 114, 193, 166, 162, 70, 174, 99, 247,
        79, 147, 30, 131, 101, 225, 90, 8, 156, 104, 214, 25, 0, 0, 0, 0, 0, 97, 227, 98, 218,
        0, 0, 0, 4, 2, 22, 7, 207, 206, 25, 164, 197, 231, 230, 231, 56, 102, 61, 250, 251,
        187, 172, 38, 46, 79, 247, 108, 44, 155, 48, 219, 238, 252, 53, 192, 6, 67, 2, 36, 125,
        157, 176, 223, 175, 234, 116, 94, 248, 201, 225, 97, 235, 50, 47, 115, 172, 63, 136,
        88, 216, 115, 11, 111, 217, 114, 84, 116, 124, 231, 107, 2, 158, 1, 242, 121, 152, 106,
        204, 131, 186, 35, 93, 70, 216, 10, 237, 224, 183, 89, 95, 65, 3, 83, 185, 58, 138,
        181, 64, 187, 103, 127, 68, 50, 2, 201, 19, 17, 138, 136, 149, 185, 226, 156, 137, 175,
        110, 32, 237, 0, 217, 90, 31, 100, 228, 149, 46, 219, 175, 168, 77, 4, 143, 38, 128,
        76, 97, 0, 0, 0, 2, 0, 0, 255, 8, 153, 192, 0, 2, 27, 0, 0, 0, 1, 0, 0, 255, 2, 68,
        226, 0, 6, 11, 0, 1, 2, 3, 0, 0, 0, 2, 0, 40, 0, 0, 0, 0, 0, 0, 3, 232, 0, 0, 0, 100,
        0, 0, 2, 224, 0, 0, 0, 0, 29, 129, 25, 192, 255, 8, 153, 192, 0, 2, 27, 0, 0, 36, 0, 0,
        0, 0, 0, 0, 0, 1, 0, 0, 0, 0, 58, 85, 116, 216, 255, 2, 68, 226, 0, 6, 11, 0, 1, 24, 0,
        0, 3, 232, 0, 0, 0,
    ];
    let mut rapid_sync = RapidGossipSync::new(network_graph);
    let update_result = rapid_sync.update_network_graph(&example_input[..]);
    assert!(update_result.is_err());
    if let Err(GraphSyncError::DecodeError(DecodeError::ShortRead)) = update_result {
        // this is the expected error type
    } else {
        panic!("Unexpected update result: {:?}", update_result)
    }
}

#[test]
fn incremental_only_update_fails_without_prior_announcements() {
    let incremental_update_input = vec![
        76, 68, 75, 1, 111, 226, 140, 10, 182, 241, 179, 114, 193, 166, 162, 70, 174, 99, 247,
        79, 147, 30, 131, 101, 225, 90, 8, 156, 104, 214, 25, 0, 0, 0, 0, 0, 97, 229, 183, 167,
        0, 0, 0, 0, 0, 0, 0, 0, 0, 0, 0, 2, 0, 0, 0, 0, 0, 0, 0, 0, 0, 0, 0, 0, 0, 0, 0, 0, 0,
        0, 0, 0, 0, 0, 0, 0, 0, 0, 255, 8, 153, 192, 0, 2, 27, 0, 0, 136, 0, 0, 0, 221, 255, 2,
        68, 226, 0, 6, 11, 0, 1, 128,
    ];

    let block_hash = genesis_block(Network::Bitcoin).block_hash();
    let logger = Arc::new(TestLogger::new());
    let network_graph = GossipGraph { inner: NetworkGraph::new(block_hash, logger) };

    assert_eq!(network_graph.inner.read_only().channels().len(), 0);

    let mut rapid_sync = RapidGossipSync::new(network_graph);
    let update_result = rapid_sync.update_network_graph(&incremental_update_input[..]);
    assert!(update_result.is_err());
    if let Err(GraphSyncError::LightningError(lightning_error)) = update_result {
        assert_eq!(lightning_error.err, "Couldn't find channel for update");
    } else {
        panic!("Unexpected update result: {:?}", update_result)
    }
}

#[test]
fn incremental_only_update_fails_without_prior_updates() {
    let announced_update_input = vec![
        76, 68, 75, 1, 111, 226, 140, 10, 182, 241, 179, 114, 193, 166, 162, 70, 174, 99, 247,
        79, 147, 30, 131, 101, 225, 90, 8, 156, 104, 214, 25, 0, 0, 0, 0, 0, 97, 229, 183, 167,
        0, 0, 0, 4, 2, 22, 7, 207, 206, 25, 164, 197, 231, 230, 231, 56, 102, 61, 250, 251,
        187, 172, 38, 46, 79, 247, 108, 44, 155, 48, 219, 238, 252, 53, 192, 6, 67, 2, 36, 125,
        157, 176, 223, 175, 234, 116, 94, 248, 201, 225, 97, 235, 50, 47, 115, 172, 63, 136,
        88, 216, 115, 11, 111, 217, 114, 84, 116, 124, 231, 107, 2, 158, 1, 242, 121, 152, 106,
        204, 131, 186, 35, 93, 70, 216, 10, 237, 224, 183, 89, 95, 65, 3, 83, 185, 58, 138,
        181, 64, 187, 103, 127, 68, 50, 2, 201, 19, 17, 138, 136, 149, 185, 226, 156, 137, 175,
        110, 32, 237, 0, 217, 90, 31, 100, 228, 149, 46, 219, 175, 168, 77, 4, 143, 38, 128,
        76, 97, 0, 0, 0, 2, 0, 0, 255, 8, 153, 192, 0, 2, 27, 0, 0, 0, 1, 0, 0, 255, 2, 68,
        226, 0, 6, 11, 0, 1, 2, 3, 0, 0, 0, 2, 0, 0, 0, 0, 0, 0, 0, 0, 0, 0, 0, 0, 0, 0, 0, 0,
        0, 0, 0, 0, 0, 0, 0, 0, 0, 0, 255, 8, 153, 192, 0, 2, 27, 0, 0, 136, 0, 0, 0, 221, 255,
        2, 68, 226, 0, 6, 11, 0, 1, 128,
    ];

    let block_hash = genesis_block(Network::Bitcoin).block_hash();
    let logger = Arc::new(TestLogger::new());
    let network_graph = GossipGraph { inner: NetworkGraph::new(block_hash, logger) };

    assert_eq!(network_graph.inner.read_only().channels().len(), 0);

    let mut rapid_sync = RapidGossipSync::new(network_graph);
    let update_result = rapid_sync.update_network_graph(&announced_update_input[..]);
    assert!(update_result.is_err());
    if let Err(GraphSyncError::LightningError(lightning_error)) = update_result {
        assert_eq!(
            lightning_error.err,
            "Couldn't find previous directional data for update"
        );
    } else {
        panic!("Unexpected update result: {:?}", update_result)
    }
}

#[test]
fn incremental_only_update_fails_without_prior_same_direction_updates() {
    let initialization_input = vec![
        76, 68, 75, 1, 111, 226, 140, 10, 182, 241, 179, 114, 193, 166, 162, 70, 174, 99, 247,
        79, 147, 30, 131, 101, 225, 90, 8, 156, 104, 214, 25, 0, 0, 0, 0, 0, 97, 227, 98, 218,
        0, 0, 0, 4, 2, 22, 7, 207, 206, 25, 164, 197, 231, 230, 231, 56, 102, 61, 250, 251,
        187, 172, 38, 46, 79, 247, 108, 44, 155, 48, 219, 238, 252, 53, 192, 6, 67, 2, 36, 125,
        157, 176, 223, 175, 234, 116, 94, 248, 201, 225, 97, 235, 50, 47, 115, 172, 63, 136,
        88, 216, 115, 11, 111, 217, 114, 84, 116, 124, 231, 107, 2, 158, 1, 242, 121, 152, 106,
        204, 131, 186, 35, 93, 70, 216, 10, 237, 224, 183, 89, 95, 65, 3, 83, 185, 58, 138,
        181, 64, 187, 103, 127, 68, 50, 2, 201, 19, 17, 138, 136, 149, 185, 226, 156, 137, 175,
        110, 32, 237, 0, 217, 90, 31, 100, 228, 149, 46, 219, 175, 168, 77, 4, 143, 38, 128,
        76, 97, 0, 0, 0, 2, 0, 0, 255, 8, 153, 192, 0, 2, 27, 0, 0, 0, 1, 0, 0, 255, 2, 68,
        226, 0, 6, 11, 0, 1, 2, 3, 0, 0, 0, 2, 0, 40, 0, 0, 0, 0, 0, 0, 3, 232, 0, 0, 3, 232,
        0, 0, 0, 1, 0, 0, 0, 0, 58, 85, 116, 216, 255, 8, 153, 192, 0, 2, 27, 0, 0, 25, 0, 0,
        0, 1, 0, 0, 0, 125, 255, 2, 68, 226, 0, 6, 11, 0, 1, 5, 0, 0, 0, 0, 29, 129, 25, 192,
    ];

    let block_hash = genesis_block(Network::Bitcoin).block_hash();
    let logger = Arc::new(TestLogger::new());
    let network_graph = GossipGraph { inner: NetworkGraph::new(block_hash, logger) };

    assert_eq!(network_graph.inner.read_only().channels().len(), 0);

    let mut rapid_sync = RapidGossipSync::new(network_graph);
    let initialization_result = rapid_sync.update_network_graph(&initialization_input[..]);
    if initialization_result.is_err() {
        panic!(
            "Unexpected initialization result: {:?}",
            initialization_result
        )
    }

    assert_eq!(rapid_sync.network_graph.inner.read_only().channels().len(), 2);
    let initialized = rapid_sync.network_graph.inner.to_string();
    assert!(initialized
        .contains("021607cfce19a4c5e7e6e738663dfafbbbac262e4ff76c2c9b30dbeefc35c00643"));
    assert!(initialized
        .contains("02247d9db0dfafea745ef8c9e161eb322f73ac3f8858d8730b6fd97254747ce76b"));
    assert!(initialized
        .contains("029e01f279986acc83ba235d46d80aede0b7595f410353b93a8ab540bb677f4432"));
    assert!(initialized
        .contains("02c913118a8895b9e29c89af6e20ed00d95a1f64e4952edbafa84d048f26804c61"));
    assert!(initialized.contains("619737530008010752"));
    assert!(initialized.contains("783241506229452801"));

    let opposite_direction_incremental_update_input = vec![
        76, 68, 75, 1, 111, 226, 140, 10, 182, 241, 179, 114, 193, 166, 162, 70, 174, 99, 247,
        79, 147, 30, 131, 101, 225, 90, 8, 156, 104, 214, 25, 0, 0, 0, 0, 0, 97, 229, 183, 167,
        0, 0, 0, 0, 0, 0, 0, 0, 0, 0, 0, 2, 0, 0, 0, 0, 0, 0, 0, 0, 0, 0, 0, 0, 0, 0, 0, 0, 0,
        0, 0, 0, 0, 0, 0, 0, 0, 0, 255, 8, 153, 192, 0, 2, 27, 0, 0, 136, 0, 0, 0, 221, 255, 2,
        68, 226, 0, 6, 11, 0, 1, 128,
    ];
    let update_result = rapid_sync.update_network_graph(&opposite_direction_incremental_update_input[..]);
    assert!(update_result.is_err());
    if let Err(GraphSyncError::LightningError(lightning_error)) = update_result {
        assert_eq!(
            lightning_error.err,
            "Couldn't find previous directional data for update"
        );
    } else {
        panic!("Unexpected update result: {:?}", update_result)
    }
}

#[test]
fn incremental_update_succeeds_with_prior_announcements_and_full_updates() {
    let initialization_input = vec![
        76, 68, 75, 1, 111, 226, 140, 10, 182, 241, 179, 114, 193, 166, 162, 70, 174, 99, 247,
        79, 147, 30, 131, 101, 225, 90, 8, 156, 104, 214, 25, 0, 0, 0, 0, 0, 97, 227, 98, 218,
        0, 0, 0, 4, 2, 22, 7, 207, 206, 25, 164, 197, 231, 230, 231, 56, 102, 61, 250, 251,
        187, 172, 38, 46, 79, 247, 108, 44, 155, 48, 219, 238, 252, 53, 192, 6, 67, 2, 36, 125,
        157, 176, 223, 175, 234, 116, 94, 248, 201, 225, 97, 235, 50, 47, 115, 172, 63, 136,
        88, 216, 115, 11, 111, 217, 114, 84, 116, 124, 231, 107, 2, 158, 1, 242, 121, 152, 106,
        204, 131, 186, 35, 93, 70, 216, 10, 237, 224, 183, 89, 95, 65, 3, 83, 185, 58, 138,
        181, 64, 187, 103, 127, 68, 50, 2, 201, 19, 17, 138, 136, 149, 185, 226, 156, 137, 175,
        110, 32, 237, 0, 217, 90, 31, 100, 228, 149, 46, 219, 175, 168, 77, 4, 143, 38, 128,
        76, 97, 0, 0, 0, 2, 0, 0, 255, 8, 153, 192, 0, 2, 27, 0, 0, 0, 1, 0, 0, 255, 2, 68,
        226, 0, 6, 11, 0, 1, 2, 3, 0, 0, 0, 4, 0, 40, 0, 0, 0, 0, 0, 0, 3, 232, 0, 0, 3, 232,
        0, 0, 0, 1, 0, 0, 0, 0, 58, 85, 116, 216, 255, 8, 153, 192, 0, 2, 27, 0, 0, 56, 0, 0,
        0, 0, 0, 0, 0, 1, 0, 0, 0, 100, 0, 0, 2, 224, 0, 25, 0, 0, 0, 1, 0, 0, 0, 125, 255, 2,
        68, 226, 0, 6, 11, 0, 1, 4, 0, 0, 0, 0, 29, 129, 25, 192, 0, 5, 0, 0, 0, 0, 29, 129,
        25, 192,
    ];

    let block_hash = genesis_block(Network::Bitcoin).block_hash();
    let logger = Arc::new(TestLogger::new());
    let network_graph = GossipGraph { inner: NetworkGraph::new(block_hash, logger) };

    assert_eq!(network_graph.inner.read_only().channels().len(), 0);

    let mut rapid_sync = RapidGossipSync::new(network_graph);
    let initialization_result = rapid_sync.update_network_graph(&initialization_input[..]);
    assert!(initialization_result.is_ok());

    let single_direction_incremental_update_input = vec![
        76, 68, 75, 1, 111, 226, 140, 10, 182, 241, 179, 114, 193, 166, 162, 70, 174, 99, 247,
        79, 147, 30, 131, 101, 225, 90, 8, 156, 104, 214, 25, 0, 0, 0, 0, 0, 97, 229, 183, 167,
        0, 0, 0, 0, 0, 0, 0, 0, 0, 0, 0, 2, 0, 0, 0, 0, 0, 0, 0, 0, 0, 0, 0, 0, 0, 0, 0, 0, 0,
        0, 0, 0, 0, 0, 0, 0, 0, 0, 255, 8, 153, 192, 0, 2, 27, 0, 0, 136, 0, 0, 0, 221, 255, 2,
        68, 226, 0, 6, 11, 0, 1, 128,
    ];
    let update_result = rapid_sync.update_network_graph(&single_direction_incremental_update_input[..]);
    if update_result.is_err() {
        panic!("Unexpected update result: {:?}", update_result)
    }

    assert_eq!(rapid_sync.network_graph.inner.read_only().channels().len(), 2);
    let after = rapid_sync.network_graph.inner.to_string();
    assert!(
        after.contains("021607cfce19a4c5e7e6e738663dfafbbbac262e4ff76c2c9b30dbeefc35c00643")
    );
    assert!(
        after.contains("02247d9db0dfafea745ef8c9e161eb322f73ac3f8858d8730b6fd97254747ce76b")
    );
    assert!(
        after.contains("029e01f279986acc83ba235d46d80aede0b7595f410353b93a8ab540bb677f4432")
    );
    assert!(
        after.contains("02c913118a8895b9e29c89af6e20ed00d95a1f64e4952edbafa84d048f26804c61")
    );
    assert!(after.contains("619737530008010752"));
    assert!(after.contains("783241506229452801"));
}

#[test]
fn full_update_succeeds() {
    let valid_input = vec![
        76, 68, 75, 1, 111, 226, 140, 10, 182, 241, 179, 114, 193, 166, 162, 70, 174, 99, 247,
        79, 147, 30, 131, 101, 225, 90, 8, 156, 104, 214, 25, 0, 0, 0, 0, 0, 97, 227, 98, 218,
        0, 0, 0, 4, 2, 22, 7, 207, 206, 25, 164, 197, 231, 230, 231, 56, 102, 61, 250, 251,
        187, 172, 38, 46, 79, 247, 108, 44, 155, 48, 219, 238, 252, 53, 192, 6, 67, 2, 36, 125,
        157, 176, 223, 175, 234, 116, 94, 248, 201, 225, 97, 235, 50, 47, 115, 172, 63, 136,
        88, 216, 115, 11, 111, 217, 114, 84, 116, 124, 231, 107, 2, 158, 1, 242, 121, 152, 106,
        204, 131, 186, 35, 93, 70, 216, 10, 237, 224, 183, 89, 95, 65, 3, 83, 185, 58, 138,
        181, 64, 187, 103, 127, 68, 50, 2, 201, 19, 17, 138, 136, 149, 185, 226, 156, 137, 175,
        110, 32, 237, 0, 217, 90, 31, 100, 228, 149, 46, 219, 175, 168, 77, 4, 143, 38, 128,
        76, 97, 0, 0, 0, 2, 0, 0, 255, 8, 153, 192, 0, 2, 27, 0, 0, 0, 1, 0, 0, 255, 2, 68,
        226, 0, 6, 11, 0, 1, 2, 3, 0, 0, 0, 4, 0, 40, 0, 0, 0, 0, 0, 0, 3, 232, 0, 0, 3, 232,
        0, 0, 0, 1, 0, 0, 0, 0, 29, 129, 25, 192, 255, 8, 153, 192, 0, 2, 27, 0, 0, 60, 0, 0,
        0, 0, 0, 0, 0, 1, 0, 0, 0, 100, 0, 0, 2, 224, 0, 0, 0, 0, 58, 85, 116, 216, 0, 29, 0,
        0, 0, 1, 0, 0, 0, 125, 0, 0, 0, 0, 58, 85, 116, 216, 255, 2, 68, 226, 0, 6, 11, 0, 1,
        0, 0, 1,
    ];

    let block_hash = genesis_block(Network::Bitcoin).block_hash();
    let logger = Arc::new(TestLogger::new());
    let network_graph = GossipGraph { inner: NetworkGraph::new(block_hash, logger) };

    assert_eq!(network_graph.inner.read_only().channels().len(), 0);

    let mut rapid_sync = RapidGossipSync::new(network_graph);
    let update_result = rapid_sync.update_network_graph(&valid_input[..]);
    if update_result.is_err() {
        panic!("Unexpected update result: {:?}", update_result)
    }

    assert_eq!(rapid_sync.network_graph.inner.read_only().channels().len(), 2);
    let after = rapid_sync.network_graph.inner.to_string();
    assert!(
        after.contains("021607cfce19a4c5e7e6e738663dfafbbbac262e4ff76c2c9b30dbeefc35c00643")
    );
    assert!(
        after.contains("02247d9db0dfafea745ef8c9e161eb322f73ac3f8858d8730b6fd97254747ce76b")
    );
    assert!(
        after.contains("029e01f279986acc83ba235d46d80aede0b7595f410353b93a8ab540bb677f4432")
    );
    assert!(
        after.contains("02c913118a8895b9e29c89af6e20ed00d95a1f64e4952edbafa84d048f26804c61")
    );
    assert!(after.contains("619737530008010752"));
    assert!(after.contains("783241506229452801"));
}

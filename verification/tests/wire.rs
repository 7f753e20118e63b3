use lightning_rapid_gossip_sync::error::DecodeError;
use lightning_rapid_gossip_sync::graph::ChannelPolicy;
use lightning_rapid_gossip_sync::processing::{
    read_changes, read_defaults, read_header, read_scid, read_update_head,
};
use lightning_rapid_gossip_sync::wire::{
    read_bytes, read_features, read_node_id, read_u16, read_u32, read_u64, read_u8,
};

#[test]
fn integers_are_big_endian() {
    let data: [u8; 16] = [7, 1, 2, 3, 4, 5, 6, 0xff, 1, 2, 3, 4, 5, 6, 7, 9];
    let mut input: &[u8] = &data[..];
    assert_eq!(read_u8(&mut input), Ok(7));
    assert_eq!(read_u16(&mut input), Ok(0x0102));
    assert_eq!(read_u32(&mut input), Ok(0x03040506));
    assert_eq!(read_u64(&mut input), Ok(0xff01020304050607));
    assert_eq!(input, &[9]);
    assert_eq!(read_u16(&mut input), Err(DecodeError::ShortRead));
}

#[test]
fn largest_integers_are_read() {
    let mut input: &[u8] = &[255; 15];
    assert_eq!(read_u64(&mut input), Ok(u64::MAX));
    assert_eq!(read_u32(&mut input), Ok(u32::MAX));
    assert_eq!(read_u16(&mut input), Ok(u16::MAX));
    assert_eq!(read_u8(&mut input), Ok(u8::MAX));
    assert_eq!(read_u8(&mut input), Err(DecodeError::ShortRead));
    assert_eq!(read_u64(&mut input), Err(DecodeError::ShortRead));
    assert_eq!(read_u32(&mut input), Err(DecodeError::ShortRead));
}

#[test]
fn bytes_are_read_as_they_stand() {
    let mut input: &[u8] = &[1, 2, 3];
    assert_eq!(read_bytes(&mut input, 0), Ok(&[][..]));
    assert_eq!(read_bytes(&mut input, 2), Ok(&[1, 2][..]));
    assert_eq!(read_bytes(&mut input, 2), Err(DecodeError::ShortRead));
}

#[test]
fn features_are_turned_round() {
    let mut input: &[u8] = &[0, 3, 1, 2, 3, 0, 0, 0, 1];
    assert_eq!(read_features(&mut input), Ok(vec![3, 2, 1]));
    assert_eq!(read_features(&mut input), Ok(vec![]));
    assert_eq!(read_features(&mut input), Err(DecodeError::ShortRead));
}

#[test]
fn node_ids_are_checked() {
    let generator: [u8; 33] = [
        0x02, 0x79, 0xbe, 0x66, 0x7e, 0xf9, 0xdc, 0xbb, 0xac, 0x55, 0xa0, 0x62, 0x95, 0xce, 0x87,
        0x0b, 0x07, 0x02, 0x9b, 0xfc, 0xdb, 0x2d, 0xce, 0x28, 0xd9, 0x59, 0xf2, 0x81, 0x5b, 0x16,
        0xf8, 0x17, 0x98,
    ];
    let mut input: &[u8] = &generator[..];
    assert_eq!(read_node_id(&mut input), Ok(&generator[..]));
    assert_eq!(read_node_id(&mut input), Err(DecodeError::ShortRead));

    let mut wrong = generator;
    wrong[0] = 4;
    let mut input: &[u8] = &wrong[..];
    assert_eq!(read_node_id(&mut input), Err(DecodeError::InvalidValue));
}

#[test]
fn short_channel_ids_are_distances() {
    let mut input: &[u8] = &[0xFD, 1, 0, 5];
    assert_eq!(read_scid(&mut input, 1000), Ok(1256));
    assert_eq!(read_scid(&mut input, u64::MAX - 4), Err(DecodeError::InvalidValue));
    let mut input: &[u8] = &[5, 0b1000_0001];
    assert_eq!(read_update_head(&mut input, u64::MAX - 5), Ok((u64::MAX, 0b1000_0001)));
}

#[test]
fn defaults_are_read_in_their_order() {
    let data: [u8; 26] = [
        0, 1, 0, 0, 0, 0, 0, 0, 0, 2, 0, 0, 0, 3, 0, 0, 0, 4, 0, 0, 0, 0, 0, 0, 0, 5,
    ];
    let mut input: &[u8] = &data[..];
    let defaults = ChannelPolicy {
        cltv_expiry_delta: 1,
        htlc_minimum_msat: 2,
        fee_base_msat: 3,
        fee_proportional_millionths: 4,
        htlc_maximum_msat: 5,
    };
    assert_eq!(read_defaults(&mut input), Ok(defaults));
    assert!(input.is_empty());

    let mut input: &[u8] = &[0, 9, 0, 0, 0, 8];
    assert_eq!(
        read_changes(&mut input, 0b0100_1000, defaults),
        Ok(ChannelPolicy { cltv_expiry_delta: 9, fee_proportional_millionths: 8, ..defaults })
    );
    assert_eq!(read_changes(&mut input, 0b1000_0011, defaults), Ok(defaults));
    assert_eq!(read_changes(&mut input, 0b0000_0100, defaults), Err(DecodeError::ShortRead));
}

#[test]
fn headers_are_read_up_to_their_node_ids() {
    let mut data: Vec<u8> = vec![76, 68, 75, 1];
    data.extend_from_slice(&[3; 32]);
    data.extend_from_slice(&[0, 0, 1, 0]);
    data.extend_from_slice(&[0, 0, 0, 0]);
    data.push(42);
    let mut input: &[u8] = &data[..];
    match read_header(&mut input) {
        Ok(header) => {
            assert_eq!(header.chain_hash, &[3; 32]);
            assert_eq!(header.latest_seen_timestamp, 256);
            assert!(header.node_ids.is_empty());
        }
        Err(e) => panic!("Unexpected error: {:?}", e),
    }
    assert_eq!(input, &[42]);
}

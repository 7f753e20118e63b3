//! How a snapshot is written, and that reading gives back what was written.
//!
//! The functions here that end in `_written` give the bytes that stand for a value. Reading takes
//! exactly these bytes: what was written is read back, and what was read had been written so.

use crate::error::DecodeError;
use crate::graph::ChannelPolicy;
use crate::growth::{
    grows, lemma_announcement_grows, lemma_changes_grow, lemma_header_grows,
    lemma_update_head_grows, parsed_with,
};
use crate::snapshot::{
    parse_announcement, parse_changes, parse_defaults, parse_header, parse_header_fields,
    parse_node_ids, parse_scid, parse_u16_if, parse_u32_if, parse_u64_if, parse_update_head,
    Announcement, Header, GOSSIP_PREFIX, HAS_CLTV_EXPIRY_DELTA, HAS_FEE_BASE_MSAT,
    HAS_FEE_PROPORTIONAL_MILLIONTHS, HAS_HTLC_MAXIMUM_MSAT, HAS_HTLC_MINIMUM_MSAT,
};
use crate::wire::{
    be_value, is_public_key, parse_big_size, parse_bytes, parse_features, parse_node_id, parse_u16,
    parse_u32, parse_u64, parse_u8, parse_uint, Fault, Parsed,
};
use vstd::prelude::*;

verus! {

/// `value` in `width` bytes, its highest digits first.
pub open spec fn number_written(value: nat, width: nat) -> Seq<u8>
    decreases width,
{
    if width == 0 {
        Seq::empty()
    } else {
        number_written(value / 256, (width - 1) as nat).push((value % 256) as u8)
    }
}

/// A number in the shortest of the forms of one, three, five and nine bytes that can hold it.
pub open spec fn size_written(value: u64) -> Seq<u8> {
    if value < 0xFD {
        seq![value as u8]
    } else if value < 0x1_0000 {
        seq![0xFDu8] + number_written(value as nat, 2)
    } else if value < 0x1_0000_0000 {
        seq![0xFEu8] + number_written(value as nat, 4)
    } else {
        seq![0xFFu8] + number_written(value as nat, 8)
    }
}

/// Feature flags: their length, then the flags, the byte with the highest bits first.
pub open spec fn features_written(features: Seq<u8>) -> Seq<u8> {
    number_written(features.len(), 2) + features.reverse()
}

/// Node ids, one after the other.
pub open spec fn node_ids_written(ids: Seq<Seq<u8>>) -> Seq<u8>
    decreases ids.len(),
{
    if ids.len() == 0 {
        Seq::empty()
    } else {
        node_ids_written(ids.drop_last()) + ids.last()
    }
}

/// A header.
pub open spec fn header_written(header: Header) -> Seq<u8> {
    seq![76u8, 68, 75, 1] + (header.chain_hash + (number_written(
        header.latest_seen_timestamp as nat,
        4,
    ) + (number_written(header.node_ids.len(), 4) + node_ids_written(header.node_ids))))
}

/// The announcement of a channel, as it stands in a snapshot: with the places of its nodes in the
/// list of the header.
pub struct ListedAnnouncement {
    pub features: Seq<u8>,
    pub short_channel_id: u64,
    pub one: u64,
    pub two: u64,
}

/// An announcement that follows one of the channel `previous_scid`.
pub open spec fn announcement_written(item: ListedAnnouncement, previous_scid: u64) -> Seq<u8> {
    features_written(item.features) + (size_written((item.short_channel_id - previous_scid) as u64)
        + (size_written(item.one) + size_written(item.two)))
}

/// Terms, all of them.
pub open spec fn policy_written(policy: ChannelPolicy) -> Seq<u8> {
    number_written(policy.cltv_expiry_delta as nat, 2) + (number_written(
        policy.htlc_minimum_msat as nat,
        8,
    ) + (number_written(policy.fee_base_msat as nat, 4) + (number_written(
        policy.fee_proportional_millionths as nat,
        4,
    ) + number_written(policy.htlc_maximum_msat as nat, 8))))
}

/// A number where `given`, otherwise nothing.
pub open spec fn number_written_if(given: bool, value: nat, width: nat) -> Seq<u8> {
    if given {
        number_written(value, width)
    } else {
        Seq::empty()
    }
}

/// Those of the terms that the flags of an update say are given.
pub open spec fn changes_written(policy: ChannelPolicy, flags: u8) -> Seq<u8> {
    number_written_if(flags & 0x40 != 0, policy.cltv_expiry_delta as nat, 2) + (number_written_if(
        flags & 0x20 != 0,
        policy.htlc_minimum_msat as nat,
        8,
    ) + (number_written_if(flags & 0x10 != 0, policy.fee_base_msat as nat, 4) + (number_written_if(
        flags & 0x08 != 0,
        policy.fee_proportional_millionths as nat,
        4,
    ) + number_written_if(flags & 0x04 != 0, policy.htlc_maximum_msat as nat, 8))))
}

/// Whether the terms that the flags of an update do not say are given are those of `base`.
pub open spec fn keeps_the_rest(policy: ChannelPolicy, base: ChannelPolicy, flags: u8) -> bool {
    &&& flags & 0x40 == 0 ==> policy.cltv_expiry_delta == base.cltv_expiry_delta
    &&& flags & 0x20 == 0 ==> policy.htlc_minimum_msat == base.htlc_minimum_msat
    &&& flags & 0x10 == 0 ==> policy.fee_base_msat == base.fee_base_msat
    &&& flags & 0x08 == 0 ==> policy.fee_proportional_millionths
        == base.fee_proportional_millionths
    &&& flags & 0x04 == 0 ==> policy.htlc_maximum_msat == base.htlc_maximum_msat
}

/// The channel and the flags of an update that follows one of the channel `previous_scid`.
pub open spec fn update_head_written(
    short_channel_id: u64,
    flags: u8,
    previous_scid: u64,
) -> Seq<u8> {
    size_written((short_channel_id - previous_scid) as u64) + seq![flags]
}

/// The smallest number that does not fit `width` bytes.
pub open spec fn limit(width: nat) -> nat
    decreases width,
{
    if width == 0 {
        1
    } else {
        256 * limit((width - 1) as nat)
    }
}

pub proof fn lemma_limits()
    ensures
        limit(1) == 0x100,
        limit(2) == 0x1_0000,
        limit(4) == 0x1_0000_0000,
        limit(8) == 0x1_0000_0000_0000_0000,
{
    reveal_with_fuel(limit, 9);
}

proof fn lemma_number_length(value: nat, width: nat)
    ensures
        number_written(value, width).len() == width,
    decreases width,
{
    if width > 0 {
        lemma_number_length(value / 256, (width - 1) as nat);
    }
}

proof fn lemma_written_number_has_its_value(value: nat, width: nat)
    requires
        value < limit(width),
    ensures
        be_value(number_written(value, width)) == value,
    decreases width,
{
    if width > 0 {
        lemma_written_number_has_its_value(value / 256, (width - 1) as nat);
        assert(number_written(value, width).drop_last() =~= number_written(
            value / 256,
            (width - 1) as nat,
        ));
    }
}

proof fn lemma_value_is_written_so(bytes: Seq<u8>)
    ensures
        number_written(be_value(bytes), bytes.len()) == bytes,
        be_value(bytes) < limit(bytes.len()),
    decreases bytes.len(),
{
    if bytes.len() > 0 {
        lemma_value_is_written_so(bytes.drop_last());
        assert(bytes =~= bytes.drop_last().push(bytes.last()));
    } else {
        assert(number_written(0, 0) =~= bytes);
    }
}

/// Bytes are read as they stand: as many as asked for, where there are so many.
pub proof fn bytes_are_read_as_they_stand(s: Seq<u8>, n: nat, bytes: Seq<u8>, rest: Seq<u8>)
    ensures
        parse_bytes(s, n) == Ok::<(Seq<u8>, Seq<u8>), Fault>((bytes, rest)) <==> bytes.len() == n
            && s == bytes + rest,
        parse_bytes(s, n) matches Err(fault) ==> s.len() < n && fault.error
            == DecodeError::ShortRead,
{
    if bytes.len() == n && s == bytes + rest {
        assert(s.take(n as int) =~= bytes);
        assert(s.skip(n as int) =~= rest);
    }
    if s.len() >= n {
        assert(s =~= s.take(n as int) + s.skip(n as int));
    }
}

proof fn lemma_uint_is_read_as_written(s: Seq<u8>, width: nat, value: nat, rest: Seq<u8>)
    requires
        value < limit(width),
    ensures
        parse_uint(s, width) == Ok::<(nat, Seq<u8>), Fault>((value, rest)) <==> s
            == number_written(value, width) + rest,
        parse_uint(s, width) matches Ok((read, _)) ==> read < limit(width),
{
    lemma_number_length(value, width);
    lemma_written_number_has_its_value(value, width);
    bytes_are_read_as_they_stand(s, width, number_written(value, width), rest);
    if let Ok((bytes, left)) = parse_bytes(s, width) {
        bytes_are_read_as_they_stand(s, width, bytes, left);
        lemma_value_is_written_so(bytes);
    }
}

/// Whole numbers are read as they are written, the highest digits first, and fail only where the
/// data ends too early.
pub proof fn numbers_are_read_as_written(
    s: Seq<u8>,
    byte: u8,
    two: u16,
    four: u32,
    eight: u64,
    rest: Seq<u8>,
)
    ensures
        parse_u8(s) == Ok::<(u8, Seq<u8>), Fault>((byte, rest)) <==> s == seq![byte] + rest,
        parse_u16(s) == Ok::<(u16, Seq<u8>), Fault>((two, rest)) <==> s == number_written(
            two as nat,
            2,
        ) + rest,
        parse_u32(s) == Ok::<(u32, Seq<u8>), Fault>((four, rest)) <==> s == number_written(
            four as nat,
            4,
        ) + rest,
        parse_u64(s) == Ok::<(u64, Seq<u8>), Fault>((eight, rest)) <==> s == number_written(
            eight as nat,
            8,
        ) + rest,
        parse_u8(s) matches Err(fault) ==> s.len() < 1 && fault.error == DecodeError::ShortRead,
        parse_u16(s) matches Err(fault) ==> s.len() < 2 && fault.error == DecodeError::ShortRead,
        parse_u32(s) matches Err(fault) ==> s.len() < 4 && fault.error == DecodeError::ShortRead,
        parse_u64(s) matches Err(fault) ==> s.len() < 8 && fault.error == DecodeError::ShortRead,
{
    lemma_limits();
    lemma_uint_is_read_as_written(s, 1, byte as nat, rest);
    lemma_uint_is_read_as_written(s, 2, two as nat, rest);
    lemma_uint_is_read_as_written(s, 4, four as nat, rest);
    lemma_uint_is_read_as_written(s, 8, eight as nat, rest);
    assert(number_written(byte as nat, 1) =~= seq![byte]) by {
        reveal_with_fuel(number_written, 2);
    }
}

/// A variable-length number is read exactly where it is written in the shortest form that can hold
/// it. In a longer form it is refused, once it is read.
#[verifier::rlimit(60)]
#[verifier::spinoff_prover]
pub proof fn sizes_are_read_as_written(s: Seq<u8>, value: u64, rest: Seq<u8>)
    ensures
        parse_big_size(s) == Ok::<(u64, Seq<u8>), Fault>((value, rest)) <==> s == size_written(
            value,
        ) + rest,
        value < 0xFD && s == seq![0xFDu8] + number_written(value as nat, 2) + rest
            ==> parse_big_size(s) == Err::<(u64, Seq<u8>), Fault>(
            Fault { error: DecodeError::InvalidValue, rest },
        ),
        value < 0x1_0000 && s == seq![0xFEu8] + number_written(value as nat, 4) + rest
            ==> parse_big_size(s) == Err::<(u64, Seq<u8>), Fault>(
            Fault { error: DecodeError::InvalidValue, rest },
        ),
        value < 0x1_0000_0000 && s == seq![0xFFu8] + number_written(value as nat, 8) + rest
            ==> parse_big_size(s) == Err::<(u64, Seq<u8>), Fault>(
            Fault { error: DecodeError::InvalidValue, rest },
        ),
        parse_big_size(s) matches Err(fault) ==> fault.error == DecodeError::InvalidValue || (
        fault.error == DecodeError::ShortRead && (s.len() < 1 || (s[0] == 0xFD && s.len() < 3) || (
        s[0] == 0xFE && s.len() < 5) || (s[0] == 0xFF && s.len() < 9))),
{
    lemma_limits();
    if s.len() > 0 {
        let tail = s.skip(1);
        numbers_are_read_as_written(s, s[0], 0, 0, 0, tail);
        assert(s =~= seq![s[0]] + tail);
        lemma_uint_at(tail, 2);
        lemma_uint_at(tail, 4);
        lemma_uint_at(tail, 8);
        if value < limit(2) {
            lemma_uint_is_read_as_written(tail, 2, value as nat, rest);
            if s == seq![0xFDu8] + number_written(value as nat, 2) + rest {
                assert(tail =~= number_written(value as nat, 2) + rest);
            }
        }
        if value < limit(4) {
            lemma_uint_is_read_as_written(tail, 4, value as nat, rest);
            if s == seq![0xFEu8] + number_written(value as nat, 4) + rest {
                assert(tail =~= number_written(value as nat, 4) + rest);
            }
        }
        lemma_uint_is_read_as_written(tail, 8, value as nat, rest);
        if s == seq![0xFFu8] + number_written(value as nat, 8) + rest {
            assert(tail =~= number_written(value as nat, 8) + rest);
        }
        if s == size_written(value) + rest {
            if value < 0xFD {
                assert(tail =~= rest);
            }
        }
        if parse_big_size(s) == Ok::<(u64, Seq<u8>), Fault>((value, rest)) {
            assert(s =~= size_written(value) + rest);
        }
    } else {
        numbers_are_read_as_written(s, 0, 0, 0, 0, s);
        assert(size_written(value).len() > 0);
    }
}

/// The number that `width` bytes at the front of `s` stand for, where there are so many.
proof fn lemma_uint_at(s: Seq<u8>, width: nat)
    ensures
        parse_uint(s, width) matches Ok((value, rest)) ==> value < limit(width) && s
            == number_written(value, width) + rest,
        parse_uint(s, width) matches Err(fault) ==> s.len() < width && fault.error
            == DecodeError::ShortRead,
{
    if let Ok((bytes, rest)) = parse_bytes(s, width) {
        bytes_are_read_as_they_stand(s, width, bytes, rest);
        lemma_value_is_written_so(bytes);
    } else {
        bytes_are_read_as_they_stand(s, width, s, s);
    }
}

/// Feature flags are read as they are written, turned round, and fail only where the data ends too
/// early.
pub proof fn features_are_read_as_written(s: Seq<u8>, features: Seq<u8>, rest: Seq<u8>)
    ensures
        parse_features(s) == Ok::<(Seq<u8>, Seq<u8>), Fault>((features, rest)) <==> features.len()
            < 0x1_0000 && s == features_written(features) + rest,
        parse_features(s) matches Err(fault) ==> fault.error == DecodeError::ShortRead,
{
    if let Ok((len, tail)) = parse_u16(s) {
        numbers_are_read_as_written(s, 0, len, 0, 0, tail);
        if let Ok((flags, left)) = parse_bytes(tail, len as nat) {
            bytes_are_read_as_they_stand(tail, len as nat, flags, left);
            assert(flags.reverse().reverse() =~= flags);
            assert(s =~= features_written(flags.reverse()) + left);
        } else {
            bytes_are_read_as_they_stand(tail, len as nat, tail, tail);
        }
    } else {
        numbers_are_read_as_written(s, 0, 0, 0, 0, s);
    }
    if features.len() < 0x1_0000 && s == features_written(features) + rest {
        let tail = features.reverse() + rest;
        numbers_are_read_as_written(s, 0, features.len() as u16, 0, 0, tail);
        assert(s =~= number_written(features.len(), 2) + tail);
        bytes_are_read_as_they_stand(tail, features.len(), features.reverse(), rest);
        assert(features.reverse().reverse() =~= features);
    }
}

/// A node id is read exactly where there are 33 bytes that are a public key, and as they stand.
/// Bytes that are none are refused, once they are read.
pub proof fn node_id_is_read_as_written(s: Seq<u8>, id: Seq<u8>, rest: Seq<u8>)
    ensures
        parse_node_id(s) == Ok::<(Seq<u8>, Seq<u8>), Fault>((id, rest)) <==> id.len() == 33
            && is_public_key(id) && s == id + rest,
        id.len() == 33 && !is_public_key(id) && s == id + rest ==> parse_node_id(s) == Err::<
            (Seq<u8>, Seq<u8>),
            Fault,
        >(Fault { error: DecodeError::InvalidValue, rest }),
        s.len() < 33 ==> (parse_node_id(s) matches Err(fault) && fault.error
            == DecodeError::ShortRead),
{
    bytes_are_read_as_they_stand(s, 33, id, rest);
    if let Ok((bytes, left)) = parse_bytes(s, 33) {
        bytes_are_read_as_they_stand(s, 33, bytes, left);
    }
}

/// Whether `ids` can be written as node ids.
pub open spec fn node_ids_fit(ids: Seq<Seq<u8>>) -> bool {
    forall|i: int| 0 <= i < ids.len() ==> (#[trigger] ids[i]).len() == 33 && is_public_key(ids[i])
}

/// Node ids are read exactly where they are written one after the other, in their order.
pub proof fn node_ids_are_read_as_written(
    s: Seq<u8>,
    count: nat,
    ids: Seq<Seq<u8>>,
    rest: Seq<u8>,
)
    ensures
        parse_node_ids(s, count) == Ok::<(Seq<Seq<u8>>, Seq<u8>), Fault>((ids, rest)) <==> ids.len()
            == count && node_ids_fit(ids) && s == node_ids_written(ids) + rest,
    decreases count,
{
    if count == 0 {
        if ids.len() == 0 {
            assert(ids =~= Seq::empty());
            assert(node_ids_written(ids) + rest =~= rest);
        }
        assert(node_ids_written(Seq::<Seq<u8>>::empty()) + rest =~= rest);
    } else {
        let before = (count - 1) as nat;
        if let Ok((read, tail)) = parse_node_ids(s, before) {
            node_ids_are_read_as_written(s, before, read, tail);
            if let Ok((id, left)) = parse_node_id(tail) {
                node_id_is_read_as_written(tail, id, left);
                let all = read.push(id);
                assert(all.drop_last() =~= read);
                assert(s =~= node_ids_written(all) + left);
            }
        }
        if ids.len() == count && node_ids_fit(ids) && s == node_ids_written(ids) + rest {
            let tail = ids.last() + rest;
            assert(s =~= node_ids_written(ids.drop_last()) + tail);
            node_ids_are_read_as_written(s, before, ids.drop_last(), tail);
            node_id_is_read_as_written(tail, ids.last(), rest);
            assert(ids.drop_last().push(ids.last()) =~= ids);
        }
    }
}

/// Node ids of which one is no public key are refused there.
pub proof fn node_ids_have_to_be_public_keys(
    ids: Seq<Seq<u8>>,
    other: Seq<u8>,
    rest: Seq<u8>,
    count: nat,
)
    requires
        node_ids_fit(ids),
        ids.len() < count,
        other.len() == 33,
        !is_public_key(other),
    ensures
        parse_node_ids(node_ids_written(ids) + (other + rest), count) == Err::<
            (Seq<Seq<u8>>, Seq<u8>),
            Fault,
        >(Fault { error: DecodeError::InvalidValue, rest }),
    decreases count,
{
    let s = node_ids_written(ids) + (other + rest);
    if ids.len() + 1 < count {
        node_ids_have_to_be_public_keys(ids, other, rest, (count - 1) as nat);
    } else {
        node_ids_are_read_as_written(s, ids.len(), ids, other + rest);
        node_id_is_read_as_written(other + rest, other, rest);
    }
}

/// Where an id of the list stands among the bytes.
pub proof fn node_ids_stand_in_their_places(ids: Seq<Seq<u8>>, i: int)
    requires
        node_ids_fit(ids),
        0 <= i < ids.len(),
    ensures
        node_ids_written(ids).len() == 33 * ids.len(),
        node_ids_written(ids).subrange(33 * i, 33 * i + 33) == ids[i],
    decreases ids.len(),
{
    let shorter = ids.drop_last();
    if shorter.len() > 0 {
        node_ids_stand_in_their_places(shorter, if i < shorter.len() { i } else { 0 });
    } else {
        assert(node_ids_written(shorter) =~= Seq::empty());
    }
    assert(ids.last().len() == 33);
    assert(node_ids_written(ids).subrange(33 * i, 33 * i + 33) =~= ids[i]) by {
        if i < shorter.len() {
            assert(node_ids_written(ids).subrange(33 * i, 33 * i + 33) =~= node_ids_written(
                shorter,
            ).subrange(33 * i, 33 * i + 33));
        }
    }
}

proof fn lemma_regroup(a: Seq<u8>, b: Seq<u8>, c: Seq<u8>)
    ensures
        a + b + c == a + (b + c),
{
    assert(a + b + c =~= a + (b + c));
}

proof fn lemma_read_header_was_written(data: Seq<u8>)
    requires
        parse_header(data) is Ok,
    ensures
        ({
            let (header, rest) = parse_header(data)->Ok_0;
            &&& header.chain_hash.len() == 32
            &&& header.node_ids.len() < 0x1_0000_0000
            &&& node_ids_fit(header.node_ids)
            &&& data == header_written(header) + rest
        }),
{
    let prefix = seq![76u8, 68, 75, 1];
    assert(GOSSIP_PREFIX@ =~= prefix);
    let (header, rest) = parse_header(data)->Ok_0;
    let s = data.skip(4);
    assert(data =~= prefix + s);
    let (hash, s1) = parse_bytes(s, 32)->Ok_0;
    bytes_are_read_as_they_stand(s, 32, hash, s1);
    let (timestamp, s2) = parse_u32(s1)->Ok_0;
    numbers_are_read_as_written(s1, 0, 0, timestamp, 0, s2);
    let (count, s3) = parse_u32(s2)->Ok_0;
    numbers_are_read_as_written(s2, 0, 0, count, 0, s3);
    node_ids_are_read_as_written(s3, count as nat, header.node_ids, rest);
    lemma_regroup_header(header, rest);
}

proof fn lemma_regroup_header(header: Header, rest: Seq<u8>)
    ensures
        header_written(header) + rest == seq![76u8, 68, 75, 1] + (header.chain_hash + (
        number_written(header.latest_seen_timestamp as nat, 4) + (number_written(
            header.node_ids.len(),
            4,
        ) + (node_ids_written(header.node_ids) + rest)))),
{
    let ids = node_ids_written(header.node_ids);
    let count = number_written(header.node_ids.len(), 4);
    let time = number_written(header.latest_seen_timestamp as nat, 4);
    lemma_regroup(count, ids, rest);
    lemma_regroup(time, count + ids, rest);
    lemma_regroup(header.chain_hash, time + (count + ids), rest);
    lemma_regroup(seq![76u8, 68, 75, 1], header.chain_hash + (time + (count + ids)), rest);
}

proof fn lemma_written_header_is_read(header: Header, rest: Seq<u8>)
    requires
        header.chain_hash.len() == 32,
        header.node_ids.len() < 0x1_0000_0000,
        node_ids_fit(header.node_ids),
    ensures
        parse_header(header_written(header) + rest) == Ok::<(Header, Seq<u8>), Fault>(
            (header, rest),
        ),
{
    let prefix = seq![76u8, 68, 75, 1];
    assert(GOSSIP_PREFIX@ =~= prefix);
    let data = header_written(header) + rest;
    lemma_regroup_header(header, rest);
    let count = header.node_ids.len();
    let s3 = node_ids_written(header.node_ids) + rest;
    let s2 = number_written(count, 4) + s3;
    let s1 = number_written(header.latest_seen_timestamp as nat, 4) + s2;
    let s = header.chain_hash + s1;
    assert(data.take(4) =~= prefix);
    assert(data.skip(4) =~= s);
    bytes_are_read_as_they_stand(s, 32, header.chain_hash, s1);
    numbers_are_read_as_written(s1, 0, 0, header.latest_seen_timestamp, 0, s2);
    numbers_are_read_as_written(s2, 0, 0, count as u32, 0, s3);
    node_ids_are_read_as_written(s3, count, header.node_ids, rest);
    assert(parse_header_fields(s) == Ok::<(Header, Seq<u8>), Fault>((header, rest)));
}

/// A header is read exactly where it is written: the prefix, the hash of the chain, the timestamp,
/// and the node ids after their number.
pub proof fn header_is_read_as_written(data: Seq<u8>, header: Header, rest: Seq<u8>)
    ensures
        parse_header(data) == Ok::<(Header, Seq<u8>), Fault>((header, rest)) <==> {
            &&& header.chain_hash.len() == 32
            &&& header.node_ids.len() < 0x1_0000_0000
            &&& node_ids_fit(header.node_ids)
            &&& data == header_written(header) + rest
        },
{
    if let Ok((read, left)) = parse_header(data) {
        lemma_read_header_was_written(data);
    }
    if header.chain_hash.len() == 32 && header.node_ids.len() < 0x1_0000_0000 && node_ids_fit(
        header.node_ids,
    ) && data == header_written(header) + rest {
        lemma_written_header_is_read(header, rest);
    }
}

/// A short channel id is read exactly where its distance from the one before is written. One that
/// does not fit 64 bits is refused, once it is read.
pub proof fn short_channel_id_is_the_sum(
    s: Seq<u8>,
    previous_scid: u64,
    short_channel_id: u64,
    delta: u64,
    rest: Seq<u8>,
)
    ensures
        parse_scid(s, previous_scid) == Ok::<(u64, Seq<u8>), Fault>((short_channel_id, rest))
            <==> previous_scid <= short_channel_id && s == size_written(
            (short_channel_id - previous_scid) as u64,
        ) + rest,
        s == size_written(delta) + rest ==> parse_scid(s, previous_scid) == if previous_scid + delta
            <= 0xFFFF_FFFF_FFFF_FFFF {
            Ok::<(u64, Seq<u8>), Fault>(((previous_scid + delta) as u64, rest))
        } else {
            Err::<(u64, Seq<u8>), Fault>(Fault { error: DecodeError::InvalidValue, rest })
        },
{
    sizes_are_read_as_written(s, delta, rest);
    if previous_scid <= short_channel_id {
        sizes_are_read_as_written(s, (short_channel_id - previous_scid) as u64, rest);
    }
    if let Ok((read, left)) = parse_big_size(s) {
        sizes_are_read_as_written(s, read, left);
    }
}

proof fn lemma_regroup_announcement(item: ListedAnnouncement, previous_scid: u64, rest: Seq<u8>)
    ensures
        announcement_written(item, previous_scid) + rest == features_written(item.features) + (
        size_written((item.short_channel_id - previous_scid) as u64) + (size_written(item.one) + (
        size_written(item.two) + rest))),
{
    let delta = size_written((item.short_channel_id - previous_scid) as u64);
    let one = size_written(item.one);
    let two = size_written(item.two);
    lemma_regroup(one, two, rest);
    lemma_regroup(delta, one + two, rest);
    lemma_regroup(features_written(item.features), delta + (one + two), rest);
}

/// Whether an announcement can be written after one of the channel `previous_scid`.
pub open spec fn announcement_fits(item: ListedAnnouncement, previous_scid: u64) -> bool {
    item.features.len() < 0x1_0000 && previous_scid <= item.short_channel_id
}

/// A written announcement is read: of the channel with that id, between the nodes whose ids stand
/// in the given places of the list, each on its own. Where the list has no such place, it is
/// refused, once it is read.
#[verifier::rlimit(60)]
#[verifier::spinoff_prover]
pub proof fn written_announcement_is_read(
    item: ListedAnnouncement,
    previous_scid: u64,
    ids: Seq<Seq<u8>>,
    rest: Seq<u8>,
)
    requires
        announcement_fits(item, previous_scid),
    ensures
        parse_announcement(announcement_written(item, previous_scid) + rest, previous_scid, ids)
            == if item.one < ids.len() && item.two < ids.len() {
            Ok::<(Announcement, Seq<u8>), Fault>(
                (
                    Announcement {
                        features: item.features,
                        short_channel_id: item.short_channel_id,
                        node_one: ids[item.one as int],
                        node_two: ids[item.two as int],
                    },
                    rest,
                ),
            )
        } else {
            Err::<(Announcement, Seq<u8>), Fault>(
                Fault { error: DecodeError::InvalidValue, rest },
            )
        },
{
    lemma_regroup_announcement(item, previous_scid, rest);
    let s3 = size_written(item.two) + rest;
    let s2 = size_written(item.one) + s3;
    let s1 = size_written((item.short_channel_id - previous_scid) as u64) + s2;
    features_are_read_as_written(features_written(item.features) + s1, item.features, s1);
    short_channel_id_is_the_sum(s1, previous_scid, item.short_channel_id, 0, s2);
    sizes_are_read_as_written(s2, item.one, s3);
    sizes_are_read_as_written(s3, item.two, rest);
}

/// An announcement that is read was written so.
#[verifier::rlimit(60)]
#[verifier::spinoff_prover]
pub proof fn read_announcement_was_written(
    s: Seq<u8>,
    previous_scid: u64,
    ids: Seq<Seq<u8>>,
) -> (item: ListedAnnouncement)
    requires
        parse_announcement(s, previous_scid, ids) is Ok,
    ensures
        announcement_fits(item, previous_scid),
        item.one < ids.len(),
        item.two < ids.len(),
        ({
            let (announced, rest) = parse_announcement(s, previous_scid, ids)->Ok_0;
            &&& s == announcement_written(item, previous_scid) + rest
            &&& announced.features == item.features
            &&& announced.short_channel_id == item.short_channel_id
            &&& announced.node_one == ids[item.one as int]
            &&& announced.node_two == ids[item.two as int]
        }),
{
    let (features, s1) = parse_features(s)->Ok_0;
    features_are_read_as_written(s, features, s1);
    let (short_channel_id, s2) = parse_scid(s1, previous_scid)->Ok_0;
    short_channel_id_is_the_sum(s1, previous_scid, short_channel_id, 0, s2);
    let (one, s3) = parse_big_size(s2)->Ok_0;
    sizes_are_read_as_written(s2, one, s3);
    let (two, rest) = parse_big_size(s3)->Ok_0;
    sizes_are_read_as_written(s3, two, rest);
    let item = ListedAnnouncement { features, short_channel_id, one, two };
    lemma_regroup_announcement(item, previous_scid, rest);
    item
}

proof fn lemma_regroup_five(
    a: Seq<u8>,
    b: Seq<u8>,
    c: Seq<u8>,
    d: Seq<u8>,
    e: Seq<u8>,
    rest: Seq<u8>,
)
    ensures
        a + (b + (c + (d + e))) + rest == a + (b + (c + (d + (e + rest)))),
{
    lemma_regroup(d, e, rest);
    lemma_regroup(c, d + e, rest);
    lemma_regroup(b, c + (d + e), rest);
    lemma_regroup(a, b + (c + (d + e)), rest);
}

proof fn lemma_regroup_policy(policy: ChannelPolicy, rest: Seq<u8>)
    ensures
        policy_written(policy) + rest == number_written(policy.cltv_expiry_delta as nat, 2) + (
        number_written(policy.htlc_minimum_msat as nat, 8) + (number_written(
            policy.fee_base_msat as nat,
            4,
        ) + (number_written(policy.fee_proportional_millionths as nat, 4) + (number_written(
            policy.htlc_maximum_msat as nat,
            8,
        ) + rest)))),
{
    lemma_regroup_five(
        number_written(policy.cltv_expiry_delta as nat, 2),
        number_written(policy.htlc_minimum_msat as nat, 8),
        number_written(policy.fee_base_msat as nat, 4),
        number_written(policy.fee_proportional_millionths as nat, 4),
        number_written(policy.htlc_maximum_msat as nat, 8),
        rest,
    );
}

proof fn lemma_written_defaults_are_read(policy: ChannelPolicy, rest: Seq<u8>)
    ensures
        parse_defaults(policy_written(policy) + rest) == Ok::<(ChannelPolicy, Seq<u8>), Fault>(
            (policy, rest),
        ),
{
    lemma_regroup_policy(policy, rest);
    let s4 = number_written(policy.htlc_maximum_msat as nat, 8) + rest;
    let s3 = number_written(policy.fee_proportional_millionths as nat, 4) + s4;
    let s2 = number_written(policy.fee_base_msat as nat, 4) + s3;
    let s1 = number_written(policy.htlc_minimum_msat as nat, 8) + s2;
    let s = number_written(policy.cltv_expiry_delta as nat, 2) + s1;
    numbers_are_read_as_written(s, 0, policy.cltv_expiry_delta, 0, 0, s1);
    numbers_are_read_as_written(s1, 0, 0, 0, policy.htlc_minimum_msat, s2);
    numbers_are_read_as_written(s2, 0, 0, policy.fee_base_msat, 0, s3);
    numbers_are_read_as_written(s3, 0, 0, policy.fee_proportional_millionths, 0, s4);
    numbers_are_read_as_written(s4, 0, 0, 0, policy.htlc_maximum_msat, rest);
}

proof fn lemma_read_defaults_were_written(s: Seq<u8>)
    ensures
        parse_defaults(s) matches Ok((policy, rest)) ==> s == policy_written(policy) + rest,
        parse_defaults(s) matches Err(fault) ==> s.len() < 26 && fault.error
            == DecodeError::ShortRead,
{
    if let Ok((cltv, s1)) = parse_u16(s) {
        numbers_are_read_as_written(s, 0, cltv, 0, 0, s1);
        if let Ok((minimum, s2)) = parse_u64(s1) {
            numbers_are_read_as_written(s1, 0, 0, 0, minimum, s2);
            if let Ok((base, s3)) = parse_u32(s2) {
                numbers_are_read_as_written(s2, 0, 0, base, 0, s3);
                if let Ok((proportional, s4)) = parse_u32(s3) {
                    numbers_are_read_as_written(s3, 0, 0, proportional, 0, s4);
                    if let Ok((maximum, rest)) = parse_u64(s4) {
                        numbers_are_read_as_written(s4, 0, 0, 0, maximum, rest);
                        lemma_regroup_policy(parse_defaults(s)->Ok_0.0, rest);
                    } else {
                        numbers_are_read_as_written(s4, 0, 0, 0, 0, s4);
                    }
                } else {
                    numbers_are_read_as_written(s3, 0, 0, 0, 0, s3);
                }
            } else {
                numbers_are_read_as_written(s2, 0, 0, 0, 0, s2);
            }
        } else {
            numbers_are_read_as_written(s1, 0, 0, 0, 0, s1);
        }
    } else {
        numbers_are_read_as_written(s, 0, 0, 0, 0, s);
    }
}

/// The terms that full updates fall back on are read as they are written: two bytes, eight, four,
/// four and eight. They fail only where the data ends too early.
pub proof fn defaults_are_read_as_written(s: Seq<u8>, policy: ChannelPolicy, rest: Seq<u8>)
    ensures
        parse_defaults(s) == Ok::<(ChannelPolicy, Seq<u8>), Fault>((policy, rest)) <==> s
            == policy_written(policy) + rest,
        parse_defaults(s) matches Err(fault) ==> s.len() < 26 && fault.error
            == DecodeError::ShortRead,
{
    lemma_read_defaults_were_written(s);
    lemma_written_defaults_are_read(policy, rest);
}

/// The channel and the flags of an update are read as they are written.
pub proof fn update_head_is_read_as_written(
    s: Seq<u8>,
    previous_scid: u64,
    short_channel_id: u64,
    flags: u8,
    rest: Seq<u8>,
)
    ensures
        parse_update_head(s, previous_scid) == Ok::<((u64, u8), Seq<u8>), Fault>(
            ((short_channel_id, flags), rest),
        ) <==> previous_scid <= short_channel_id && s == update_head_written(
            short_channel_id,
            flags,
            previous_scid,
        ) + rest,
{
    if let Ok((scid, s1)) = parse_scid(s, previous_scid) {
        short_channel_id_is_the_sum(s, previous_scid, scid, 0, s1);
        if let Ok((read, left)) = parse_u8(s1) {
            numbers_are_read_as_written(s1, read, 0, 0, 0, left);
            lemma_regroup(size_written((scid - previous_scid) as u64), seq![read], left);
        }
    }
    if previous_scid <= short_channel_id {
        let s1 = seq![flags] + rest;
        let delta = size_written((short_channel_id - previous_scid) as u64);
        lemma_regroup(delta, seq![flags], rest);
        short_channel_id_is_the_sum(delta + s1, previous_scid, short_channel_id, 0, s1);
        numbers_are_read_as_written(s1, flags, 0, 0, 0, rest);
    }
}

proof fn lemma_numbers_if(
    s: Seq<u8>,
    given: bool,
    current: ChannelPolicy,
    policy: ChannelPolicy,
    rest: Seq<u8>,
)
    ensures
        parse_u16_if(s, given, current.cltv_expiry_delta) == Ok::<(u16, Seq<u8>), Fault>(
            (policy.cltv_expiry_delta, rest),
        ) <==> (given || policy.cltv_expiry_delta == current.cltv_expiry_delta) && s
            == number_written_if(given, policy.cltv_expiry_delta as nat, 2) + rest,
        parse_u64_if(s, given, current.htlc_minimum_msat) == Ok::<(u64, Seq<u8>), Fault>(
            (policy.htlc_minimum_msat, rest),
        ) <==> (given || policy.htlc_minimum_msat == current.htlc_minimum_msat) && s
            == number_written_if(given, policy.htlc_minimum_msat as nat, 8) + rest,
        parse_u32_if(s, given, current.fee_base_msat) == Ok::<(u32, Seq<u8>), Fault>(
            (policy.fee_base_msat, rest),
        ) <==> (given || policy.fee_base_msat == current.fee_base_msat) && s == number_written_if(
            given,
            policy.fee_base_msat as nat,
            4,
        ) + rest,
        parse_u32_if(s, given, current.fee_proportional_millionths) == Ok::<(u32, Seq<u8>), Fault>(
            (policy.fee_proportional_millionths, rest),
        ) <==> (given || policy.fee_proportional_millionths == current.fee_proportional_millionths)
            && s == number_written_if(given, policy.fee_proportional_millionths as nat, 4) + rest,
        parse_u64_if(s, given, current.htlc_maximum_msat) == Ok::<(u64, Seq<u8>), Fault>(
            (policy.htlc_maximum_msat, rest),
        ) <==> (given || policy.htlc_maximum_msat == current.htlc_maximum_msat) && s
            == number_written_if(given, policy.htlc_maximum_msat as nat, 8) + rest,
{
    assert(Seq::<u8>::empty() + rest =~= rest);
    numbers_are_read_as_written(
        s,
        0,
        policy.cltv_expiry_delta,
        policy.fee_base_msat,
        policy.htlc_minimum_msat,
        rest,
    );
    numbers_are_read_as_written(
        s,
        0,
        0,
        policy.fee_proportional_millionths,
        policy.htlc_maximum_msat,
        rest,
    );
}

proof fn lemma_regroup_changes(policy: ChannelPolicy, flags: u8, rest: Seq<u8>)
    ensures
        changes_written(policy, flags) + rest == number_written_if(
            flags & 0x40 != 0,
            policy.cltv_expiry_delta as nat,
            2,
        ) + (number_written_if(flags & 0x20 != 0, policy.htlc_minimum_msat as nat, 8) + (
        number_written_if(flags & 0x10 != 0, policy.fee_base_msat as nat, 4) + (number_written_if(
            flags & 0x08 != 0,
            policy.fee_proportional_millionths as nat,
            4,
        ) + (number_written_if(flags & 0x04 != 0, policy.htlc_maximum_msat as nat, 8) + rest)))),
{
    lemma_regroup_five(
        number_written_if(flags & 0x40 != 0, policy.cltv_expiry_delta as nat, 2),
        number_written_if(flags & 0x20 != 0, policy.htlc_minimum_msat as nat, 8),
        number_written_if(flags & 0x10 != 0, policy.fee_base_msat as nat, 4),
        number_written_if(flags & 0x08 != 0, policy.fee_proportional_millionths as nat, 4),
        number_written_if(flags & 0x04 != 0, policy.htlc_maximum_msat as nat, 8),
        rest,
    );
}

proof fn lemma_written_changes_are_read(
    policy: ChannelPolicy,
    base: ChannelPolicy,
    flags: u8,
    rest: Seq<u8>,
)
    requires
        keeps_the_rest(policy, base, flags),
    ensures
        parse_changes(changes_written(policy, flags) + rest, flags, base) == Ok::<
            (ChannelPolicy, Seq<u8>),
            Fault,
        >((policy, rest)),
{
    lemma_regroup_changes(policy, flags, rest);
    let s4 = number_written_if(flags & 0x04 != 0, policy.htlc_maximum_msat as nat, 8) + rest;
    let s3 = number_written_if(flags & 0x08 != 0, policy.fee_proportional_millionths as nat, 4)
        + s4;
    let s2 = number_written_if(flags & 0x10 != 0, policy.fee_base_msat as nat, 4) + s3;
    let s1 = number_written_if(flags & 0x20 != 0, policy.htlc_minimum_msat as nat, 8) + s2;
    let s = number_written_if(flags & 0x40 != 0, policy.cltv_expiry_delta as nat, 2) + s1;
    lemma_numbers_if(s, flags & 0x40 != 0, base, policy, s1);
    lemma_numbers_if(s1, flags & 0x20 != 0, base, policy, s2);
    lemma_numbers_if(s2, flags & 0x10 != 0, base, policy, s3);
    lemma_numbers_if(s3, flags & 0x08 != 0, base, policy, s4);
    lemma_numbers_if(s4, flags & 0x04 != 0, base, policy, rest);
}

proof fn lemma_read_changes_were_written(s: Seq<u8>, base: ChannelPolicy, flags: u8)
    requires
        parse_changes(s, flags, base) is Ok,
    ensures
        ({
            let (policy, rest) = parse_changes(s, flags, base)->Ok_0;
            keeps_the_rest(policy, base, flags) && s == changes_written(policy, flags) + rest
        }),
{
    let (policy, rest) = parse_changes(s, flags, base)->Ok_0;
    let s1 = parse_u16_if(s, flags & HAS_CLTV_EXPIRY_DELTA > 0, base.cltv_expiry_delta)->Ok_0.1;
    let s2 = parse_u64_if(s1, flags & HAS_HTLC_MINIMUM_MSAT > 0, base.htlc_minimum_msat)->Ok_0.1;
    let s3 = parse_u32_if(s2, flags & HAS_FEE_BASE_MSAT > 0, base.fee_base_msat)->Ok_0.1;
    let s4 = parse_u32_if(
        s3,
        flags & HAS_FEE_PROPORTIONAL_MILLIONTHS > 0,
        base.fee_proportional_millionths,
    )->Ok_0.1;
    lemma_numbers_if(s, flags & 0x40 != 0, base, policy, s1);
    lemma_numbers_if(s1, flags & 0x20 != 0, base, policy, s2);
    lemma_numbers_if(s2, flags & 0x10 != 0, base, policy, s3);
    lemma_numbers_if(s3, flags & 0x08 != 0, base, policy, s4);
    lemma_numbers_if(s4, flags & 0x04 != 0, base, policy, rest);
    assert(parse_u64_if(s4, flags & HAS_HTLC_MAXIMUM_MSAT > 0, base.htlc_maximum_msat) is Ok);
    lemma_regroup_changes(policy, flags, rest);
}

/// What an update gives is read as it is written, whether the update is full or incremental: each
/// of the terms that its flags say are given is the number that stands for it in the data, and
/// each of the others is that of `base`.
pub proof fn changes_are_read_as_written(
    s: Seq<u8>,
    flags: u8,
    base: ChannelPolicy,
    policy: ChannelPolicy,
    rest: Seq<u8>,
)
    ensures
        parse_changes(s, flags, base) == Ok::<(ChannelPolicy, Seq<u8>), Fault>((policy, rest))
            <==> keeps_the_rest(policy, base, flags) && s == changes_written(policy, flags) + rest,
{
    if keeps_the_rest(policy, base, flags) {
        lemma_written_changes_are_read(policy, base, flags, rest);
    }
    if parse_changes(s, flags, base) is Ok {
        lemma_read_changes_were_written(s, base, flags);
    }
}

/// What reading a value off written bytes that are cut comes to: it runs out of them.
proof fn lemma_cut_runs_out<T>(
    written: Seq<u8>,
    kept: int,
    short: Parsed<T>,
    long: Parsed<T>,
    value: T,
)
    requires
        0 <= kept < written.len(),
        grows(short, long, written.skip(kept)),
        long == Ok::<(T, Seq<u8>), Fault>((value, Seq::empty())),
    ensures
        short matches Err(fault) && fault.error == DecodeError::ShortRead,
{
    if long == parsed_with(short, written.skip(kept)) {
        if let Ok((_, rest)) = short {
            assert((rest + written.skip(kept)).len() > 0);
        }
    }
}

/// A header that is cut anywhere after the prefix is too short.
#[verifier::rlimit(60)]
#[verifier::spinoff_prover]
pub proof fn cut_header_is_too_short(header: Header, kept: int)
    requires
        header.chain_hash.len() == 32,
        header.node_ids.len() < 0x1_0000_0000,
        node_ids_fit(header.node_ids),
        4 <= kept < header_written(header).len(),
    ensures
        parse_header(header_written(header).take(kept)) matches Err(fault) && fault.error
            == DecodeError::ShortRead,
{
    let w = header_written(header);
    header_is_read_as_written(w, header, Seq::empty());
    assert(w + Seq::<u8>::empty() =~= w);
    lemma_header_grows(w.take(kept), w.skip(kept));
    assert(w.take(kept) + w.skip(kept) =~= w);
    lemma_cut_runs_out(w, kept, parse_header(w.take(kept)), parse_header(w), header);
}

/// An announcement that is cut anywhere is too short.
#[verifier::rlimit(60)]
#[verifier::spinoff_prover]
pub proof fn cut_announcement_is_too_short(
    item: ListedAnnouncement,
    previous_scid: u64,
    ids: Seq<Seq<u8>>,
    kept: int,
)
    requires
        announcement_fits(item, previous_scid),
        item.one < ids.len(),
        item.two < ids.len(),
        0 <= kept < announcement_written(item, previous_scid).len(),
    ensures
        parse_announcement(
            announcement_written(item, previous_scid).take(kept),
            previous_scid,
            ids,
        ) matches Err(fault) && fault.error == DecodeError::ShortRead,
{
    let w = announcement_written(item, previous_scid);
    let announced = Announcement {
        features: item.features,
        short_channel_id: item.short_channel_id,
        node_one: ids[item.one as int],
        node_two: ids[item.two as int],
    };
    assert(w + Seq::<u8>::empty() =~= w);
    written_announcement_is_read(item, previous_scid, ids, Seq::empty());
    lemma_cut_announcement(w, previous_scid, ids, kept, announced);
}

proof fn lemma_cut_announcement(
    w: Seq<u8>,
    previous_scid: u64,
    ids: Seq<Seq<u8>>,
    kept: int,
    announced: Announcement,
)
    requires
        parse_announcement(w, previous_scid, ids) == Ok::<(Announcement, Seq<u8>), Fault>(
            (announced, Seq::empty()),
        ),
        0 <= kept < w.len(),
    ensures
        parse_announcement(w.take(kept), previous_scid, ids) matches Err(fault) && fault.error
            == DecodeError::ShortRead,
{
    let short = parse_announcement(w.take(kept), previous_scid, ids);
    let long = parse_announcement(w, previous_scid, ids);
    assert(grows(short, long, w.skip(kept))) by {
        assert(w.take(kept) + w.skip(kept) =~= w);
        lemma_announcement_grows(w.take(kept), w.skip(kept), previous_scid, ids);
    }
    lemma_cut_runs_out(w, kept, short, long, announced);
}

/// The channel and the flags of an update that are cut anywhere are too short.
#[verifier::rlimit(60)]
#[verifier::spinoff_prover]
pub proof fn cut_update_head_is_too_short(
    short_channel_id: u64,
    flags: u8,
    previous_scid: u64,
    kept: int,
)
    requires
        previous_scid <= short_channel_id,
        0 <= kept < update_head_written(short_channel_id, flags, previous_scid).len(),
    ensures
        parse_update_head(
            update_head_written(short_channel_id, flags, previous_scid).take(kept),
            previous_scid,
        ) matches Err(fault) && fault.error == DecodeError::ShortRead,
{
    let w = update_head_written(short_channel_id, flags, previous_scid);
    update_head_is_read_as_written(w, previous_scid, short_channel_id, flags, Seq::empty());
    assert(w + Seq::<u8>::empty() =~= w);
    lemma_update_head_grows(w.take(kept), w.skip(kept), previous_scid);
    assert(w.take(kept) + w.skip(kept) =~= w);
    lemma_cut_runs_out(
        w,
        kept,
        parse_update_head(w.take(kept), previous_scid),
        parse_update_head(w, previous_scid),
        (short_channel_id, flags),
    );
}

/// What an update gives is too short if it is cut anywhere.
#[verifier::rlimit(60)]
#[verifier::spinoff_prover]
pub proof fn cut_changes_are_too_short(
    policy: ChannelPolicy,
    base: ChannelPolicy,
    flags: u8,
    kept: int,
)
    requires
        keeps_the_rest(policy, base, flags),
        0 <= kept < changes_written(policy, flags).len(),
    ensures
        parse_changes(changes_written(policy, flags).take(kept), flags, base) matches Err(fault)
            && fault.error == DecodeError::ShortRead,
{
    let w = changes_written(policy, flags);
    changes_are_read_as_written(w, flags, base, policy, Seq::empty());
    assert(w + Seq::<u8>::empty() =~= w);
    lemma_changes_grow(w.take(kept), w.skip(kept), flags, base);
    assert(w.take(kept) + w.skip(kept) =~= w);
    lemma_cut_runs_out(
        w,
        kept,
        parse_changes(w.take(kept), flags, base),
        parse_changes(w, flags, base),
        policy,
    );
}

/// What bytes stand for, digit by digit.
pub proof fn bytes_stand_for_their_digits(bytes: Seq<u8>)
    ensures
        bytes.len() == 1 ==> be_value(bytes) == bytes[0],
        bytes.len() == 2 ==> be_value(bytes) == bytes[0] * 0x100 + bytes[1],
        bytes.len() == 4 ==> be_value(bytes) == bytes[0] * 0x100_0000 + bytes[1] * 0x1_0000
            + bytes[2] * 0x100 + bytes[3],
        bytes.len() == 8 ==> be_value(bytes) == bytes[0] * 0x100_0000_0000_0000 + bytes[1]
            * 0x1_0000_0000_0000 + bytes[2] * 0x100_0000_0000 + bytes[3] * 0x1_0000_0000 + bytes[4]
            * 0x100_0000 + bytes[5] * 0x1_0000 + bytes[6] * 0x100 + bytes[7],
{
    reveal_with_fuel(be_value, 9);
}

/// The bytes of a number that `s` starts with stand for it.
proof fn lemma_number_stands_in_front(s: Seq<u8>, value: nat, width: nat, rest: Seq<u8>)
    requires
        value < limit(width),
        s == number_written(value, width) + rest,
    ensures
        s.len() == width + rest.len(),
        be_value(s.subrange(0, width as int)) == value,
        s.subrange(width as int, s.len() as int) == rest,
{
    lemma_number_length(value, width);
    lemma_written_number_has_its_value(value, width);
    assert(s.subrange(0, width as int) =~= number_written(value, width));
    assert(s.subrange(width as int, s.len() as int) =~= rest);
}

/// The number at the place `at`.
pub open spec fn number_at(s: Seq<u8>, at: int, width: int) -> nat {
    be_value(s.subrange(at, at + width))
}

/// A number that is written at the place `at` stands there.
pub proof fn lemma_number_stands_at(
    data: Seq<u8>,
    at: int,
    s: Seq<u8>,
    value: nat,
    width: nat,
    rest: Seq<u8>,
)
    requires
        value < limit(width),
        0 <= at <= data.len(),
        data.skip(at) == s,
        s == number_written(value, width) + rest,
    ensures
        at + width + rest.len() == data.len(),
        number_at(data, at, width as int) == value,
        data.skip(at + width) == rest,
{
    lemma_number_stands_in_front(s, value, width, rest);
    assert(data.subrange(at, at + width) =~= s.subrange(0, width as int));
    assert(data.skip(at + width) =~= rest);
}

/// Where the parts of a header stand: the hash of the chain from byte 4 on, the timestamp from byte
/// 36 on, the number of node ids from byte 40 on, and the ids from byte 44 on, of 33 bytes each.
#[verifier::rlimit(60)]
#[verifier::spinoff_prover]
pub proof fn header_stands_in_its_places(data: Seq<u8>, i: int)
    requires
        parse_header(data) is Ok,
    ensures
        parse_header(data) matches Ok((header, rest)) && {
            &&& data.subrange(0, 4) == seq![76u8, 68, 75, 1]
            &&& header.chain_hash == data.subrange(4, 36)
            &&& header.latest_seen_timestamp == number_at(data, 36, 4)
            &&& header.node_ids.len() == number_at(data, 40, 4)
            &&& data.len() == 44 + 33 * header.node_ids.len() + rest.len()
            &&& 0 <= i < header.node_ids.len() ==> header.node_ids[i] == data.subrange(
                44 + 33 * i,
                77 + 33 * i,
            )
        },
{
    let (header, rest) = parse_header(data)->Ok_0;
    header_is_read_as_written(data, header, rest);
    lemma_regroup_header(header, rest);
    lemma_limits();
    let ids = node_ids_written(header.node_ids);
    let s3 = ids + rest;
    let s2 = number_written(header.node_ids.len(), 4) + s3;
    let s1 = number_written(header.latest_seen_timestamp as nat, 4) + s2;
    let prefix = seq![76u8, 68, 75, 1];
    assert(data.subrange(0, 4) =~= prefix);
    assert(data.subrange(4, 36) =~= header.chain_hash);
    assert(data.skip(36) =~= s1);
    lemma_number_stands_at(data, 36, s1, header.latest_seen_timestamp as nat, 4, s2);
    lemma_number_stands_at(data, 40, s2, header.node_ids.len(), 4, s3);
    if header.node_ids.len() > 0 {
        let place = if 0 <= i < header.node_ids.len() {
            i
        } else {
            0
        };
        node_ids_stand_in_their_places(header.node_ids, place);
        assert(data.subrange(44 + 33 * place, 77 + 33 * place) =~= ids.subrange(
            33 * place,
            33 * place + 33,
        )) by {
            assert(data.skip(44) =~= ids + rest);
            assert forall|k: int| 0 <= k < 33 implies #[trigger] data.subrange(
                44 + 33 * place,
                77 + 33 * place,
            )[k] == ids.subrange(33 * place, 33 * place + 33)[k] by {
                assert(data[44 + 33 * place + k] == data.skip(44)[33 * place + k]);
            }
        }
    } else {
        assert(ids =~= Seq::empty());
    }
}

/// Terms that are written at the place `at` stand there.
pub proof fn lemma_policy_stands_at(data: Seq<u8>, at: int, policy: ChannelPolicy, rest: Seq<u8>)
    requires
        0 <= at <= data.len(),
        data.skip(at) == policy_written(policy) + rest,
    ensures
        policy.cltv_expiry_delta == number_at(data, at, 2),
        policy.htlc_minimum_msat == number_at(data, at + 2, 8),
        policy.fee_base_msat == number_at(data, at + 10, 4),
        policy.fee_proportional_millionths == number_at(data, at + 14, 4),
        policy.htlc_maximum_msat == number_at(data, at + 18, 8),
        rest == data.skip(at + 26),
{
    lemma_regroup_policy(policy, rest);
    lemma_limits();
    let s4 = number_written(policy.htlc_maximum_msat as nat, 8) + rest;
    let s3 = number_written(policy.fee_proportional_millionths as nat, 4) + s4;
    let s2 = number_written(policy.fee_base_msat as nat, 4) + s3;
    let s1 = number_written(policy.htlc_minimum_msat as nat, 8) + s2;
    let s = number_written(policy.cltv_expiry_delta as nat, 2) + s1;
    lemma_number_stands_at(data, at, s, policy.cltv_expiry_delta as nat, 2, s1);
    lemma_number_stands_at(data, at + 2, s1, policy.htlc_minimum_msat as nat, 8, s2);
    lemma_number_stands_at(data, at + 10, s2, policy.fee_base_msat as nat, 4, s3);
    lemma_number_stands_at(data, at + 14, s3, policy.fee_proportional_millionths as nat, 4, s4);
    lemma_number_stands_at(data, at + 18, s4, policy.htlc_maximum_msat as nat, 8, rest);
}

/// Where the terms that full updates fall back on stand.
pub proof fn defaults_stand_in_their_places(s: Seq<u8>)
    requires
        parse_defaults(s) is Ok,
    ensures
        parse_defaults(s) matches Ok((policy, rest)) && {
            &&& policy.cltv_expiry_delta == number_at(s, 0, 2)
            &&& policy.htlc_minimum_msat == number_at(s, 2, 8)
            &&& policy.fee_base_msat == number_at(s, 10, 4)
            &&& policy.fee_proportional_millionths == number_at(s, 14, 4)
            &&& policy.htlc_maximum_msat == number_at(s, 18, 8)
            &&& rest == s.skip(26)
        },
{
    let (policy, rest) = parse_defaults(s)->Ok_0;
    lemma_read_defaults_were_written(s);
    assert(s.skip(0) =~= s);
    lemma_policy_stands_at(s, 0, policy, rest);
}

/// The number of bytes that something takes where it is given.
pub open spec fn width_if(given: bool, width: int) -> int {
    if given {
        width
    } else {
        0
    }
}

proof fn lemma_number_if_stands_at(
    data: Seq<u8>,
    at: int,
    s: Seq<u8>,
    given: bool,
    value: nat,
    width: nat,
    rest: Seq<u8>,
)
    requires
        value < limit(width),
        0 <= at <= data.len(),
        data.skip(at) == s,
        s == number_written_if(given, value, width) + rest,
    ensures
        at + width_if(given, width as int) <= data.len(),
        given ==> number_at(data, at, width as int) == value,
        data.skip(at + width_if(given, width as int)) == rest,
{
    if given {
        lemma_number_stands_at(data, at, s, value, width, rest);
    } else {
        assert(s =~= rest);
    }
}

/// Where the terms that an update gives stand, whether it is full or incremental: each behind those
/// that are given before it.
pub proof fn given_terms_stand_in_their_places(s: Seq<u8>, flags: u8, base: ChannelPolicy)
    requires
        parse_changes(s, flags, base) is Ok,
    ensures
        parse_changes(s, flags, base) matches Ok((policy, rest)) && {
            let minimum = width_if(flags & 0x40 != 0, 2);
            let fee_base = minimum + width_if(flags & 0x20 != 0, 8);
            let proportional = fee_base + width_if(flags & 0x10 != 0, 4);
            let maximum = proportional + width_if(flags & 0x08 != 0, 4);
            &&& flags & 0x40 != 0 ==> policy.cltv_expiry_delta == number_at(s, 0, 2)
            &&& flags & 0x20 != 0 ==> policy.htlc_minimum_msat == number_at(s, minimum, 8)
            &&& flags & 0x10 != 0 ==> policy.fee_base_msat == number_at(s, fee_base, 4)
            &&& flags & 0x08 != 0 ==> policy.fee_proportional_millionths == number_at(
                s,
                proportional,
                4,
            )
            &&& flags & 0x04 != 0 ==> policy.htlc_maximum_msat == number_at(s, maximum, 8)
            &&& rest == s.skip(maximum + width_if(flags & 0x04 != 0, 8))
        },
{
    let (policy, rest) = parse_changes(s, flags, base)->Ok_0;
    changes_are_read_as_written(s, flags, base, policy, rest);
    lemma_regroup_changes(policy, flags, rest);
    lemma_limits();
    let s4 = number_written_if(flags & 0x04 != 0, policy.htlc_maximum_msat as nat, 8) + rest;
    let s3 = number_written_if(flags & 0x08 != 0, policy.fee_proportional_millionths as nat, 4)
        + s4;
    let s2 = number_written_if(flags & 0x10 != 0, policy.fee_base_msat as nat, 4) + s3;
    let s1 = number_written_if(flags & 0x20 != 0, policy.htlc_minimum_msat as nat, 8) + s2;
    let a1 = width_if(flags & 0x40 != 0, 2);
    let a2 = a1 + width_if(flags & 0x20 != 0, 8);
    let a3 = a2 + width_if(flags & 0x10 != 0, 4);
    let a4 = a3 + width_if(flags & 0x08 != 0, 4);
    assert(s.skip(0) =~= s);
    let cltv = policy.cltv_expiry_delta as nat;
    lemma_number_if_stands_at(s, 0, s, flags & 0x40 != 0, cltv, 2, s1);
    let least = policy.htlc_minimum_msat as nat;
    lemma_number_if_stands_at(s, a1, s1, flags & 0x20 != 0, least, 8, s2);
    lemma_number_if_stands_at(s, a2, s2, flags & 0x10 != 0, policy.fee_base_msat as nat, 4, s3);
    let share = policy.fee_proportional_millionths as nat;
    lemma_number_if_stands_at(s, a3, s3, flags & 0x08 != 0, share, 4, s4);
    let most = policy.htlc_maximum_msat as nat;
    lemma_number_if_stands_at(s, a4, s4, flags & 0x04 != 0, most, 8, rest);
}

} // verus!

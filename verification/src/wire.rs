//! The encoding of the values that update data is made of.
//!
//! Every reader takes its value off the front of the input. The spec functions give, for a
//! sequence of bytes, either the value and the bytes that follow it, or the error and the bytes
//! that follow what was read before it showed.

use crate::error::{DecodeError, IoErrorKind};
use bitcoin::secp256k1::PublicKey;
use lightning::ln::msgs;
use lightning::util::ser::{BigSize, Readable};
use vstd::prelude::*;

verus! {

/// The length of the id of a node.
pub const NODE_ID_LEN: usize = 33;

/// Why a value cannot be read, and the bytes after what was read of it.
pub struct Fault {
    pub error: DecodeError,
    pub rest: Seq<u8>,
}

/// What reading a `T` off the front of some bytes gives: the value and the bytes after it.
pub type Parsed<T> = Result<(T, Seq<u8>), Fault>;

/// Whether `error` says that the data ended too early. How much of such data has been taken then
/// is left open: a stream need not say what becomes of a read that it cannot satisfy.
pub open spec fn is_early_end(error: DecodeError) -> bool {
    error == DecodeError::ShortRead || error == DecodeError::Io(IoErrorKind::UnexpectedEof)
}

/// The first `n` bytes as they stand.
pub open spec fn parse_bytes(s: Seq<u8>, n: nat) -> Parsed<Seq<u8>> {
    if s.len() < n {
        Err(Fault { error: DecodeError::ShortRead, rest: s })
    } else {
        Ok((s.take(n as int), s.skip(n as int)))
    }
}

/// The number that `bytes` stand for, most significant byte first.
pub open spec fn be_value(bytes: Seq<u8>) -> nat
    decreases bytes.len(),
{
    if bytes.len() == 0 {
        0
    } else {
        be_value(bytes.drop_last()) * 256 + bytes.last() as nat
    }
}

/// An unsigned integer of `width` bytes.
pub open spec fn parse_uint(s: Seq<u8>, width: nat) -> Parsed<nat> {
    match parse_bytes(s, width) {
        Err(fault) => Err(fault),
        Ok((bytes, rest)) => Ok((be_value(bytes), rest)),
    }
}

pub open spec fn parse_u8(s: Seq<u8>) -> Parsed<u8> {
    match parse_uint(s, 1) {
        Err(fault) => Err(fault),
        Ok((value, rest)) => Ok((value as u8, rest)),
    }
}

pub open spec fn parse_u16(s: Seq<u8>) -> Parsed<u16> {
    match parse_uint(s, 2) {
        Err(fault) => Err(fault),
        Ok((value, rest)) => Ok((value as u16, rest)),
    }
}

pub open spec fn parse_u32(s: Seq<u8>) -> Parsed<u32> {
    match parse_uint(s, 4) {
        Err(fault) => Err(fault),
        Ok((value, rest)) => Ok((value as u32, rest)),
    }
}

pub open spec fn parse_u64(s: Seq<u8>) -> Parsed<u64> {
    match parse_uint(s, 8) {
        Err(fault) => Err(fault),
        Ok((value, rest)) => Ok((value as u64, rest)),
    }
}

/// The smallest number that a [`BigSize`] of `width` bytes after its first may hold: one that
/// fits a shorter form has to be encoded in it.
pub open spec fn big_size_floor(width: nat) -> nat {
    if width == 2 {
        0xFD
    } else if width == 4 {
        0x1_0000
    } else {
        0x1_0000_0000
    }
}

/// A variable-length integer: one byte for numbers below `0xFD`, otherwise a byte that gives the
/// width, followed by that many bytes.
pub open spec fn parse_big_size(s: Seq<u8>) -> Parsed<u64> {
    match parse_u8(s) {
        Err(fault) => Err(fault),
        Ok((first, tail)) => if first < 0xFD {
            Ok((first as u64, tail))
        } else {
            let width: nat = if first == 0xFD {
                2
            } else if first == 0xFE {
                4
            } else {
                8
            };
            match parse_uint(tail, width) {
                Err(fault) => Err(fault),
                Ok((value, rest)) => if value < big_size_floor(width) {
                    Err(Fault { error: DecodeError::InvalidValue, rest })
                } else {
                    Ok((value as u64, rest))
                },
            }
        },
    }
}

/// The feature flags of a channel: a length of two bytes, then the flags with the byte that holds
/// the highest bits first. The value has the byte that holds the lowest bits first.
pub open spec fn parse_features(s: Seq<u8>) -> Parsed<Seq<u8>> {
    match parse_u16(s) {
        Err(fault) => Err(fault),
        Ok((len, tail)) => match parse_bytes(tail, len as nat) {
            Err(fault) => Err(fault),
            Ok((flags, rest)) => Ok((flags.reverse(), rest)),
        },
    }
}

/// The id of a node: the compressed form of a public key.
pub open spec fn parse_node_id(s: Seq<u8>) -> Parsed<Seq<u8>> {
    match parse_bytes(s, NODE_ID_LEN as nat) {
        Err(fault) => Err(fault),
        Ok((id, rest)) => if is_public_key(id) {
            Ok((id, rest))
        } else {
            Err(Fault { error: DecodeError::InvalidValue, rest })
        },
    }
}

/// Whether `error` is why the value could not be read, `rest` being the input that was left.
pub open spec fn faults<T>(parsed: Parsed<T>, error: DecodeError, rest: Seq<u8>) -> bool {
    parsed matches Err(fault) && fault.error == error && (is_early_end(error) || fault.rest
        == rest)
}

/// Whether reading gave what the bytes stand for: `r` is what the reader returned, `rest` the
/// input that it left.
pub open spec fn reads<T>(parsed: Parsed<T>, r: Result<T, DecodeError>, rest: Seq<u8>) -> bool {
    match r {
        Ok(value) => parsed == Ok::<(T, Seq<u8>), Fault>((value, rest)),
        Err(e) => faults(parsed, e, rest),
    }
}

/// 256 to the power of `width`.
spec fn byte_range(width: nat) -> nat
    decreases width,
{
    if width == 0 {
        1
    } else {
        256 * byte_range((width - 1) as nat)
    }
}

proof fn lemma_be_value_bound(bytes: Seq<u8>)
    ensures
        be_value(bytes) < byte_range(bytes.len()),
    decreases bytes.len(),
{
    if bytes.len() > 0 {
        lemma_be_value_bound(bytes.drop_last());
    }
}

proof fn lemma_byte_ranges()
    ensures
        byte_range(1) == 0x100,
        byte_range(2) == 0x1_0000,
        byte_range(4) == 0x1_0000_0000,
        byte_range(8) == 0x1_0000_0000_0000_0000,
{
    reveal_with_fuel(byte_range, 9);
}

proof fn lemma_byte_range_monotonic(narrow: nat, wide: nat)
    requires
        narrow <= wide,
    ensures
        byte_range(narrow) <= byte_range(wide),
    decreases wide,
{
    if narrow < wide {
        lemma_byte_range_monotonic(narrow, (wide - 1) as nat);
    }
}

/// Reads `n` bytes.
pub fn read_bytes<'a>(input: &mut &'a [u8], n: usize) -> (r: Result<&'a [u8], DecodeError>)
    ensures
        match r {
            Ok(bytes) => parse_bytes(old(input)@, n as nat) == Ok::<(Seq<u8>, Seq<u8>), Fault>(
                (bytes@, final(input)@),
            ),
            Err(e) => faults(parse_bytes(old(input)@, n as nat), e, final(input)@),
        },
{
    if input.len() < n {
        return Err(DecodeError::ShortRead);
    }
    let all: &'a [u8] = *input;
    let bytes: &'a [u8] = vstd::slice::slice_subrange(all, 0, n);
    *input = vstd::slice::slice_subrange(all, n, all.len());
    proof {
        assert(all@.subrange(0, n as int) =~= all@.take(n as int));
        assert(all@.subrange(n as int, all@.len() as int) =~= all@.skip(n as int));
    }
    Ok(bytes)
}

/// Reads an unsigned integer of `width` bytes.
fn read_uint(input: &mut &[u8], width: usize) -> (r: Result<u64, DecodeError>)
    requires
        width <= 8,
    ensures
        match r {
            Ok(value) => parse_uint(old(input)@, width as nat) == Ok::<(nat, Seq<u8>), Fault>(
                (value as nat, final(input)@),
            ) && value < byte_range(width as nat),
            Err(e) => faults(parse_uint(old(input)@, width as nat), e, final(input)@),
        },
{
    let bytes: &[u8] = read_bytes(input, width)?;
    let mut value: u64 = 0;
    let mut i: usize = 0;
    while i < width
        invariant
            i <= width <= 8,
            bytes@.len() == width,
            value as nat == be_value(bytes@.take(i as int)),
        decreases width - i,
    {
        proof {
            assert(bytes@.take(i + 1).drop_last() =~= bytes@.take(i as int));
            lemma_be_value_bound(bytes@.take(i + 1));
            lemma_byte_range_monotonic((i + 1) as nat, 8);
            lemma_byte_ranges();
        }
        value = value * 256 + bytes[i] as u64;
        i = i + 1;
    }
    proof {
        assert(bytes@.take(width as int) =~= bytes@);
        lemma_be_value_bound(bytes@);
    }
    Ok(value)
}

pub fn read_u8(input: &mut &[u8]) -> (r: Result<u8, DecodeError>)
    ensures
        reads(parse_u8(old(input)@), r, final(input)@),
{
    let value: u64 = read_uint(input, 1)?;
    proof {
        lemma_byte_ranges();
    }
    Ok(value as u8)
}

pub fn read_u16(input: &mut &[u8]) -> (r: Result<u16, DecodeError>)
    ensures
        reads(parse_u16(old(input)@), r, final(input)@),
{
    let value: u64 = read_uint(input, 2)?;
    proof {
        lemma_byte_ranges();
    }
    Ok(value as u16)
}

pub fn read_u32(input: &mut &[u8]) -> (r: Result<u32, DecodeError>)
    ensures
        reads(parse_u32(old(input)@), r, final(input)@),
{
    let value: u64 = read_uint(input, 4)?;
    proof {
        lemma_byte_ranges();
    }
    Ok(value as u32)
}

pub fn read_u64(input: &mut &[u8]) -> (r: Result<u64, DecodeError>)
    ensures
        reads(parse_u64(old(input)@), r, final(input)@),
{
    read_uint(input, 8)
}

/// Reads a variable-length integer with lightning's `Readable for BigSize`. Its bytes are those of
/// `parse_big_size`: the source reads one byte, then as many as that byte asks for, and refuses a
/// number that a shorter form could have held, once all its bytes are read. What is left of input
/// that ends too early is not claimed.
#[verifier::external_body]
pub(crate) fn read_big_size(input: &mut &[u8]) -> (r: Result<u64, DecodeError>)
    ensures
        reads(parse_big_size(old(input)@), r, final(input)@),
{
    let read: Result<BigSize, msgs::DecodeError> = Readable::read(input);
    read.map(|size| size.0).map_err(|e| match e {
        msgs::DecodeError::UnknownVersion => DecodeError::UnknownVersion,
        msgs::DecodeError::UnknownRequiredFeature => DecodeError::UnknownRequiredFeature,
        msgs::DecodeError::InvalidValue => DecodeError::InvalidValue,
        msgs::DecodeError::ShortRead => DecodeError::ShortRead,
        msgs::DecodeError::BadLengthDescriptor => DecodeError::BadLengthDescriptor,
        msgs::DecodeError::Io(_) => DecodeError::Io(IoErrorKind::Other),
        msgs::DecodeError::UnsupportedCompression => DecodeError::UnsupportedCompression,
    })
}

/// Reads the feature flags of a channel, turned so that the lowest bits come first.
pub fn read_features(input: &mut &[u8]) -> (r: Result<Vec<u8>, DecodeError>)
    ensures
        match r {
            Ok(features) => parse_features(old(input)@) == Ok::<(Seq<u8>, Seq<u8>), Fault>(
                (features@, final(input)@),
            ),
            Err(e) => faults(parse_features(old(input)@), e, final(input)@),
        },
{
    let len: u16 = read_u16(input)?;
    let flags: &[u8] = read_bytes(input, len as usize)?;
    let mut features: Vec<u8> = Vec::with_capacity(flags.len());
    let mut i: usize = flags.len();
    while i > 0
        invariant
            i <= flags@.len(),
            features@ =~= flags@.skip(i as int).reverse(),
        decreases i,
    {
        i = i - 1;
        features.push(flags[i]);
    }
    proof {
        assert(flags@.skip(0) =~= flags@);
    }
    Ok(features)
}

/// Whether some bytes are an encoding of a point that can be a public key: whether secp256k1's
/// `PublicKey::from_slice` takes them.
pub uninterp spec fn is_public_key(bytes: Seq<u8>) -> bool;

/// Asks secp256k1's `PublicKey::from_slice` whether it takes `bytes`. Which bytes it takes depends
/// on them alone; no more is claimed of them.
#[verifier::external_body]
fn check_public_key(bytes: &[u8]) -> (r: bool)
    ensures
        r == is_public_key(bytes@),
{
    PublicKey::from_slice(bytes).is_ok()
}

/// Reads the id of a node.
pub fn read_node_id<'a>(input: &mut &'a [u8]) -> (r: Result<&'a [u8], DecodeError>)
    ensures
        match r {
            Ok(id) => parse_node_id(old(input)@) == Ok::<(Seq<u8>, Seq<u8>), Fault>(
                (id@, final(input)@),
            ),
            Err(e) => faults(parse_node_id(old(input)@), e, final(input)@),
        },
{
    let id: &'a [u8] = read_bytes(input, NODE_ID_LEN)?;
    if check_public_key(id) {
        Ok(id)
    } else {
        Err(DecodeError::InvalidValue)
    }
}

} // verus!

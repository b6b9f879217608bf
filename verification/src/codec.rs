//! Wire codec for string-keyed transactions. The encoding is self-describing
//! and stable: a 32-bit little-endian tag distinguishes the three shapes, and
//! each string is written as its 64-bit little-endian byte length followed by
//! its UTF-8 bytes. Decoding consumes the whole buffer and rejects truncated,
//! malformed or over-long input with a distinguishable error instead of
//! panicking.

use vstd::prelude::*;
use vstd::utf8::{decode_utf8, encode_utf8, valid_utf8};

use crate::kv_transaction::{KVTransaction, TxView};

verus! {

/// Wire tag of an insert transaction.
pub const TAG_INSERT: u32 = 0;

/// Wire tag of a get transaction.
pub const TAG_GET: u32 = 1;

/// Wire tag of a remove transaction.
pub const TAG_REMOVE: u32 = 2;

/// Why a byte buffer failed to decode as a transaction.
#[derive(Debug, Clone, Copy, PartialEq, Eq, Structural)]
pub enum DecodeError {
    /// The buffer ends before the field announced by the format.
    Truncated,
    /// The leading tag names none of the three transaction shapes.
    UnknownTag,
    /// A string field does not hold valid UTF-8.
    InvalidUtf8,
    /// Bytes remain after the transaction's last field.
    TrailingBytes,
}

/// The four little-endian bytes of `n`.
pub open spec fn spec_u32_le(n: u32) -> Seq<u8> {
    seq![n as u8, (n >> 8) as u8, (n >> 16) as u8, (n >> 24) as u8]
}

/// The eight little-endian bytes of `n`.
pub open spec fn spec_u64_le(n: u64) -> Seq<u8> {
    seq![
        n as u8,
        (n >> 8) as u8,
        (n >> 16) as u8,
        (n >> 24) as u8,
        (n >> 32) as u8,
        (n >> 40) as u8,
        (n >> 48) as u8,
        (n >> 56) as u8,
    ]
}

/// The value read from four little-endian bytes.
pub open spec fn spec_le_u32(b: Seq<u8>) -> u32
    recommends
        b.len() == 4,
{
    (b[0] as u32) | ((b[1] as u32) << 8) | ((b[2] as u32) << 16) | ((b[3] as u32) << 24)
}

/// The value read from eight little-endian bytes.
pub open spec fn spec_le_u64(b: Seq<u8>) -> u64
    recommends
        b.len() == 8,
{
    (b[0] as u64) | ((b[1] as u64) << 8) | ((b[2] as u64) << 16) | ((b[3] as u64) << 24) | ((
    b[4] as u64) << 32) | ((b[5] as u64) << 40) | ((b[6] as u64) << 48) | ((b[7] as u64) << 56)
}

proof fn lemma_u32_le_roundtrip(n: u32)
    ensures
        spec_le_u32(spec_u32_le(n)) == n,
{
    let b = spec_u32_le(n);
    assert(b[0] == n as u8 && b[1] == (n >> 8) as u8 && b[2] == (n >> 16) as u8 && b[3] == (n
        >> 24) as u8);
    assert(((n as u8) as u32) | ((((n >> 8) as u8) as u32) << 8) | ((((n >> 16) as u8) as u32)
        << 16) | ((((n >> 24) as u8) as u32) << 24) == n) by (bit_vector);
}

proof fn lemma_u64_le_roundtrip(n: u64)
    ensures
        spec_le_u64(spec_u64_le(n)) == n,
{
    let b = spec_u64_le(n);
    assert(b[0] == n as u8 && b[1] == (n >> 8) as u8 && b[2] == (n >> 16) as u8 && b[3] == (n
        >> 24) as u8 && b[4] == (n >> 32) as u8 && b[5] == (n >> 40) as u8 && b[6] == (n
        >> 48) as u8 && b[7] == (n >> 56) as u8);
    assert(((n as u8) as u64) | ((((n >> 8) as u8) as u64) << 8) | ((((n >> 16) as u8) as u64)
        << 16) | ((((n >> 24) as u8) as u64) << 24) | ((((n >> 32) as u8) as u64) << 32) | ((((n
        >> 40) as u8) as u64) << 40) | ((((n >> 48) as u8) as u64) << 48) | ((((n
        >> 56) as u8) as u64) << 56) == n) by (bit_vector);
}

/// The wire form of one string: its byte length, then its UTF-8 bytes.
pub open spec fn spec_encode_str(s: Seq<char>) -> Seq<u8> {
    spec_u64_le(encode_utf8(s).len() as u64) + encode_utf8(s)
}

/// The wire form of one transaction.
pub open spec fn spec_encode_tx(t: TxView) -> Seq<u8> {
    match t {
        TxView::Insert { key, value } => spec_u32_le(TAG_INSERT) + spec_encode_str(key)
            + spec_encode_str(value),
        TxView::Get { key } => spec_u32_le(TAG_GET) + spec_encode_str(key),
        TxView::Remove { key } => spec_u32_le(TAG_REMOVE) + spec_encode_str(key),
    }
}

/// The string's byte length fits the 64-bit length field of the wire format.
/// Every string held in memory satisfies this; it rules out only the
/// mathematical sequences too long for any buffer.
pub open spec fn fits_length_field(s: Seq<char>) -> bool {
    encode_utf8(s).len() < 0x1_0000_0000_0000_0000
}

/// Every string of the transaction fits the wire format's length field.
pub open spec fn encodable(t: TxView) -> bool {
    match t {
        TxView::Insert { key, value } => fits_length_field(key) && fits_length_field(value),
        TxView::Get { key } => fits_length_field(key),
        TxView::Remove { key } => fits_length_field(key),
    }
}

/// Reading one string field from the front of `b`: the announced byte length,
/// the bytes themselves, and the remainder of the buffer.
pub open spec fn spec_take_str(b: Seq<u8>) -> Result<(Seq<char>, Seq<u8>), DecodeError> {
    if b.len() < 8 {
        Err(DecodeError::Truncated)
    } else {
        let n = spec_le_u64(b.subrange(0, 8)) as int;
        if b.len() - 8 < n {
            Err(DecodeError::Truncated)
        } else {
            let sb = b.subrange(8, 8 + n);
            if valid_utf8(sb) {
                Ok((decode_utf8(sb), b.skip(8 + n)))
            } else {
                Err(DecodeError::InvalidUtf8)
            }
        }
    }
}

/// The transaction a byte buffer holds, or the error that rejects it. The
/// whole buffer must be consumed: trailing bytes are an error.
pub open spec fn spec_decode_tx(b: Seq<u8>) -> Result<TxView, DecodeError> {
    if b.len() < 4 {
        Err(DecodeError::Truncated)
    } else {
        let tag = spec_le_u32(b.subrange(0, 4));
        let rest = b.skip(4);
        if tag == TAG_INSERT {
            match spec_take_str(rest) {
                Err(e) => Err(e),
                Ok((key, rest2)) => match spec_take_str(rest2) {
                    Err(e) => Err(e),
                    Ok((value, rest3)) => if rest3.len() == 0 {
                        Ok(TxView::Insert { key, value })
                    } else {
                        Err(DecodeError::TrailingBytes)
                    },
                },
            }
        } else if tag == TAG_GET {
            match spec_take_str(rest) {
                Err(e) => Err(e),
                Ok((key, rest2)) => if rest2.len() == 0 {
                    Ok(TxView::Get { key })
                } else {
                    Err(DecodeError::TrailingBytes)
                },
            }
        } else if tag == TAG_REMOVE {
            match spec_take_str(rest) {
                Err(e) => Err(e),
                Ok((key, rest2)) => if rest2.len() == 0 {
                    Ok(TxView::Remove { key })
                } else {
                    Err(DecodeError::TrailingBytes)
                },
            }
        } else {
            Err(DecodeError::UnknownTag)
        }
    }
}

fn push_u32_le(out: &mut Vec<u8>, n: u32)
    ensures
        final(out)@ == old(out)@ + spec_u32_le(n),
{
    out.push(#[verifier::truncate] (n as u8));
    out.push(#[verifier::truncate] ((n >> 8) as u8));
    out.push(#[verifier::truncate] ((n >> 16) as u8));
    out.push(#[verifier::truncate] ((n >> 24) as u8));
    proof {
        assert(out@ =~= old(out)@ + spec_u32_le(n));
    }
}

fn push_u64_le(out: &mut Vec<u8>, n: u64)
    ensures
        final(out)@ == old(out)@ + spec_u64_le(n),
{
    out.push(#[verifier::truncate] (n as u8));
    out.push(#[verifier::truncate] ((n >> 8) as u8));
    out.push(#[verifier::truncate] ((n >> 16) as u8));
    out.push(#[verifier::truncate] ((n >> 24) as u8));
    out.push(#[verifier::truncate] ((n >> 32) as u8));
    out.push(#[verifier::truncate] ((n >> 40) as u8));
    out.push(#[verifier::truncate] ((n >> 48) as u8));
    out.push(#[verifier::truncate] ((n >> 56) as u8));
    proof {
        assert(out@ =~= old(out)@ + spec_u64_le(n));
    }
}

fn push_bytes(out: &mut Vec<u8>, bytes: &[u8])
    ensures
        final(out)@ == old(out)@ + bytes@,
{
    let mut i: usize = 0;
    while i < bytes.len()
        invariant
            0 <= i <= bytes@.len(),
            out@ == old(out)@ + bytes@.take(i as int),
        decreases bytes@.len() - i,
    {
        out.push(bytes[i]);
        proof {
            assert(bytes@.take(i + 1) =~= bytes@.take(i as int).push(bytes@[i as int]));
            assert(out@ =~= old(out)@ + bytes@.take(i + 1));
        }
        i += 1;
    }
    proof {
        assert(bytes@.take(bytes@.len() as int) =~= bytes@);
    }
}

fn push_str(out: &mut Vec<u8>, s: &String)
    ensures
        final(out)@ == old(out)@ + spec_encode_str(s@),
        fits_length_field(s@),
{
    let bytes = s.as_str().as_bytes();
    push_u64_le(out, bytes.len() as u64);
    push_bytes(out, bytes);
    proof {
        assert(bytes@ == encode_utf8(s@));
        assert(out@ =~= old(out)@ + spec_encode_str(s@));
    }
}

/// Produces the wire form of `t`. The same logical value always encodes to
/// the same bytes, which deterministic replication across replicas relies on.
pub fn encode(t: &KVTransaction<String, String>) -> (r: Vec<u8>)
    ensures
        r@ == spec_encode_tx(t@),
        encodable(t@),
{
    let mut out: Vec<u8> = Vec::new();
    match t {
        KVTransaction::Insert(k, v) => {
            push_u32_le(&mut out, TAG_INSERT);
            push_str(&mut out, k);
            push_str(&mut out, v);
            proof {
                assert(out@ =~= spec_encode_tx(t@));
            }
        },
        KVTransaction::Get(k) => {
            push_u32_le(&mut out, TAG_GET);
            push_str(&mut out, k);
            proof {
                assert(out@ =~= spec_encode_tx(t@));
            }
        },
        KVTransaction::Remove(k) => {
            push_u32_le(&mut out, TAG_REMOVE);
            push_str(&mut out, k);
            proof {
                assert(out@ =~= spec_encode_tx(t@));
            }
        },
    }
    out
}

/// Relies on `String::from_utf8`: it succeeds exactly on valid UTF-8 input
/// and yields the string those bytes spell. vstd states the same
/// correspondence, over the same UTF-8 model, for `str::from_utf8_unchecked`.
#[verifier::external_body]
fn bytes_to_string(v: Vec<u8>) -> (r: Option<String>)
    ensures
        match r {
            Some(s) => valid_utf8(v@) && s@ == decode_utf8(v@),
            None => !valid_utf8(v@),
        },
{
    String::from_utf8(v).ok()
}

fn read_u32_le(bytes: &[u8], off: usize) -> (r: u32)
    requires
        off + 4 <= bytes@.len(),
    ensures
        r == spec_le_u32(bytes@.subrange(off as int, off + 4)),
{
    (bytes[off] as u32) | ((bytes[off + 1] as u32) << 8) | ((bytes[off + 2] as u32) << 16) | ((
    bytes[off + 3] as u32) << 24)
}

fn read_u64_le(bytes: &[u8], off: usize) -> (r: u64)
    requires
        off + 8 <= bytes@.len(),
    ensures
        r == spec_le_u64(bytes@.subrange(off as int, off + 8)),
{
    (bytes[off] as u64) | ((bytes[off + 1] as u64) << 8) | ((bytes[off + 2] as u64) << 16) | ((
    bytes[off + 3] as u64) << 24) | ((bytes[off + 4] as u64) << 32) | ((bytes[off + 5] as u64)
        << 40) | ((bytes[off + 6] as u64) << 48) | ((bytes[off + 7] as u64) << 56)
}

fn take_str(bytes: &[u8], start: usize) -> (r: Result<(String, usize), DecodeError>)
    requires
        start <= bytes@.len(),
    ensures
        match r {
            Ok(p) => {
                &&& start <= p.1 <= bytes@.len()
                &&& spec_take_str(bytes@.skip(start as int)) == Ok::<(Seq<char>, Seq<u8>),
                    DecodeError,
                >((p.0@, bytes@.skip(p.1 as int)))
            },
            Err(e) => spec_take_str(bytes@.skip(start as int)) == Err::<(Seq<char>, Seq<u8>),
                DecodeError,
            >(e),
        },
{
    let ghost b = bytes@.skip(start as int);
    let len = bytes.len();
    if len - start < 8 {
        return Err(DecodeError::Truncated);
    }
    let n64 = read_u64_le(bytes, start);
    proof {
        assert(bytes@.subrange(start as int, start + 8) =~= b.subrange(0, 8));
    }
    let rem = len - start - 8;
    if (rem as u64) < n64 {
        return Err(DecodeError::Truncated);
    }
    let n = n64 as usize;
    let sb = vstd::slice::slice_subrange(bytes, start + 8, start + 8 + n);
    proof {
        assert(sb@ =~= b.subrange(8, 8 + n as int));
    }
    let v = vstd::slice::slice_to_vec(sb);
    match bytes_to_string(v) {
        Some(s) => {
            proof {
                assert(bytes@.skip(start + 8 + n) =~= b.skip(8 + n as int));
            }
            Ok((s, start + 8 + n))
        },
        None => Err(DecodeError::InvalidUtf8),
    }
}

/// Recovers the transaction a byte buffer holds. The inverse of [`encode`]:
/// it accepts exactly the buffers that some transaction encodes to, and
/// rejects truncated or malformed input with the matching error.
pub fn decode(bytes: &[u8]) -> (r: Result<KVTransaction<String, String>, DecodeError>)
    ensures
        match r {
            Ok(t) => spec_decode_tx(bytes@) == Ok::<TxView, DecodeError>(t@),
            Err(e) => spec_decode_tx(bytes@) == Err::<TxView, DecodeError>(e),
        },
{
    if bytes.len() < 4 {
        return Err(DecodeError::Truncated);
    }
    let tag = read_u32_le(bytes, 0);
    proof {
        assert(bytes@.subrange(0, 4) =~= bytes@.subrange(0int, 0int + 4));
    }
    if tag == TAG_INSERT {
        match take_str(bytes, 4) {
            Err(e) => Err(e),
            Ok((key, next)) => match take_str(bytes, next) {
                Err(e) => Err(e),
                Ok((value, next2)) => {
                    if next2 == bytes.len() {
                        proof {
                            assert(bytes@.skip(next2 as int).len() == 0);
                        }
                        Ok(KVTransaction::Insert(key, value))
                    } else {
                        Err(DecodeError::TrailingBytes)
                    }
                },
            },
        }
    } else if tag == TAG_GET {
        match take_str(bytes, 4) {
            Err(e) => Err(e),
            Ok((key, next)) => {
                if next == bytes.len() {
                    Ok(KVTransaction::Get(key))
                } else {
                    Err(DecodeError::TrailingBytes)
                }
            },
        }
    } else if tag == TAG_REMOVE {
        match take_str(bytes, 4) {
            Err(e) => Err(e),
            Ok((key, next)) => {
                if next == bytes.len() {
                    Ok(KVTransaction::Remove(key))
                } else {
                    Err(DecodeError::TrailingBytes)
                }
            },
        }
    } else {
        Err(DecodeError::UnknownTag)
    }
}

proof fn lemma_take_str_encode(s: Seq<char>, tail: Seq<u8>)
    requires
        fits_length_field(s),
    ensures
        spec_take_str(spec_encode_str(s) + tail) == Ok::<(Seq<char>, Seq<u8>), DecodeError>(
            (s, tail),
        ),
{
    let e = encode_utf8(s);
    let n: u64 = e.len() as u64;
    let bb = spec_encode_str(s) + tail;
    assert(bb.len() == 8 + e.len() + tail.len());
    assert(bb.subrange(0, 8) =~= spec_u64_le(n));
    lemma_u64_le_roundtrip(n);
    assert(n == e.len());
    assert(bb.subrange(8, 8 + n as int) =~= e);
    vstd::utf8::encode_utf8_valid_utf8(s);
    vstd::utf8::encode_utf8_decode_utf8(s);
    assert(bb.skip(8 + n as int) =~= tail);
}

/// Codec round trip: decoding the wire form of a transaction yields the
/// transaction back, for every transaction whose strings fit the format's
/// 64-bit length field (every string held in memory does).
pub proof fn lemma_decode_encode(t: TxView)
    requires
        encodable(t),
    ensures
        spec_decode_tx(spec_encode_tx(t)) == Ok::<TxView, DecodeError>(t),
{
    let b = spec_encode_tx(t);
    match t {
        TxView::Insert { key, value } => {
            assert(b.subrange(0, 4) =~= spec_u32_le(TAG_INSERT));
            lemma_u32_le_roundtrip(TAG_INSERT);
            assert(b.skip(4) =~= spec_encode_str(key) + spec_encode_str(value));
            lemma_take_str_encode(key, spec_encode_str(value));
            assert(spec_encode_str(value) =~= spec_encode_str(value) + Seq::<u8>::empty());
            lemma_take_str_encode(value, Seq::<u8>::empty());
        },
        TxView::Get { key } => {
            assert(b.subrange(0, 4) =~= spec_u32_le(TAG_GET));
            lemma_u32_le_roundtrip(TAG_GET);
            assert(b.skip(4) =~= spec_encode_str(key) + Seq::<u8>::empty());
            lemma_take_str_encode(key, Seq::<u8>::empty());
        },
        TxView::Remove { key } => {
            assert(b.subrange(0, 4) =~= spec_u32_le(TAG_REMOVE));
            lemma_u32_le_roundtrip(TAG_REMOVE);
            assert(b.skip(4) =~= spec_encode_str(key) + Seq::<u8>::empty());
            lemma_take_str_encode(key, Seq::<u8>::empty());
        },
    }
}

proof fn lemma_le_u32_bytes(b: Seq<u8>)
    requires
        b.len() == 4,
    ensures
        spec_u32_le(spec_le_u32(b)) =~= b,
{
    let b0 = b[0];
    let b1 = b[1];
    let b2 = b[2];
    let b3 = b[3];
    let n = (b0 as u32) | ((b1 as u32) << 8) | ((b2 as u32) << 16) | ((b3 as u32) << 24);
    assert(n as u8 == b0 && (n >> 8) as u8 == b1 && (n >> 16) as u8 == b2 && (n >> 24) as u8 == b3)
        by (bit_vector)
        requires
            n == (b0 as u32) | ((b1 as u32) << 8) | ((b2 as u32) << 16) | ((b3 as u32) << 24),
    ;
}

proof fn lemma_le_u64_bytes(b: Seq<u8>)
    requires
        b.len() == 8,
    ensures
        spec_u64_le(spec_le_u64(b)) =~= b,
{
    let b0 = b[0];
    let b1 = b[1];
    let b2 = b[2];
    let b3 = b[3];
    let b4 = b[4];
    let b5 = b[5];
    let b6 = b[6];
    let b7 = b[7];
    let n = (b0 as u64) | ((b1 as u64) << 8) | ((b2 as u64) << 16) | ((b3 as u64) << 24) | ((
    b4 as u64) << 32) | ((b5 as u64) << 40) | ((b6 as u64) << 48) | ((b7 as u64) << 56);
    assert(n as u8 == b0 && (n >> 8) as u8 == b1 && (n >> 16) as u8 == b2 && (n >> 24) as u8 == b3
        && (n >> 32) as u8 == b4 && (n >> 40) as u8 == b5 && (n >> 48) as u8 == b6 && (n
        >> 56) as u8 == b7)
        by (bit_vector)
        requires
            n == (b0 as u64) | ((b1 as u64) << 8) | ((b2 as u64) << 16) | ((b3 as u64) << 24) | ((
            b4 as u64) << 32) | ((b5 as u64) << 40) | ((b6 as u64) << 48) | ((b7 as u64) << 56),
    ;
}

proof fn lemma_take_str_complete(b: Seq<u8>, s: Seq<char>, rest: Seq<u8>)
    requires
        spec_take_str(b) == Ok::<(Seq<char>, Seq<u8>), DecodeError>((s, rest)),
    ensures
        b =~= spec_encode_str(s) + rest,
        fits_length_field(s),
{
    let n = spec_le_u64(b.subrange(0, 8)) as int;
    let sb = b.subrange(8, 8 + n);
    vstd::utf8::decode_utf8_encode_utf8(sb);
    assert(encode_utf8(s) == sb);
    lemma_le_u64_bytes(b.subrange(0, 8));
    assert(b.subrange(0, 8) =~= spec_u64_le(encode_utf8(s).len() as u64));
    assert(b =~= b.subrange(0, 8) + sb + b.skip(8 + n));
}

/// The converse of the round trip: decoding accepts exactly the wire forms.
/// A buffer that decodes to `t` is, byte for byte, `t`'s encoding.
pub proof fn lemma_encode_decode(b: Seq<u8>, t: TxView)
    requires
        spec_decode_tx(b) == Ok::<TxView, DecodeError>(t),
    ensures
        b =~= spec_encode_tx(t),
        encodable(t),
{
    let tag = spec_le_u32(b.subrange(0, 4));
    lemma_le_u32_bytes(b.subrange(0, 4));
    let rest = b.skip(4);
    assert(b =~= b.subrange(0, 4) + rest);
    if tag == TAG_INSERT {
        match spec_take_str(rest) {
            Ok((key, rest2)) => {
                lemma_take_str_complete(rest, key, rest2);
                match spec_take_str(rest2) {
                    Ok((value, rest3)) => {
                        lemma_take_str_complete(rest2, value, rest3);
                        assert(rest3 =~= Seq::<u8>::empty());
                        assert(rest2 =~= spec_encode_str(value));
                        assert(b =~= spec_encode_tx(t));
                    },
                    Err(_) => {
                        assert(false);
                    },
                }
            },
            Err(_) => {
                assert(false);
            },
        }
    } else if tag == TAG_GET || tag == TAG_REMOVE {
        match spec_take_str(rest) {
            Ok((key, rest2)) => {
                lemma_take_str_complete(rest, key, rest2);
                assert(rest2 =~= Seq::<u8>::empty());
                assert(rest =~= spec_encode_str(key));
                assert(b =~= spec_encode_tx(t));
            },
            Err(_) => {
                assert(false);
            },
        }
    } else {
        assert(false);
    }
}

/// Codec size law: an insert of key byte length `k` and value byte length
/// `v` encodes to exactly `20 + k + v` bytes.
pub proof fn lemma_insert_encoded_size(key: Seq<char>, value: Seq<char>)
    ensures
        spec_encode_tx(TxView::Insert { key, value }).len() == 20 + encode_utf8(key).len()
            + encode_utf8(value).len(),
{
}

/// Codec size law: a get of key byte length `k` encodes to exactly `12 + k`
/// bytes.
pub proof fn lemma_get_encoded_size(key: Seq<char>)
    ensures
        spec_encode_tx(TxView::Get { key }).len() == 12 + encode_utf8(key).len(),
{
}

/// Codec size law: a remove of key byte length `k` encodes to exactly
/// `12 + k` bytes.
pub proof fn lemma_remove_encoded_size(key: Seq<char>)
    ensures
        spec_encode_tx(TxView::Remove { key }).len() == 12 + encode_utf8(key).len(),
{
}

} // verus!

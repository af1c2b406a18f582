use vstd::prelude::*;

use crate::bytes::{
    le_decode,
    le_encode,
    lemma_le_decode_bound,
    lemma_le_encode_len,
    lemma_le_roundtrip,
    pow256,
    push_le,
    read_le,
};

verus! {

/// Marks the start of every snapshot record.
pub const RECORD_MAGIC: u32 = 0x5250_534E;

/// Bytes of a record before its payload: magic, tick, sequence, payload
/// length, write time and payload digest.
pub const RECORD_HEADER_BYTES: usize = 76;

/// Bytes of a payload digest.
pub const DIGEST_BYTES: usize = 32;

/// The bytes that open every segment file: "RPAUDIT1".
pub open spec fn file_magic() -> Seq<u8> {
    seq![0x52u8, 0x50u8, 0x41u8, 0x55u8, 0x44u8, 0x49u8, 0x54u8, 0x31u8]
}

/// A BLAKE3 digest of a byte string, as `blake3::hash` computes it.
pub uninterp spec fn blake3_digest(data: Seq<u8>) -> Seq<u8>;

/// Hashes `data` with BLAKE3 (`blake3::hash`); the contract claims only
/// that the 32 bytes are the hash of exactly these bytes.
#[verifier::external_body]
pub(crate) fn blake3_hash(data: &[u8]) -> (d: [u8; 32])
    ensures
        d@ == blake3_digest(data@),
{
    *blake3::hash(data).as_bytes()
}

/// A snapshot record as plain values.
pub struct RecordView {
    pub tick: u64,
    pub sequence: u64,
    pub written_unix_ms: u128,
    pub digest: Seq<u8>,
    pub payload: Seq<u8>,
}

/// The bytes of a record before its digest.
pub open spec fn record_prefix(tick: u64, sequence: u64, payload_len: nat, written_unix_ms: u128) -> Seq<u8> {
    le_encode(RECORD_MAGIC as nat, 4) + le_encode(tick as nat, 8) + le_encode(sequence as nat, 8)
        + le_encode(payload_len, 8) + le_encode(written_unix_ms as nat, 16)
}

/// The bytes of one record: magic, tick, sequence, payload length and write
/// time, all little-endian, then the digest and the payload.
pub open spec fn record_bytes(r: RecordView) -> Seq<u8> {
    record_prefix(r.tick, r.sequence, r.payload.len(), r.written_unix_ms) + r.digest + r.payload
}

/// The bytes of a run of records, one after another.
pub open spec fn records_bytes(rs: Seq<RecordView>) -> Seq<u8>
    decreases rs.len(),
{
    if rs.len() == 0 {
        seq![]
    } else {
        record_bytes(rs[0]) + records_bytes(rs.drop_first())
    }
}

/// Whether a record can be written: a digest of 32 bytes and a payload whose
/// length fits the length field.
pub open spec fn record_writable(r: RecordView) -> bool {
    &&& r.digest.len() == DIGEST_BYTES
    &&& r.payload.len() < pow256(8)
}

/// Why a segment's bytes could not be read back as records.
#[derive(Debug, Clone, Copy, PartialEq, Eq, Structural)]
pub enum AuditDecodeError {
    /// The segment does not open with the segment magic.
    InvalidSegmentMagic,
    /// A record header starting at this byte runs past the end.
    TruncatedRecordHeader(usize),
    /// The record at this byte does not start with the record magic.
    InvalidRecordMagic(usize),
    /// The payload starting at this byte runs past the end.
    TruncatedPayload(usize),
    /// A four-byte word at this offset lies past the end.
    U32OutOfBounds(usize),
    /// An eight-byte word at this offset lies past the end.
    U64OutOfBounds(usize),
    /// A payload of this many bytes is not a whole number of node records.
    PayloadNotNodeAligned(usize),
}

/// Appends to `done` what parsing the rest gave.
pub open spec fn prepend(done: Seq<RecordView>, rest: Result<Seq<RecordView>, AuditDecodeError>) -> Result<
    Seq<RecordView>,
    AuditDecodeError,
> {
    match rest {
        Ok(s) => Ok(done + s),
        Err(e) => Err(e),
    }
}

/// The records of `data` from byte `cursor` on.
pub open spec fn parse_records(data: Seq<u8>, cursor: nat) -> Result<Seq<RecordView>, AuditDecodeError>
    decreases data.len() - cursor,
{
    let c = cursor as int;
    if cursor >= data.len() {
        Ok(seq![])
    } else if c + RECORD_HEADER_BYTES > data.len() {
        Err(AuditDecodeError::TruncatedRecordHeader(cursor as usize))
    } else if le_decode(data.subrange(c, c + 4)) != RECORD_MAGIC {
        Err(AuditDecodeError::InvalidRecordMagic(cursor as usize))
    } else {
        let len = le_decode(data.subrange(c + 20, c + 28)) as int;
        let body = c + RECORD_HEADER_BYTES;
        if body + len > data.len() {
            Err(AuditDecodeError::TruncatedPayload(body as usize))
        } else {
            let r = RecordView {
                tick: le_decode(data.subrange(c + 4, c + 12)) as u64,
                sequence: le_decode(data.subrange(c + 12, c + 20)) as u64,
                written_unix_ms: le_decode(data.subrange(c + 28, c + 44)) as u128,
                digest: data.subrange(c + 44, body),
                payload: data.subrange(body, body + len),
            };
            prepend(seq![r], parse_records(data, (body + len) as nat))
        }
    }
}

/// The records of a segment file: the segment magic, then records to the end.
pub open spec fn parse_segment(data: Seq<u8>) -> Result<Seq<RecordView>, AuditDecodeError> {
    if data.len() < 8 || data.take(8) != file_magic() {
        Err(AuditDecodeError::InvalidSegmentMagic)
    } else {
        parse_records(data, 8)
    }
}

/// A decoded record.
#[derive(Debug, Clone)]
pub struct AuditRecord {
    pub tick: u64,
    pub sequence: u64,
    pub written_unix_ms: u128,
    pub digest: Vec<u8>,
    pub payload: Vec<u8>,
}

/// The plain values of a decoded record.
pub open spec fn record_view(r: AuditRecord) -> RecordView {
    RecordView {
        tick: r.tick,
        sequence: r.sequence,
        written_unix_ms: r.written_unix_ms,
        digest: r.digest@,
        payload: r.payload@,
    }
}

/// The segment magic as bytes.
pub fn file_magic_bytes() -> (m: Vec<u8>)
    ensures
        m@ == file_magic(),
{
    let m = vec![0x52u8, 0x50u8, 0x41u8, 0x55u8, 0x44u8, 0x49u8, 0x54u8, 0x31u8];
    assert(m@ =~= file_magic());
    m
}

/// Bytes a record takes besides its payload.
pub fn record_overhead() -> (n: usize)
    ensures
        n == RECORD_HEADER_BYTES,
{
    // magic + tick + sequence + payload_len + ts + hash
    4 + 8 + 8 + 8 + 16 + 32
}

/// The bytes of a record whose payload digest is already known.
pub fn encode_record_with_digest(
    tick: u64,
    sequence: u64,
    payload: &[u8],
    written_unix_ms: u128,
    digest: &[u8; 32],
) -> (out: Vec<u8>)
    requires
        payload@.len() < pow256(8),
    ensures
        out@ == record_bytes(
            RecordView {
                tick,
                sequence,
                written_unix_ms,
                digest: digest@,
                payload: payload@,
            },
        ),
{
    let mut out: Vec<u8> = Vec::new();
    proof {
        reveal_with_fuel(pow256, 17);
        assert(RECORD_MAGIC < pow256(4));
        assert(tick < pow256(8));
        assert(sequence < pow256(8));
        assert(written_unix_ms < pow256(16));
    }
    push_le(&mut out, RECORD_MAGIC as u128, 4);
    push_le(&mut out, tick as u128, 8);
    push_le(&mut out, sequence as u128, 8);
    push_le(&mut out, payload.len() as u128, 8);
    push_le(&mut out, written_unix_ms, 16);
    let ghost head = out@;
    let mut i: usize = 0;
    while i < 32
        invariant
            i <= 32,
            digest@.len() == 32,
            out@ == head + digest@.take(i as int),
        decreases 32 - i,
    {
        out.push(digest[i]);
        proof {
            assert(digest@.take(i as int + 1) =~= digest@.take(i as int).push(digest@[i as int]));
        }
        i += 1;
    }
    let ghost with_digest = out@;
    let mut j: usize = 0;
    while j < payload.len()
        invariant
            j <= payload@.len(),
            out@ == with_digest + payload@.take(j as int),
        decreases payload@.len() - j,
    {
        out.push(payload[j]);
        proof {
            assert(payload@.take(j as int + 1) =~= payload@.take(j as int).push(payload@[j as int]));
        }
        j += 1;
    }
    proof {
        assert(digest@.take(32) =~= digest@);
        assert(payload@.take(payload@.len() as int) =~= payload@);
        let r = RecordView { tick, sequence, written_unix_ms, digest: digest@, payload: payload@ };
        assert(out@ =~= record_bytes(r));
    }
    out
}

/// The bytes of a snapshot record of `payload`, its digest computed with BLAKE3.
pub fn encode_record(tick: u64, sequence: u64, payload: &[u8], written_unix_ms: u128) -> (out: Vec<u8>)
    requires
        payload@.len() < pow256(8),
    ensures
        out@ == record_bytes(
            RecordView {
                tick,
                sequence,
                written_unix_ms,
                digest: blake3_digest(payload@),
                payload: payload@,
            },
        ),
{
    let digest = blake3_hash(payload);
    encode_record_with_digest(tick, sequence, payload, written_unix_ms, &digest)
}

/// Reads the little-endian 32-bit word at `offset`.
pub fn read_u32_le(buf: &[u8], offset: usize) -> (r: Result<u32, AuditDecodeError>)
    ensures
        offset + 4 > buf@.len() ==> r == Err::<u32, AuditDecodeError>(
            AuditDecodeError::U32OutOfBounds(offset),
        ),
        offset + 4 <= buf@.len() ==> r == Ok::<u32, AuditDecodeError>(
            le_decode(buf@.subrange(offset as int, offset + 4)) as u32,
        ),
{
    if offset > buf.len() || buf.len() - offset < 4 {
        return Err(AuditDecodeError::U32OutOfBounds(offset));
    }
    let v = read_le(buf, offset, 4);
    proof {
        lemma_le_decode_bound(buf@.subrange(offset as int, offset + 4));
        reveal_with_fuel(pow256, 5);
    }
    Ok(v as u32)
}

/// Reads the little-endian 64-bit word at `offset`.
pub fn read_u64_le(buf: &[u8], offset: usize) -> (r: Result<u64, AuditDecodeError>)
    ensures
        offset + 8 > buf@.len() ==> r == Err::<u64, AuditDecodeError>(
            AuditDecodeError::U64OutOfBounds(offset),
        ),
        offset + 8 <= buf@.len() ==> r == Ok::<u64, AuditDecodeError>(
            le_decode(buf@.subrange(offset as int, offset + 8)) as u64,
        ),
{
    if offset > buf.len() || buf.len() - offset < 8 {
        return Err(AuditDecodeError::U64OutOfBounds(offset));
    }
    let v = read_le(buf, offset, 8);
    proof {
        lemma_le_decode_bound(buf@.subrange(offset as int, offset + 8));
        reveal_with_fuel(pow256, 9);
    }
    Ok(v as u64)
}

/// Reads the records of a segment file's bytes.
pub fn decode_segment(data: &[u8]) -> (r: Result<Vec<AuditRecord>, AuditDecodeError>)
    ensures
        r is Ok <==> parse_segment(data@) is Ok,
        r matches Ok(v) ==> parse_segment(data@) == Ok::<Seq<RecordView>, AuditDecodeError>(
            v@.map_values(|x: AuditRecord| record_view(x)),
        ),
        r matches Err(e) ==> parse_segment(data@) == Err::<Seq<RecordView>, AuditDecodeError>(e),
{
    let len = data.len();
    if len < 8 {
        return Err(AuditDecodeError::InvalidSegmentMagic);
    }
    let magic = file_magic_bytes();
    let mut k: usize = 0;
    while k < 8
        invariant
            k <= 8,
            len == data@.len(),
            len >= 8,
            magic@ == file_magic(),
            forall|i: int| 0 <= i < k ==> data@[i] == file_magic()[i],
        decreases 8 - k,
    {
        if data[k] != magic[k] {
            proof {
                assert(data@.take(8)[k as int] != file_magic()[k as int]);
            }
            return Err(AuditDecodeError::InvalidSegmentMagic);
        }
        k += 1;
    }
    proof {
        assert(data@.take(8) =~= file_magic());
    }
    let mut records: Vec<AuditRecord> = Vec::new();
    let mut cursor: usize = 8;
    while cursor < len
        invariant
            len == data@.len(),
            data@.take(8) == file_magic(),
            8 <= cursor <= len,
            parse_records(data@, 8) == prepend(
                records@.map_values(|x: AuditRecord| record_view(x)),
                parse_records(data@, cursor as nat),
            ),
        decreases len - cursor,
    {
        if len - cursor < RECORD_HEADER_BYTES {
            return Err(AuditDecodeError::TruncatedRecordHeader(cursor));
        }
        let magic_word = read_le(data, cursor, 4);
        if magic_word != RECORD_MAGIC as u128 {
            return Err(AuditDecodeError::InvalidRecordMagic(cursor));
        }
        let tick = read_le(data, cursor + 4, 8);
        let sequence = read_le(data, cursor + 12, 8);
        let payload_len = read_le(data, cursor + 20, 8);
        let written = read_le(data, cursor + 28, 16);
        let body = cursor + RECORD_HEADER_BYTES;
        if payload_len > (len - body) as u128 {
            return Err(AuditDecodeError::TruncatedPayload(body));
        }
        let end = body + payload_len as usize;
        proof {
            lemma_le_decode_bound(data@.subrange(cursor + 4, cursor + 12));
            lemma_le_decode_bound(data@.subrange(cursor + 12, cursor + 20));
            reveal_with_fuel(pow256, 9);
        }
        let digest = vstd::slice::slice_to_vec(vstd::slice::slice_subrange(data, cursor + 44, body));
        let payload = vstd::slice::slice_to_vec(vstd::slice::slice_subrange(data, body, end));
        let rec = AuditRecord {
            tick: tick as u64,
            sequence: sequence as u64,
            written_unix_ms: written,
            digest,
            payload,
        };
        let ghost done = records@.map_values(|x: AuditRecord| record_view(x));
        records.push(rec);
        proof {
            assert(records@.map_values(|x: AuditRecord| record_view(x)) =~= done + seq![
                record_view(rec),
            ]);
            let rest = parse_records(data@, end as nat);
            match rest {
                Ok(s) => {
                    assert(done + (seq![record_view(rec)] + s) =~= (done + seq![record_view(rec)])
                        + s);
                },
                Err(_) => {},
            }
        }
        cursor = end;
    }
    proof {
        assert(records@.map_values(|x: AuditRecord| record_view(x)) + Seq::<RecordView>::empty()
            =~= records@.map_values(|x: AuditRecord| record_view(x)));
    }
    Ok(records)
}

/// Parsing a well-formed record that starts at `cursor` yields that record,
/// and parsing goes on just past it.
proof fn lemma_parse_one(pre: Seq<u8>, r: RecordView, post: Seq<u8>)
    requires
        record_writable(r),
    ensures
        parse_records(pre + record_bytes(r) + post, pre.len()) == prepend(
            seq![r],
            parse_records(pre + record_bytes(r) + post, pre.len() + record_bytes(r).len()),
        ),
        record_bytes(r).len() == RECORD_HEADER_BYTES + r.payload.len(),
{
    let rec = record_bytes(r);
    let data = pre + rec + post;
    let c = pre.len() as int;
    let n = r.payload.len();
    reveal_with_fuel(pow256, 17);
    lemma_le_roundtrip(RECORD_MAGIC as nat, 4);
    lemma_le_roundtrip(r.tick as nat, 8);
    lemma_le_roundtrip(r.sequence as nat, 8);
    lemma_le_roundtrip(n, 8);
    lemma_le_roundtrip(r.written_unix_ms as nat, 16);
    let p0 = le_encode(RECORD_MAGIC as nat, 4);
    let p1 = le_encode(r.tick as nat, 8);
    let p2 = le_encode(r.sequence as nat, 8);
    let p3 = le_encode(n, 8);
    let p4 = le_encode(r.written_unix_ms as nat, 16);
    assert(rec.len() == RECORD_HEADER_BYTES + n);
    assert(data =~= pre + (rec + post));
    assert(data.subrange(c, c + 4) =~= p0);
    assert(data.subrange(c + 4, c + 12) =~= p1);
    assert(data.subrange(c + 12, c + 20) =~= p2);
    assert(data.subrange(c + 20, c + 28) =~= p3);
    assert(data.subrange(c + 28, c + 44) =~= p4);
    assert(data.subrange(c + 44, c + 76) =~= r.digest);
    assert(data.subrange(c + 76, c + 76 + n as int) =~= r.payload);
}

/// The records after `pre` read back as exactly the records that were written.
proof fn lemma_parse_records_roundtrip(pre: Seq<u8>, rs: Seq<RecordView>)
    requires
        forall|i: int| 0 <= i < rs.len() ==> record_writable(#[trigger] rs[i]),
    ensures
        parse_records(pre + records_bytes(rs), pre.len()) == Ok::<
            Seq<RecordView>,
            AuditDecodeError,
        >(rs),
    decreases rs.len(),
{
    if rs.len() == 0 {
        assert(pre + records_bytes(rs) =~= pre);
        assert(rs =~= Seq::<RecordView>::empty());
    } else {
        let r = rs[0];
        let rest = rs.drop_first();
        assert(record_writable(rs[0]));
        let rec = record_bytes(r);
        let post = records_bytes(rest);
        lemma_parse_one(pre, r, post);
        let pre2 = pre + rec;
        assert(records_bytes(rs) == rec + post);
        assert(pre + records_bytes(rs) =~= pre + rec + post);
        assert(pre + rec + post =~= pre2 + post);
        assert forall|i: int| 0 <= i < rest.len() implies record_writable(#[trigger] rest[i]) by {
            assert(rest[i] == rs[i + 1]);
        }
        lemma_parse_records_roundtrip(pre2, rest);
        assert(pre2.len() == pre.len() + rec.len());
        assert(parse_records(pre2 + post, pre2.len()) == Ok::<Seq<RecordView>, AuditDecodeError>(rest));
        assert(seq![r] + rest =~= rs);
    }
}

/// A segment written as the segment magic followed by records reads back as
/// exactly those records, in order.
pub proof fn lemma_segment_roundtrip(rs: Seq<RecordView>)
    requires
        forall|i: int| 0 <= i < rs.len() ==> record_writable(#[trigger] rs[i]),
    ensures
        parse_segment(file_magic() + records_bytes(rs)) == Ok::<Seq<RecordView>, AuditDecodeError>(
            rs,
        ),
{
    let data = file_magic() + records_bytes(rs);
    assert(data.take(8) =~= file_magic());
    lemma_parse_records_roundtrip(file_magic(), rs);
}

/// A segment that does not open with the segment magic is rejected as a whole.
pub proof fn lemma_segment_needs_magic(data: Seq<u8>)
    requires
        data.len() < 8 || data.take(8) != file_magic(),
    ensures
        parse_segment(data) == Err::<Seq<RecordView>, AuditDecodeError>(
            AuditDecodeError::InvalidSegmentMagic,
        ),
{
}

} // verus!

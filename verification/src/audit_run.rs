use vstd::prelude::*;

use crate::audit_format::{
    blake3_digest,
    blake3_hash,
    encode_record_with_digest,
    record_bytes,
    RecordView,
    RECORD_HEADER_BYTES,
};
use crate::bytes::pow256;
use crate::text::{chars_of, decimal, lower_hex, push_char, push_decimal, push_lower_hex, push_str, push_zero_padded, zero_padded};

verus! {

/// Bytes of the magic that opens every segment file.
pub const SEGMENT_MAGIC_BYTES: u64 = 8;

/// The smallest segment size limit a run accepts: 64 MiB.
pub const MIN_SEGMENT_BYTES: u64 = 67108864;

/// The segment size limit a run gets by default: 512 MiB.
pub const DEFAULT_SEGMENT_BYTES: u64 = 536870912;

/// Where and how an audit run is written.
pub struct AuditRunConfig {
    pub out_dir: String,
    pub run_label: String,
    pub schema: String,
    pub lane: String,
    pub max_segment_bytes: u64,
}

impl AuditRunConfig {
    /// A run under `out_dir` labelled `gpu-audit`, with schema `pingpong-v1`,
    /// lane `full-state` and segments of at most 512 MiB.
    pub fn with_defaults(out_dir: &str) -> (c: Self)
        ensures
            c.out_dir@ == out_dir@,
            c.run_label@ == "gpu-audit"@,
            c.schema@ == "pingpong-v1"@,
            c.lane@ == "full-state"@,
            c.max_segment_bytes == DEFAULT_SEGMENT_BYTES,
    {
        AuditRunConfig {
            out_dir: out_dir.to_owned(),
            run_label: "gpu-audit".to_owned(),
            schema: "pingpong-v1".to_owned(),
            lane: "full-state".to_owned(),
            max_segment_bytes: 512 * 1024 * 1024,
        }
    }
}

/// One snapshot to record: its tick, its sequence number and its bytes.
pub struct AuditSnapshotRef<'a> {
    pub tick: u64,
    pub sequence: u64,
    pub payload: &'a [u8],
}

/// `c` as it stands in a JSON string.
pub open spec fn escape_char(c: char) -> Seq<char> {
    if c == '\\' {
        seq!['\\', '\\']
    } else if c == '"' {
        seq!['\\', '"']
    } else if c == '\n' {
        seq!['\\', 'n']
    } else if c == '\r' {
        seq!['\\', 'r']
    } else {
        seq![c]
    }
}

/// `s` with backslashes, quotes, line feeds and carriage returns escaped.
pub open spec fn json_escaped(s: Seq<char>) -> Seq<char>
    decreases s.len(),
{
    if s.len() == 0 {
        seq![]
    } else {
        json_escaped(s.drop_last()) + escape_char(s.last())
    }
}

/// `c` where it is an ASCII letter or digit, `-` or `_`; else `_`.
pub open spec fn label_char(c: char) -> char {
    if ('a' <= c <= 'z') || ('A' <= c <= 'Z') || ('0' <= c <= '9') || c == '-' || c == '_' {
        c
    } else {
        '_'
    }
}

/// A label fit for a directory name: each character through `label_char`,
/// and `run` in place of an empty label.
pub open spec fn sanitized(s: Seq<char>) -> Seq<char> {
    if s.len() == 0 {
        "run"@
    } else {
        s.map_values(|c: char| label_char(c))
    }
}

/// The name of segment file `id`: `segment_`, the id in at least five digits, `.rpa`.
pub open spec fn segment_name(id: u32) -> Seq<char> {
    "segment_"@ + zero_padded(id as nat, 5) + ".rpa"@
}

/// The name of a run's directory: its sanitized label, `-`, its start time.
pub open spec fn run_dir_text(label: Seq<char>, started_unix_ms: u128) -> Seq<char> {
    sanitized(label) + "-"@ + decimal(started_unix_ms as nat)
}

/// The manifest line that opens a run.
pub open spec fn run_start_text(started_unix_ms: u128, schema: Seq<char>, lane: Seq<char>) -> Seq<char> {
    "{\"kind\":\"run-start\",\"started_unix_ms\":"@ + decimal(started_unix_ms as nat)
        + ",\"schema\":\""@ + json_escaped(schema) + "\",\"lane\":\""@ + json_escaped(lane)
        + "\"}"@
}

/// The manifest line of one snapshot.
pub open spec fn snapshot_text(
    segment_id: u32,
    offset: u64,
    tick: u64,
    sequence: u64,
    payload_len: nat,
    digest: Seq<u8>,
    schema: Seq<char>,
    lane: Seq<char>,
) -> Seq<char> {
    "{\"kind\":\"snapshot\",\"segment\":"@ + decimal(segment_id as nat) + ",\"segment_file\":\""@
        + json_escaped(segment_name(segment_id)) + "\",\"offset\":"@ + decimal(offset as nat)
        + ",\"tick\":"@ + decimal(tick as nat) + ",\"sequence\":"@ + decimal(sequence as nat)
        + ",\"payload_bytes\":"@ + decimal(payload_len) + ",\"blake3\":\""@ + lower_hex(digest)
        + "\",\"schema\":\""@ + json_escaped(schema) + "\",\"lane\":\""@ + json_escaped(lane)
        + "\"}"@
}

/// The summary line of a finished run.
pub open spec fn run_summary_text(
    started_unix_ms: u128,
    finished_unix_ms: u128,
    snapshots: u64,
    payload_bytes: u64,
    schema: Seq<char>,
    lane: Seq<char>,
) -> Seq<char> {
    let duration: nat = if finished_unix_ms >= started_unix_ms {
        (finished_unix_ms - started_unix_ms) as nat
    } else {
        0
    };
    "{\"kind\":\"run-summary\",\"started_unix_ms\":"@ + decimal(started_unix_ms as nat)
        + ",\"finished_unix_ms\":"@ + decimal(finished_unix_ms as nat) + ",\"duration_ms\":"@
        + decimal(duration) + ",\"snapshots\":"@ + decimal(snapshots as nat)
        + ",\"payload_bytes\":"@ + decimal(payload_bytes as nat) + ",\"schema\":\""@
        + json_escaped(schema) + "\",\"lane\":\""@ + json_escaped(lane) + "\"}"@
}

/// Appends `t` escaped for a JSON string.
fn push_json_escaped(s: &mut String, t: &str)
    ensures
        final(s)@ == old(s)@ + json_escaped(t@),
{
    let v = chars_of(t);
    let ghost start = s@;
    let mut i: usize = 0;
    assert(v@.subrange(0, 0) =~= Seq::<char>::empty());
    assert(s@ =~= start + json_escaped(v@.subrange(0, 0)));
    while i < v.len()
        invariant
            i <= v@.len(),
            s@ == start + json_escaped(v@.subrange(0, i as int)),
        decreases v@.len() - i,
    {
        let c = v[i];
        let ghost before = s@;
        if c == '\\' {
            push_char(s, '\\');
            push_char(s, '\\');
        } else if c == '"' {
            push_char(s, '\\');
            push_char(s, '"');
        } else if c == '\n' {
            push_char(s, '\\');
            push_char(s, 'n');
        } else if c == '\r' {
            push_char(s, '\\');
            push_char(s, 'r');
        } else {
            push_char(s, c);
        }
        proof {
            let t2 = v@.subrange(0, i + 1);
            assert(t2.drop_last() =~= v@.subrange(0, i as int));
            assert(t2.last() == c);
            assert(s@ =~= before + escape_char(c));
            assert(s@ =~= start + json_escaped(t2));
        }
        i += 1;
    }
    assert(v@.subrange(0, i as int) =~= t@);
}

/// `input` escaped for a JSON string: backslash, quote, line feed and
/// carriage return each become a backslash sequence.
pub fn json_escape(input: &str) -> (out: String)
    ensures
        out@ == json_escaped(input@),
{
    let mut out = String::new();
    push_json_escaped(&mut out, input);
    assert(out@ =~= json_escaped(input@));
    out
}

fn label_char_of(c: char) -> (r: char)
    ensures
        r == label_char(c),
{
    if ('a' <= c && c <= 'z') || ('A' <= c && c <= 'Z') || ('0' <= c && c <= '9') || c == '-' || c
        == '_' {
        c
    } else {
        '_'
    }
}

/// `input` made fit for a directory name: ASCII letters, digits, `-` and
/// `_` stay, every other character becomes `_`; an empty label becomes `run`.
pub fn sanitize_label(input: &str) -> (out: String)
    ensures
        out@ == sanitized(input@),
{
    let v = chars_of(input);
    let mut out = String::new();
    let mut i: usize = 0;
    while i < v.len()
        invariant
            i <= v@.len(),
            out@ == v@.subrange(0, i as int).map_values(|c: char| label_char(c)),
        decreases v@.len() - i,
    {
        push_char(&mut out, label_char_of(v[i]));
        i += 1;
        assert(out@ =~= v@.subrange(0, i as int).map_values(|c: char| label_char(c)));
    }
    assert(v@.subrange(0, i as int) =~= input@);
    if v.len() == 0 {
        "run".to_owned()
    } else {
        out
    }
}

/// The name of segment file `id`, such as `segment_00003.rpa`.
pub fn segment_file_name(id: u32) -> (name: String)
    ensures
        name@ == segment_name(id),
{
    let mut name = String::new();
    push_str(&mut name, "segment_");
    push_zero_padded(&mut name, id as u64, 5);
    push_str(&mut name, ".rpa");
    assert(name@ =~= segment_name(id));
    name
}

/// The directory name of a run labelled `label` that started at `started_unix_ms`.
pub fn run_dir_name(label: &str, started_unix_ms: u128) -> (name: String)
    ensures
        name@ == run_dir_text(label@, started_unix_ms),
{
    let mut name = sanitize_label(label);
    push_str(&mut name, "-");
    push_decimal(&mut name, started_unix_ms);
    assert(name@ =~= run_dir_text(label@, started_unix_ms));
    name
}

/// The manifest line that opens a run.
pub fn run_start_line(started_unix_ms: u128, schema: &str, lane: &str) -> (line: String)
    ensures
        line@ == run_start_text(started_unix_ms, schema@, lane@),
{
    let mut line = String::new();
    push_str(&mut line, "{\"kind\":\"run-start\",\"started_unix_ms\":");
    push_decimal(&mut line, started_unix_ms);
    push_str(&mut line, ",\"schema\":\"");
    push_json_escaped(&mut line, schema);
    push_str(&mut line, "\",\"lane\":\"");
    push_json_escaped(&mut line, lane);
    push_str(&mut line, "\"}");
    assert(line@ =~= run_start_text(started_unix_ms, schema@, lane@));
    line
}

/// The counters of a run being written, as plain values.
pub struct LedgerView {
    pub segment_id: u32,
    pub segment_bytes_written: u64,
    pub max_segment_bytes: u64,
    pub snapshots: u64,
    pub payload_bytes: u64,
    pub started_unix_ms: u128,
    pub schema: Seq<char>,
    pub lane: Seq<char>,
}

/// The bookkeeping of an audit run: which segment is open, how full it is,
/// and how much has been recorded. It decides where each snapshot goes;
/// the caller does the writing.
pub struct AuditLedger {
    segment_id: u32,
    segment_bytes_written: u64,
    max_segment_bytes: u64,
    snapshots: u64,
    payload_bytes: u64,
    started_unix_ms: u128,
    schema: String,
    lane: String,
}

impl View for AuditLedger {
    type V = LedgerView;

    closed spec fn view(&self) -> LedgerView {
        LedgerView {
            segment_id: self.segment_id,
            segment_bytes_written: self.segment_bytes_written,
            max_segment_bytes: self.max_segment_bytes,
            snapshots: self.snapshots,
            payload_bytes: self.payload_bytes,
            started_unix_ms: self.started_unix_ms,
            schema: self.schema@,
            lane: self.lane@,
        }
    }
}

/// Whether a snapshot of `payload_len` bytes opens a new segment: when the
/// open one cannot take its record without passing the limit.
pub open spec fn needs_rotation(l: LedgerView, payload_len: nat) -> bool {
    l.segment_bytes_written + RECORD_HEADER_BYTES + payload_len > l.max_segment_bytes
}

/// Whether the counters can take a snapshot of `payload_len` bytes.
pub open spec fn can_take(l: LedgerView, payload_len: nat) -> bool {
    &&& l.segment_bytes_written + RECORD_HEADER_BYTES + payload_len <= u64::MAX
    &&& l.snapshots < u64::MAX
    &&& l.payload_bytes + payload_len <= u64::MAX
}

/// The counters after a snapshot of `payload_len` bytes.
pub open spec fn ledger_after(l: LedgerView, payload_len: nat) -> LedgerView {
    let rotate = needs_rotation(l, payload_len);
    let segment_id: u32 = if rotate {
        if l.segment_id < u32::MAX {
            (l.segment_id + 1) as u32
        } else {
            u32::MAX
        }
    } else {
        l.segment_id
    };
    let offset: int = if rotate {
        SEGMENT_MAGIC_BYTES as int
    } else {
        l.segment_bytes_written as int
    };
    LedgerView {
        segment_id,
        segment_bytes_written: (offset + RECORD_HEADER_BYTES + payload_len) as u64,
        snapshots: (l.snapshots + 1) as u64,
        payload_bytes: (l.payload_bytes + payload_len) as u64,
        ..l
    }
}

/// The counters after snapshots of the given payload lengths, in order.
pub open spec fn ledger_after_all(l: LedgerView, lens: Seq<nat>) -> LedgerView
    decreases lens.len(),
{
    if lens.len() == 0 {
        l
    } else {
        ledger_after(ledger_after_all(l, lens.drop_last()), lens.last())
    }
}

/// The sum of `lens`.
pub open spec fn total_len(lens: Seq<nat>) -> nat
    decreases lens.len(),
{
    if lens.len() == 0 {
        0
    } else {
        total_len(lens.drop_last()) + lens.last()
    }
}

/// After any snapshot the open segment is within its limit, unless it is a
/// fresh segment holding that one record alone.
pub proof fn lemma_segment_within_limit(l: LedgerView, payload_len: nat)
    requires
        l.segment_bytes_written >= SEGMENT_MAGIC_BYTES,
        can_take(l, payload_len),
    ensures
        ledger_after(l, payload_len).segment_bytes_written <= l.max_segment_bytes
            || ledger_after(l, payload_len).segment_bytes_written == SEGMENT_MAGIC_BYTES
            + RECORD_HEADER_BYTES + payload_len,
        ledger_after(l, payload_len).max_segment_bytes == l.max_segment_bytes,
{
}

/// Over any run of snapshots the counters add up: one snapshot per record,
/// every payload byte counted once, the segment number never going back,
/// and the run's start, limit, schema and lane unchanged.
pub proof fn lemma_counts_add_up(l: LedgerView, lens: Seq<nat>)
    requires
        l.snapshots + lens.len() <= u64::MAX,
        l.payload_bytes + total_len(lens) <= u64::MAX,
    ensures
        ledger_after_all(l, lens).snapshots == l.snapshots + lens.len(),
        ledger_after_all(l, lens).payload_bytes == l.payload_bytes + total_len(lens),
        ledger_after_all(l, lens).segment_id >= l.segment_id,
        ledger_after_all(l, lens).started_unix_ms == l.started_unix_ms,
        ledger_after_all(l, lens).max_segment_bytes == l.max_segment_bytes,
        ledger_after_all(l, lens).schema == l.schema,
        ledger_after_all(l, lens).lane == l.lane,
    decreases lens.len(),
{
    if lens.len() > 0 {
        let init = lens.drop_last();
        assert(total_len(lens) == total_len(init) + lens.last());
        lemma_counts_add_up(l, init);
    }
}

/// What the caller does for one snapshot: open a new segment first when
/// `rotate` is set, append `record` to segment `segment_id` at `offset`,
/// and append `manifest_line` to the manifest.
pub struct SnapshotAction {
    pub rotate: bool,
    pub segment_id: u32,
    pub offset: u64,
    pub record: Vec<u8>,
    pub manifest_line: String,
}

impl AuditLedger {
    /// Counters are well formed: a segment holds at least its magic, and the
    /// limit is at least the smallest one accepted.
    pub closed spec fn wf(&self) -> bool {
        &&& self.segment_bytes_written >= SEGMENT_MAGIC_BYTES
        &&& self.max_segment_bytes >= MIN_SEGMENT_BYTES
    }

    /// The bookkeeping of a run started at `started_unix_ms`: segment 0 open
    /// with its magic written, nothing recorded, and the configured limit
    /// raised to at least 64 MiB.
    pub fn new(config: &AuditRunConfig, started_unix_ms: u128) -> (l: Self)
        ensures
            l.wf(),
            l@ == (LedgerView {
                segment_id: 0,
                segment_bytes_written: SEGMENT_MAGIC_BYTES,
                max_segment_bytes: if config.max_segment_bytes > MIN_SEGMENT_BYTES {
                    config.max_segment_bytes
                } else {
                    MIN_SEGMENT_BYTES
                },
                snapshots: 0,
                payload_bytes: 0,
                started_unix_ms,
                schema: config.schema@,
                lane: config.lane@,
            }),
    {
        let max_segment_bytes = if config.max_segment_bytes > 64 * 1024 * 1024 {
            config.max_segment_bytes
        } else {
            64 * 1024 * 1024
        };
        AuditLedger {
            segment_id: 0,
            segment_bytes_written: SEGMENT_MAGIC_BYTES,
            max_segment_bytes,
            snapshots: 0,
            payload_bytes: 0,
            started_unix_ms,
            schema: config.schema.clone(),
            lane: config.lane.clone(),
        }
    }

    /// The open segment's number.
    pub fn segment_id(&self) -> (r: u32)
        ensures
            r == self@.segment_id,
    {
        self.segment_id
    }

    /// Bytes written to the open segment, its magic included.
    pub fn segment_bytes_written(&self) -> (r: u64)
        ensures
            r == self@.segment_bytes_written,
    {
        self.segment_bytes_written
    }

    /// Snapshots recorded so far.
    pub fn snapshots(&self) -> (r: u64)
        ensures
            r == self@.snapshots,
    {
        self.snapshots
    }

    /// Payload bytes recorded so far.
    pub fn payload_bytes(&self) -> (r: u64)
        ensures
            r == self@.payload_bytes,
    {
        self.payload_bytes
    }

    /// Whether a snapshot of `payload_len` bytes fits the counters.
    pub fn can_record(&self, payload_len: usize) -> (b: bool)
        ensures
            b == can_take(self@, payload_len as nat),
    {
        let len = payload_len as u64;
        self.segment_bytes_written <= u64::MAX - 76 && len <= u64::MAX - 76
            - self.segment_bytes_written && self.snapshots < u64::MAX && len <= u64::MAX
            - self.payload_bytes
    }

    /// Takes one snapshot written at `written_unix_ms`: decides whether it
    /// opens a new segment, where its record goes, and gives the record's
    /// bytes (its payload digest computed with BLAKE3) and its manifest line.
    pub fn write_snapshot(&mut self, snap: &AuditSnapshotRef, written_unix_ms: u128) -> (a:
        SnapshotAction)
        requires
            old(self).wf(),
            can_take(old(self)@, snap.payload@.len()),
        ensures
            final(self).wf(),
            final(self)@ == ledger_after(old(self)@, snap.payload@.len()),
            a.rotate == needs_rotation(old(self)@, snap.payload@.len()),
            a.segment_id == final(self)@.segment_id,
            a.offset + RECORD_HEADER_BYTES + snap.payload@.len() == final(self)@.segment_bytes_written,
            a.record@ == record_bytes(
                RecordView {
                    tick: snap.tick,
                    sequence: snap.sequence,
                    written_unix_ms,
                    digest: blake3_digest(snap.payload@),
                    payload: snap.payload@,
                },
            ),
            a.manifest_line@ == snapshot_text(
                a.segment_id,
                a.offset,
                snap.tick,
                snap.sequence,
                snap.payload@.len(),
                blake3_digest(snap.payload@),
                old(self)@.schema,
                old(self)@.lane,
            ),
    {
        let payload_len = snap.payload.len() as u64;
        let record_len = 76 + payload_len;
        let rotate = self.segment_bytes_written + record_len > self.max_segment_bytes;
        if rotate {
            self.segment_id = self.segment_id.saturating_add(1);
            self.segment_bytes_written = SEGMENT_MAGIC_BYTES;
        }
        let offset = self.segment_bytes_written;
        proof {
            reveal_with_fuel(pow256, 9);
        }
        let digest = blake3_hash(snap.payload);
        let record = encode_record_with_digest(snap.tick, snap.sequence, snap.payload, written_unix_ms, &digest);
        self.segment_bytes_written = self.segment_bytes_written + record_len;
        self.snapshots = self.snapshots + 1;
        self.payload_bytes = self.payload_bytes + payload_len;
        let manifest_line = self.snapshot_line(offset, snap.tick, snap.sequence, payload_len, digest.as_slice());
        SnapshotAction { rotate, segment_id: self.segment_id, offset, record, manifest_line }
    }

    fn snapshot_line(&self, offset: u64, tick: u64, sequence: u64, payload_len: u64, digest: &[u8]) -> (line: String)
        ensures
            line@ == snapshot_text(
                self@.segment_id,
                offset,
                tick,
                sequence,
                payload_len as nat,
                digest@,
                self@.schema,
                self@.lane,
            ),
    {
        let mut line = String::new();
        push_str(&mut line, "{\"kind\":\"snapshot\",\"segment\":");
        push_decimal(&mut line, self.segment_id as u128);
        push_str(&mut line, ",\"segment_file\":\"");
        let name = segment_file_name(self.segment_id);
        push_json_escaped(&mut line, name.as_str());
        push_str(&mut line, "\",\"offset\":");
        push_decimal(&mut line, offset as u128);
        push_str(&mut line, ",\"tick\":");
        push_decimal(&mut line, tick as u128);
        push_str(&mut line, ",\"sequence\":");
        push_decimal(&mut line, sequence as u128);
        push_str(&mut line, ",\"payload_bytes\":");
        push_decimal(&mut line, payload_len as u128);
        push_str(&mut line, ",\"blake3\":\"");
        push_lower_hex(&mut line, digest);
        push_str(&mut line, "\",\"schema\":\"");
        push_json_escaped(&mut line, self.schema.as_str());
        push_str(&mut line, "\",\"lane\":\"");
        push_json_escaped(&mut line, self.lane.as_str());
        push_str(&mut line, "\"}");
        assert(line@ =~= snapshot_text(
            self@.segment_id,
            offset,
            tick,
            sequence,
            payload_len as nat,
            digest@,
            self@.schema,
            self@.lane,
        ));
        line
    }

    /// The summary line of the run, finished at `finished_unix_ms`; the
    /// duration is zero if the clock went back.
    pub fn finish(&self, finished_unix_ms: u128) -> (line: String)
        ensures
            line@ == run_summary_text(
                self@.started_unix_ms,
                finished_unix_ms,
                self@.snapshots,
                self@.payload_bytes,
                self@.schema,
                self@.lane,
            ),
    {
        let mut line = String::new();
        push_str(&mut line, "{\"kind\":\"run-summary\",\"started_unix_ms\":");
        push_decimal(&mut line, self.started_unix_ms);
        push_str(&mut line, ",\"finished_unix_ms\":");
        push_decimal(&mut line, finished_unix_ms);
        push_str(&mut line, ",\"duration_ms\":");
        push_decimal(&mut line, finished_unix_ms.saturating_sub(self.started_unix_ms));
        push_str(&mut line, ",\"snapshots\":");
        push_decimal(&mut line, self.snapshots as u128);
        push_str(&mut line, ",\"payload_bytes\":");
        push_decimal(&mut line, self.payload_bytes as u128);
        push_str(&mut line, ",\"schema\":\"");
        push_json_escaped(&mut line, self.schema.as_str());
        push_str(&mut line, "\",\"lane\":\"");
        push_json_escaped(&mut line, self.lane.as_str());
        push_str(&mut line, "\"}");
        assert(line@ =~= run_summary_text(
            self@.started_unix_ms,
            finished_unix_ms,
            self@.snapshots,
            self@.payload_bytes,
            self@.schema,
            self@.lane,
        ));
        line
    }
}

} // verus!

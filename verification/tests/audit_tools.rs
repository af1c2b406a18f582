use pi_unitary::audit_format::{
    decode_segment, encode_record, encode_record_with_digest, file_magic_bytes, read_u32_le,
    read_u64_le, record_overhead, AuditDecodeError, RECORD_MAGIC,
};
use pi_unitary::audit_run::{
    json_escape, run_dir_name, run_start_line, sanitize_label, segment_file_name, AuditLedger,
    AuditRunConfig, AuditSnapshotRef, MIN_SEGMENT_BYTES,
};
use pi_unitary::bytes::u32_words_to_le_bytes;
use pi_unitary::node_record::{decode_payload_nodes, decode_payload_rows, decoded_csv_header, GpuNodeRecord};

const EMPTY_BLAKE3: &str = "af1349b9f5f9a1a6a0404dea36dcc9499bcb25c9adc112b7cc9a93cae41f3262";

fn hex(bytes: &[u8]) -> String {
    bytes.iter().map(|b| format!("{:02x}", b)).collect()
}

#[test]
fn segment_magic_and_overhead() {
    assert_eq!(file_magic_bytes(), b"RPAUDIT1".to_vec());
    assert_eq!(record_overhead(), 76);
    assert_eq!(RECORD_MAGIC, 0x5250_534E);
}

#[test]
fn encode_record_layout_and_digest() {
    let rec = encode_record(7, 9, &[], 1000);
    assert_eq!(rec.len(), 76);
    assert_eq!(&rec[0..4], &[0x4E, 0x53, 0x50, 0x52]);
    assert_eq!(&rec[4..12], &7u64.to_le_bytes());
    assert_eq!(&rec[12..20], &9u64.to_le_bytes());
    assert_eq!(&rec[20..28], &0u64.to_le_bytes());
    assert_eq!(&rec[28..44], &1000u128.to_le_bytes());
    assert_eq!(hex(&rec[44..76]), EMPTY_BLAKE3);
}

#[test]
fn encode_record_carries_payload_after_digest() {
    let payload = [1u8, 2, 3, 4, 5];
    let digest = [0xAAu8; 32];
    let rec = encode_record_with_digest(1, 2, &payload, 3, &digest);
    assert_eq!(rec.len(), 81);
    assert_eq!(&rec[20..28], &5u64.to_le_bytes());
    assert_eq!(&rec[44..76], &digest);
    assert_eq!(&rec[76..], &payload);
    let hashed = encode_record(1, 2, &payload, 3);
    assert_ne!(&hashed[44..76], &payload[..]);
    assert_eq!(&hashed[76..], &payload);
}

#[test]
fn segment_round_trips_records() {
    let mut seg = file_magic_bytes();
    seg.extend(encode_record(10, 0, &[9, 8, 7], 55));
    seg.extend(encode_record(11, 1, &[], 56));
    let recs = decode_segment(&seg).expect("decodes");
    assert_eq!(recs.len(), 2);
    assert_eq!(recs[0].tick, 10);
    assert_eq!(recs[0].sequence, 0);
    assert_eq!(recs[0].written_unix_ms, 55);
    assert_eq!(recs[0].payload, vec![9, 8, 7]);
    assert_eq!(recs[1].tick, 11);
    assert_eq!(recs[1].sequence, 1);
    assert_eq!(recs[1].payload, Vec::<u8>::new());
    assert_eq!(hex(&recs[1].digest), EMPTY_BLAKE3);
}

#[test]
fn segment_with_only_magic_is_empty() {
    assert_eq!(decode_segment(&file_magic_bytes()).unwrap().len(), 0);
}

#[test]
fn segment_decode_errors() {
    assert_eq!(
        decode_segment(b"RPAUDIT2").unwrap_err(),
        AuditDecodeError::InvalidSegmentMagic
    );
    assert_eq!(decode_segment(b"RPA").unwrap_err(), AuditDecodeError::InvalidSegmentMagic);

    let mut short = file_magic_bytes();
    short.extend([0u8; 10]);
    assert_eq!(
        decode_segment(&short).unwrap_err(),
        AuditDecodeError::TruncatedRecordHeader(8)
    );

    let mut bad_magic = file_magic_bytes();
    let mut rec = encode_record(1, 1, &[], 1);
    rec[0] = 0;
    bad_magic.extend(rec);
    assert_eq!(
        decode_segment(&bad_magic).unwrap_err(),
        AuditDecodeError::InvalidRecordMagic(8)
    );

    let mut cut = file_magic_bytes();
    let rec = encode_record(1, 1, &[1, 2, 3, 4, 5], 1);
    cut.extend(&rec[..78]);
    assert_eq!(
        decode_segment(&cut).unwrap_err(),
        AuditDecodeError::TruncatedPayload(84)
    );
}

#[test]
fn little_endian_reads() {
    let buf = [1u8, 0, 0, 0, 2, 0, 0, 0, 0xFF];
    assert_eq!(read_u32_le(&buf, 0), Ok(1));
    assert_eq!(read_u32_le(&buf, 4), Ok(2));
    assert_eq!(read_u64_le(&buf, 0), Ok(0x0000_0002_0000_0001));
    assert_eq!(read_u32_le(&buf, 6), Err(AuditDecodeError::U32OutOfBounds(6)));
    assert_eq!(read_u64_le(&buf, 2), Err(AuditDecodeError::U64OutOfBounds(2)));
    assert_eq!(read_u32_le(&buf, usize::MAX), Err(AuditDecodeError::U32OutOfBounds(usize::MAX)));
}

#[test]
fn node_payload_round_trip_and_csv() {
    let words: [u32; 8] = [4095, 0xFFFF_FFFF, 3, 0, 7, 5, 4, 0xFFFF_FFFE];
    let payload = u32_words_to_le_bytes(&words);
    assert_eq!(payload.len(), 32);
    let nodes = decode_payload_nodes(&payload).unwrap();
    assert_eq!(
        nodes,
        vec![GpuNodeRecord {
            phase_tick: 4095,
            coherence: -1,
            energy: 3,
            shell_ring_ticks: 0,
            spin_bias: 7,
            phase_id: 5,
            pathway_id: 4,
            drive: -2,
        }]
    );
    let rows = decode_payload_rows(12, 3, &payload).unwrap();
    assert_eq!(
        rows,
        vec!["12,3,0,4095,-1,3,0,7,5,dissolution,4,catastrophic_collapse,-2".to_string()]
    );
    assert_eq!(
        decoded_csv_header(),
        "tick,sequence,node,phase_tick,coherence,energy,shell_ring_ticks,spin_bias,phase_id,phase,pathway_id,pathway,drive"
    );
}

#[test]
fn node_payload_must_be_whole_records() {
    assert_eq!(
        decode_payload_nodes(&[0u8; 33]).unwrap_err(),
        AuditDecodeError::PayloadNotNodeAligned(33)
    );
    assert_eq!(
        decode_payload_rows(0, 0, &[0u8; 31]).unwrap_err(),
        AuditDecodeError::PayloadNotNodeAligned(31)
    );
    assert_eq!(decode_payload_rows(0, 0, &[]).unwrap().len(), 0);
}

#[test]
fn words_to_bytes_is_little_endian() {
    assert_eq!(
        u32_words_to_le_bytes(&[0x0403_0201, 0xA0B0_C0D0]),
        vec![1, 2, 3, 4, 0xD0, 0xC0, 0xB0, 0xA0]
    );
    assert!(u32_words_to_le_bytes(&[]).is_empty());
}

#[test]
fn json_escape_escapes_specials() {
    assert_eq!(json_escape("a\"b\\c\nd\re"), "a\\\"b\\\\c\\nd\\re");
    assert_eq!(json_escape("plain-text"), "plain-text");
    assert_eq!(json_escape(""), "");
}

#[test]
fn sanitize_label_replaces_odd_characters() {
    assert_eq!(sanitize_label("gpu audit/1.2"), "gpu_audit_1_2");
    assert_eq!(sanitize_label("ok-_AZ09"), "ok-_AZ09");
    assert_eq!(sanitize_label(""), "run");
    assert_eq!(sanitize_label("é"), "_");
}

#[test]
fn names_of_files_and_dirs() {
    assert_eq!(segment_file_name(0), "segment_00000.rpa");
    assert_eq!(segment_file_name(42), "segment_00042.rpa");
    assert_eq!(segment_file_name(123456), "segment_123456.rpa");
    assert_eq!(run_dir_name("my run", 1700000000123), "my_run-1700000000123");
    assert_eq!(run_dir_name("", 5), "run-5");
}

#[test]
fn run_start_line_text() {
    assert_eq!(
        run_start_line(17, "pingpong-v1", "full\"state"),
        "{\"kind\":\"run-start\",\"started_unix_ms\":17,\"schema\":\"pingpong-v1\",\"lane\":\"full\\\"state\"}"
    );
}

#[test]
fn config_defaults() {
    let c = AuditRunConfig::with_defaults("audit_runs");
    assert_eq!(c.out_dir, "audit_runs");
    assert_eq!(c.run_label, "gpu-audit");
    assert_eq!(c.schema, "pingpong-v1");
    assert_eq!(c.lane, "full-state");
    assert_eq!(c.max_segment_bytes, 512 * 1024 * 1024);
}

#[test]
fn ledger_raises_small_limits_and_counts() {
    let mut cfg = AuditRunConfig::with_defaults("x");
    cfg.max_segment_bytes = 1024;
    cfg.schema = "s".to_string();
    cfg.lane = "l".to_string();
    let mut l = AuditLedger::new(&cfg, 100);
    assert_eq!(l.segment_id(), 0);
    assert_eq!(l.segment_bytes_written(), 8);
    let payload = [0u8; 4];
    assert!(l.can_record(payload.len()));
    let a = l.write_snapshot(&AuditSnapshotRef { tick: 3, sequence: 0, payload: &payload }, 200);
    assert!(!a.rotate);
    assert_eq!(a.segment_id, 0);
    assert_eq!(a.offset, 8);
    assert_eq!(a.record, encode_record(3, 0, &payload, 200));
    assert_eq!(l.segment_bytes_written(), 8 + 76 + 4);
    assert_eq!(l.snapshots(), 1);
    assert_eq!(l.payload_bytes(), 4);
    let b = l.write_snapshot(&AuditSnapshotRef { tick: 4, sequence: 1, payload: &[] }, 201);
    assert_eq!(b.offset, 88);
    assert_eq!(l.snapshots(), 2);
    assert_eq!(l.payload_bytes(), 4);
    let digest = &a.record[44..76];
    assert_eq!(
        a.manifest_line,
        format!(
            "{{\"kind\":\"snapshot\",\"segment\":0,\"segment_file\":\"segment_00000.rpa\",\"offset\":8,\"tick\":3,\"sequence\":0,\"payload_bytes\":4,\"blake3\":\"{}\",\"schema\":\"s\",\"lane\":\"l\"}}",
            hex(digest)
        )
    );
    assert_eq!(
        l.finish(150),
        "{\"kind\":\"run-summary\",\"started_unix_ms\":100,\"finished_unix_ms\":150,\"duration_ms\":50,\"snapshots\":2,\"payload_bytes\":4,\"schema\":\"s\",\"lane\":\"l\"}"
    );
    assert!(l.finish(50).contains("\"duration_ms\":0,"));
}

#[test]
fn ledger_rotates_when_segment_is_full() {
    let cfg = AuditRunConfig::with_defaults("x");
    let mut cfg = cfg;
    cfg.max_segment_bytes = 0;
    let mut l = AuditLedger::new(&cfg, 0);
    let big = vec![0u8; (MIN_SEGMENT_BYTES as usize) - 8 - 76];
    let a = l.write_snapshot(&AuditSnapshotRef { tick: 0, sequence: 0, payload: &big }, 0);
    assert!(!a.rotate);
    assert_eq!(l.segment_bytes_written(), MIN_SEGMENT_BYTES);
    let b = l.write_snapshot(&AuditSnapshotRef { tick: 1, sequence: 1, payload: &[1] }, 0);
    assert!(b.rotate);
    assert_eq!(b.segment_id, 1);
    assert_eq!(b.offset, 8);
    assert_eq!(l.segment_bytes_written(), 8 + 76 + 1);
    assert!(b.manifest_line.contains("\"segment_file\":\"segment_00001.rpa\""));
}

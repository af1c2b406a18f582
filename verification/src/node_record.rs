use vstd::prelude::*;

use crate::audit_format::AuditDecodeError;
use crate::bytes::{le_decode, le_encode, lemma_le_roundtrip, pow256, read_le, words_le};
use crate::choke_schema::{pathway_label, pathway_name, phase_label, phase_name, GPU_CHOKE_NODE_BYTES};
use crate::text::{decimal, push_decimal, push_signed_decimal, push_str, signed_decimal};

verus! {

/// One node of a snapshot payload: eight little-endian 32-bit words.
#[derive(Debug, Clone, Copy, PartialEq, Eq, Structural)]
pub struct GpuNodeRecord {
    pub phase_tick: u32,
    pub coherence: i32,
    pub energy: i32,
    pub shell_ring_ticks: i32,
    pub spin_bias: i32,
    pub phase_id: u32,
    pub pathway_id: u32,
    pub drive: i32,
}

/// The 32-bit word `k` of a payload.
pub open spec fn word_at(p: Seq<u8>, k: int) -> u32 {
    le_decode(p.subrange(4 * k, 4 * k + 4)) as u32
}

/// The node record made of the eight words from word `b` on.
pub open spec fn node_from_words(w: spec_fn(int) -> u32, b: int) -> GpuNodeRecord {
    GpuNodeRecord {
        phase_tick: w(b),
        coherence: w(b + 1) as i32,
        energy: w(b + 2) as i32,
        shell_ring_ticks: w(b + 3) as i32,
        spin_bias: w(b + 4) as i32,
        phase_id: w(b + 5),
        pathway_id: w(b + 6),
        drive: w(b + 7) as i32,
    }
}

/// Node `i` of a payload.
pub open spec fn node_at(p: Seq<u8>, i: int) -> GpuNodeRecord {
    node_from_words(|k: int| word_at(p, k), 8 * i)
}

/// Node `i` of a sequence of words, eight words per node.
pub open spec fn node_of_words(words: Seq<u32>, i: int) -> GpuNodeRecord {
    node_from_words(|k: int| words[k], 8 * i)
}

/// The decoded CSV line of node `node_idx` of the snapshot taken at `tick`
/// as number `sequence`.
pub open spec fn node_csv_line(tick: u64, sequence: u64, node_idx: usize, n: GpuNodeRecord) -> Seq<char> {
    decimal(tick as nat) + ","@ + decimal(sequence as nat) + ","@ + decimal(node_idx as nat) + ","@
        + decimal(n.phase_tick as nat) + ","@ + signed_decimal(n.coherence as int) + ","@
        + signed_decimal(n.energy as int) + ","@ + signed_decimal(n.shell_ring_ticks as int)
        + ","@ + signed_decimal(n.spin_bias as int) + ","@ + decimal(n.phase_id as nat) + ","@
        + phase_label(n.phase_id) + ","@ + decimal(n.pathway_id as nat) + ","@ + pathway_label(
        n.pathway_id,
    ) + ","@ + signed_decimal(n.drive as int)
}

/// Names of the columns of a decoded snapshot file.
pub fn decoded_csv_header() -> (h: &'static str)
    ensures
        h@
            == "tick,sequence,node,phase_tick,coherence,energy,shell_ring_ticks,spin_bias,phase_id,phase,pathway_id,pathway,drive"@,
{
    "tick,sequence,node,phase_tick,coherence,energy,shell_ring_ticks,spin_bias,phase_id,phase,pathway_id,pathway,drive"
}

fn word(payload: &[u8], k: usize) -> (w: u32)
    requires
        4 * k + 4 <= payload@.len(),
    ensures
        w == word_at(payload@, k as int),
{
    let len = payload.len();
    assert(4 * k + 4 <= len);
    let v = read_le(payload, 4 * k, 4);
    proof {
        crate::bytes::lemma_le_decode_bound(payload@.subrange(4 * k as int, 4 * k + 4));
        reveal_with_fuel(pow256, 5);
    }
    v as u32
}

/// The node records of a snapshot payload, in order.
pub fn decode_payload_nodes(payload: &[u8]) -> (r: Result<Vec<GpuNodeRecord>, AuditDecodeError>)
    ensures
        payload@.len() % 32 != 0 ==> r == Err::<Vec<GpuNodeRecord>, AuditDecodeError>(
            AuditDecodeError::PayloadNotNodeAligned(payload@.len() as usize),
        ),
        payload@.len() % 32 == 0 ==> (r matches Ok(v) && v@.len() == payload@.len() / 32
            && forall|i: int| 0 <= i < v@.len() ==> #[trigger] v@[i] == node_at(payload@, i)),
{
    let len = payload.len();
    if len % GPU_CHOKE_NODE_BYTES != 0 {
        return Err(AuditDecodeError::PayloadNotNodeAligned(len));
    }
    let node_count = len / GPU_CHOKE_NODE_BYTES;
    let mut out: Vec<GpuNodeRecord> = Vec::new();
    let mut i: usize = 0;
    while i < node_count
        invariant
            len == payload@.len(),
            len % 32 == 0,
            node_count == len / 32,
            i <= node_count,
            out@.len() == i,
            forall|j: int| 0 <= j < i ==> #[trigger] out@[j] == node_at(payload@, j),
        decreases node_count - i,
    {
        let b = 8 * i;
        proof {
            assert(32 * i + 32 <= len) by (nonlinear_arith)
                requires
                    i < node_count,
                    node_count == len / 32,
                    len % 32 == 0,
            ;
        }
        let n = GpuNodeRecord {
            phase_tick: word(payload, b),
            coherence: word(payload, b + 1) as i32,
            energy: word(payload, b + 2) as i32,
            shell_ring_ticks: word(payload, b + 3) as i32,
            spin_bias: word(payload, b + 4) as i32,
            phase_id: word(payload, b + 5),
            pathway_id: word(payload, b + 6),
            drive: word(payload, b + 7) as i32,
        };
        out.push(n);
        i += 1;
    }
    Ok(out)
}

/// The decoded CSV line of one node.
pub fn node_csv(tick: u64, sequence: u64, node_idx: usize, n: &GpuNodeRecord) -> (line: String)
    ensures
        line@ == node_csv_line(tick, sequence, node_idx, *n),
{
    let mut s = String::new();
    push_decimal(&mut s, tick as u128);
    push_str(&mut s, ",");
    push_decimal(&mut s, sequence as u128);
    push_str(&mut s, ",");
    push_decimal(&mut s, node_idx as u128);
    push_str(&mut s, ",");
    push_decimal(&mut s, n.phase_tick as u128);
    push_str(&mut s, ",");
    push_signed_decimal(&mut s, n.coherence as i64);
    push_str(&mut s, ",");
    push_signed_decimal(&mut s, n.energy as i64);
    push_str(&mut s, ",");
    push_signed_decimal(&mut s, n.shell_ring_ticks as i64);
    push_str(&mut s, ",");
    push_signed_decimal(&mut s, n.spin_bias as i64);
    push_str(&mut s, ",");
    push_decimal(&mut s, n.phase_id as u128);
    push_str(&mut s, ",");
    push_str(&mut s, phase_name(n.phase_id));
    push_str(&mut s, ",");
    push_decimal(&mut s, n.pathway_id as u128);
    push_str(&mut s, ",");
    push_str(&mut s, pathway_name(n.pathway_id));
    push_str(&mut s, ",");
    push_signed_decimal(&mut s, n.drive as i64);
    proof {
        assert(s@ =~= node_csv_line(tick, sequence, node_idx, *n));
    }
    s
}

/// The decoded CSV lines of every node of one snapshot payload.
pub fn decode_payload_rows(tick: u64, sequence: u64, payload: &[u8]) -> (r: Result<
    Vec<String>,
    AuditDecodeError,
>)
    ensures
        payload@.len() % 32 != 0 ==> r == Err::<Vec<String>, AuditDecodeError>(
            AuditDecodeError::PayloadNotNodeAligned(payload@.len() as usize),
        ),
        payload@.len() % 32 == 0 ==> (r matches Ok(v) && v@.len() == payload@.len() / 32
            && forall|i: int|
            0 <= i < v@.len() ==> #[trigger] v@[i]@ == node_csv_line(
                tick,
                sequence,
                i as usize,
                node_at(payload@, i),
            )),
{
    let nodes = match decode_payload_nodes(payload) {
        Ok(n) => n,
        Err(e) => return Err(e),
    };
    let mut lines: Vec<String> = Vec::new();
    let mut i: usize = 0;
    while i < nodes.len()
        invariant
            payload@.len() % 32 == 0,
            nodes@.len() == payload@.len() / 32,
            forall|j: int| 0 <= j < nodes@.len() ==> #[trigger] nodes@[j] == node_at(payload@, j),
            i <= nodes@.len(),
            lines@.len() == i,
            forall|j: int|
                0 <= j < i ==> #[trigger] lines@[j]@ == node_csv_line(
                    tick,
                    sequence,
                    j as usize,
                    node_at(payload@, j),
                ),
        decreases nodes@.len() - i,
    {
        let line = node_csv(tick, sequence, i, &nodes[i]);
        lines.push(line);
        i += 1;
    }
    Ok(lines)
}

/// Word `k` of the little-endian bytes of a word sequence is that word.
pub proof fn lemma_word_at_words_le(words: Seq<u32>, k: int)
    requires
        0 <= k < words.len(),
    ensures
        words_le(words).len() == 4 * words.len(),
        word_at(words_le(words), k) == words[k],
    decreases words.len(),
{
    lemma_words_le_len(words);
    let n = words.len();
    let prefix = words_le(words.drop_last());
    let last = le_encode(words.last() as nat, 4);
    reveal_with_fuel(pow256, 5);
    lemma_le_roundtrip(words.last() as nat, 4);
    lemma_words_le_len(words.drop_last());
    if k < n - 1 {
        lemma_word_at_words_le(words.drop_last(), k);
        assert((prefix + last).subrange(4 * k, 4 * k + 4) =~= prefix.subrange(4 * k, 4 * k + 4));
    } else {
        assert((prefix + last).subrange(4 * k, 4 * k + 4) =~= last);
    }
}

proof fn lemma_words_le_len(words: Seq<u32>)
    ensures
        words_le(words).len() == 4 * words.len(),
    decreases words.len(),
{
    if words.len() > 0 {
        lemma_words_le_len(words.drop_last());
        crate::bytes::lemma_le_encode_len(words.last() as nat, 4);
    }
}

/// Node records written as words, eight per node, read back word for word:
/// the payload layout of a node is the same on both sides.
pub proof fn lemma_nodes_roundtrip(words: Seq<u32>, i: int)
    requires
        words.len() % 8 == 0,
        0 <= i < words.len() / 8,
    ensures
        words_le(words).len() % 32 == 0,
        words_le(words).len() / 32 == words.len() / 8,
        node_at(words_le(words), i) == node_of_words(words, i),
{
    lemma_words_le_len(words);
    assert(8 * i + 7 < words.len()) by (nonlinear_arith)
        requires
            words.len() % 8 == 0,
            0 <= i < words.len() / 8,
    ;
    lemma_word_at_words_le(words, 8 * i);
    lemma_word_at_words_le(words, 8 * i + 1);
    lemma_word_at_words_le(words, 8 * i + 2);
    lemma_word_at_words_le(words, 8 * i + 3);
    lemma_word_at_words_le(words, 8 * i + 4);
    lemma_word_at_words_le(words, 8 * i + 5);
    lemma_word_at_words_le(words, 8 * i + 6);
    lemma_word_at_words_le(words, 8 * i + 7);
}

/// Node `i` of a payload is made of the eight little-endian words at bytes
/// `32 * i .. 32 * i + 32`, in field order, whatever the other bytes hold.
pub proof fn lemma_node_at_bytes(p: Seq<u8>, i: int)
    requires
        0 <= i,
        32 * i + 32 <= p.len(),
    ensures
        node_at(p, i).phase_tick == le_decode(p.subrange(32 * i, 32 * i + 4)) as u32,
        node_at(p, i).coherence == le_decode(p.subrange(32 * i + 4, 32 * i + 8)) as u32 as i32,
        node_at(p, i).energy == le_decode(p.subrange(32 * i + 8, 32 * i + 12)) as u32 as i32,
        node_at(p, i).shell_ring_ticks == le_decode(p.subrange(32 * i + 12, 32 * i + 16)) as u32
            as i32,
        node_at(p, i).spin_bias == le_decode(p.subrange(32 * i + 16, 32 * i + 20)) as u32 as i32,
        node_at(p, i).phase_id == le_decode(p.subrange(32 * i + 20, 32 * i + 24)) as u32,
        node_at(p, i).pathway_id == le_decode(p.subrange(32 * i + 24, 32 * i + 28)) as u32,
        node_at(p, i).drive == le_decode(p.subrange(32 * i + 28, 32 * i + 32)) as u32 as i32,
{
    assert(4 * (8 * i) == 32 * i);
    assert(4 * (8 * i + 1) == 32 * i + 4);
    assert(4 * (8 * i + 2) == 32 * i + 8);
    assert(4 * (8 * i + 3) == 32 * i + 12);
    assert(4 * (8 * i + 4) == 32 * i + 16);
    assert(4 * (8 * i + 5) == 32 * i + 20);
    assert(4 * (8 * i + 6) == 32 * i + 24);
    assert(4 * (8 * i + 7) == 32 * i + 28);
}

/// Decoding the bytes of node words gives node `i` the words `8 * i` to
/// `8 * i + 7`, in field order: each node is read from its own record.
pub proof fn lemma_node_at_words(words: Seq<u32>, i: int)
    requires
        0 <= i,
        8 * i + 8 <= words.len(),
    ensures
        node_at(words_le(words), i).phase_tick == words[8 * i],
        node_at(words_le(words), i).coherence == words[8 * i + 1] as i32,
        node_at(words_le(words), i).energy == words[8 * i + 2] as i32,
        node_at(words_le(words), i).shell_ring_ticks == words[8 * i + 3] as i32,
        node_at(words_le(words), i).spin_bias == words[8 * i + 4] as i32,
        node_at(words_le(words), i).phase_id == words[8 * i + 5],
        node_at(words_le(words), i).pathway_id == words[8 * i + 6],
        node_at(words_le(words), i).drive == words[8 * i + 7] as i32,
{
    lemma_word_at_words_le(words, 8 * i);
    lemma_word_at_words_le(words, 8 * i + 1);
    lemma_word_at_words_le(words, 8 * i + 2);
    lemma_word_at_words_le(words, 8 * i + 3);
    lemma_word_at_words_le(words, 8 * i + 4);
    lemma_word_at_words_le(words, 8 * i + 5);
    lemma_word_at_words_le(words, 8 * i + 6);
    lemma_word_at_words_le(words, 8 * i + 7);
}

} // verus!

use vstd::prelude::*;

use crate::bytes::{le_encode, pow256, push_le};
use crate::choke_schema::{GPU_CHOKE_NODE_BYTES, GPU_CHOKE_NODE_WORDS, TAU_TICKS_DEFAULT_U32};

verus! {

/// Seed of the generator that fills the initial node words.
pub const NODE_SEED: u64 = 0x0123_4567_89AB_CDEF;

/// Seed of the generator that fills capture payloads.
pub const PAYLOAD_SEED: u64 = 0x9E37_79B9_7F4A_7C15;

/// One step of the xorshift64 generator (shifts 13, 7, 17).
pub open spec fn xorshift_next(x: u64) -> u64 {
    let a = x ^ (x << 13u64);
    let b = a ^ (a >> 7u64);
    b ^ (b << 17u64)
}

/// The generator's state after `n` steps from `x`.
pub open spec fn xorshift_iter(x: u64, n: nat) -> u64
    decreases n,
{
    if n == 0 {
        x
    } else {
        xorshift_next(xorshift_iter(x, (n - 1) as nat))
    }
}

/// `x` rotated left by `k` bits, for `0 < k < 64`.
pub open spec fn rotl(x: u64, k: u64) -> u64 {
    (x << k) | (x >> ((64 - k) as u64))
}

/// Advances the generator one step and returns its new state.
pub fn xorshift64(state: &mut u64) -> (r: u64)
    ensures
        *final(state) == xorshift_next(*old(state)),
        r == *final(state),
{
    *state = *state ^ (*state << 13u64);
    *state = *state ^ (*state >> 7u64);
    *state = *state ^ (*state << 17u64);
    *state
}

/// The generator never reaches zero from a nonzero state, so it never gets stuck.
pub proof fn lemma_xorshift_nonzero(x: u64)
    requires
        x != 0,
    ensures
        xorshift_next(x) != 0,
{
    let a = x ^ (x << 13u64);
    let b = a ^ (a >> 7u64);
    assert(x != 0 ==> (x ^ (x << 13u64)) != 0) by (bit_vector);
    assert(a != 0 ==> (a ^ (a >> 7u64)) != 0) by (bit_vector);
    assert(b != 0 ==> (b ^ (b << 17u64)) != 0) by (bit_vector);
}

fn rotate_left(x: u64, k: u64) -> (r: u64)
    requires
        0 < k < 64,
    ensures
        r == rotl(x, k),
{
    (x << k) | (x >> (64 - k))
}

/// The 64-bit word that fills bytes `8k..8k+8` of a capture payload.
pub open spec fn payload_word(state: u64, tick: u64, seq: u64, k: nat) -> u64 {
    xorshift_iter(state, k + 1) ^ rotl(tick, 17) ^ rotl(seq, 3)
}

/// Fills `buf` with generator words mixed with the tick and sequence, eight
/// bytes per word, little-endian, the last word cut to what fits.
pub fn fill_payload(buf: &mut [u8], tick: u64, seq: u64, state: &mut u64)
    ensures
        final(buf)@.len() == old(buf)@.len(),
        forall|j: int|
            0 <= j < old(buf)@.len() ==> #[trigger] final(buf)@[j] == le_encode(
                payload_word(*old(state), tick, seq, (j / 8) as nat) as nat,
                8,
            )[j % 8],
        *final(state) == xorshift_iter(*old(state), ((old(buf)@.len() + 7) / 8) as nat),
{
    let ghost s0 = *state;
    let len = buf.len();
    let mut i: usize = 0;
    let mut k: usize = 0;
    while i < len
        invariant
            len == buf@.len(),
            len == old(buf)@.len(),
            i <= len,
            i == 8 * k || (i == len && 8 * k - 8 < len < 8 * k),
            *state == xorshift_iter(s0, k as nat),
            forall|j: int|
                0 <= j < i ==> #[trigger] buf@[j] == le_encode(
                    payload_word(s0, tick, seq, (j / 8) as nat) as nat,
                    8,
                )[j % 8],
        decreases len - i,
    {
        assert(i == 8 * k);
        let v = xorshift64(state) ^ rotate_left(tick, 17) ^ rotate_left(seq, 3);
        let mut bytes: Vec<u8> = Vec::new();
        proof {
            reveal_with_fuel(pow256, 9);
        }
        push_le(&mut bytes, v as u128, 8);
        proof {
            crate::bytes::lemma_le_encode_len(v as nat, 8);
            assert(bytes@ =~= le_encode(v as nat, 8));
        }
        let take = if len - i < 8 {
            len - i
        } else {
            8
        };
        let mut b: usize = 0;
        while b < take
            invariant
                len == buf@.len(),
                i + take <= len,
                take <= 8,
                i == 8 * k,
                b <= take,
                bytes@ == le_encode(v as nat, 8),
                bytes@.len() == 8,
                v == payload_word(s0, tick, seq, k as nat),
                forall|j: int|
                    0 <= j < i + b ==> #[trigger] buf@[j] == le_encode(
                        payload_word(s0, tick, seq, (j / 8) as nat) as nat,
                        8,
                    )[j % 8],
            decreases take - b,
        {
            buf[i + b] = bytes[b];
            proof {
                assert((i + b) as int / 8 == k);
                assert((i + b) as int % 8 == b);
            }
            b += 1;
        }
        i += take;
        k += 1;
    }
    assert((len + 7) / 8 == k);
}

/// Nodes of a ping-pong run: the number asked for, or as many as
/// `state_bytes` hold, at least one.
pub fn node_count_for(nodes: usize, state_bytes: usize) -> (n: usize)
    ensures
        nodes > 0 ==> n == nodes,
        nodes == 0 ==> n == if state_bytes / 32 > 1 {
            state_bytes / 32
        } else {
            1
        },
        n >= 1,
{
    if nodes > 0 {
        nodes
    } else {
        let fit = state_bytes / GPU_CHOKE_NODE_BYTES;
        if fit > 1 {
            fit
        } else {
            1
        }
    }
}

/// The initial node words of a ping-pong run: per node its index on the
/// phase ring, two seeded bits of coherence and of energy, and zeros.
pub open spec fn initial_words_match(node_count: nat, w: Seq<u32>) -> bool {
    &&& w.len() == if node_count > 0 {
        8 * node_count
    } else {
        1
    }
    &&& forall|idx: int|
        0 <= idx < node_count ==> {
            let v = xorshift_iter(NODE_SEED, (idx + 1) as nat);
            &&& #[trigger] w[8 * idx] == (idx as u32) % TAU_TICKS_DEFAULT_U32
            &&& w[8 * idx + 1] == (v as u32) & 3
            &&& w[8 * idx + 2] == ((v >> 16u64) as u32) & 3
            &&& w[8 * idx + 3] == 0
            &&& w[8 * idx + 4] == 0
            &&& w[8 * idx + 5] == 0
            &&& w[8 * idx + 6] == 0
            &&& w[8 * idx + 7] == 0
        }
    &&& node_count == 0 ==> w[0] == 0
}

/// Builds the initial node words of a ping-pong run.
pub fn initial_node_words(node_count: usize) -> (w: Vec<u32>)
    requires
        node_count * 32 <= usize::MAX,
    ensures
        initial_words_match(node_count as nat, w@),
{
    let words = if node_count * GPU_CHOKE_NODE_BYTES / 4 > 1 {
        node_count * GPU_CHOKE_NODE_BYTES / 4
    } else {
        1
    };
    let mut w: Vec<u32> = Vec::new();
    let mut j: usize = 0;
    while j < words
        invariant
            j <= words,
            w@.len() == j,
            forall|k: int| 0 <= k < j ==> #[trigger] w@[k] == 0,
        decreases words - j,
    {
        w.push(0);
        j += 1;
    }
    let mut seed_state: u64 = NODE_SEED;
    let mut idx: usize = 0;
    while idx < node_count
        invariant
            node_count * 32 <= usize::MAX,
            idx <= node_count,
            words == if node_count > 0 {
                8 * node_count
            } else {
                1
            },
            w@.len() == words,
            seed_state == xorshift_iter(NODE_SEED, idx as nat),
            forall|i: int|
                0 <= i < idx ==> {
                    let v = xorshift_iter(NODE_SEED, (i + 1) as nat);
                    &&& #[trigger] w@[8 * i] == (i as u32) % TAU_TICKS_DEFAULT_U32
                    &&& w@[8 * i + 1] == (v as u32) & 3
                    &&& w@[8 * i + 2] == ((v >> 16u64) as u32) & 3
                    &&& w@[8 * i + 3] == 0
                    &&& w@[8 * i + 4] == 0
                    &&& w@[8 * i + 5] == 0
                    &&& w@[8 * i + 6] == 0
                    &&& w@[8 * i + 7] == 0
                },
            forall|k: int| 8 * idx <= k < w@.len() ==> #[trigger] w@[k] == 0,
        decreases node_count - idx,
    {
        let base = idx * GPU_CHOKE_NODE_WORDS;
        let v = xorshift64(&mut seed_state);
        let ghost before = w@;
        w.set(base, (idx as u32) % TAU_TICKS_DEFAULT_U32);
        w.set(base + 1, (v as u32) & 0x3);
        w.set(base + 2, ((v >> 16) as u32) & 0x3);
        w.set(base + 3, 0);
        w.set(base + 4, 0);
        w.set(base + 5, 0);
        w.set(base + 6, 0);
        w.set(base + 7, 0);
        proof {
            assert(v == xorshift_iter(NODE_SEED, (idx + 1) as nat));
            assert(w@[8 * idx] == (idx as u32) % TAU_TICKS_DEFAULT_U32);
            assert(w@[8 * idx + 1] == (v as u32) & 3);
            assert(w@[8 * idx + 2] == ((v >> 16u64) as u32) & 3);
            assert forall|i: int| 0 <= i < idx + 1 implies {
                let vi = xorshift_iter(NODE_SEED, (i + 1) as nat);
                &&& #[trigger] w@[8 * i] == (i as u32) % TAU_TICKS_DEFAULT_U32
                &&& w@[8 * i + 1] == (vi as u32) & 3
                &&& w@[8 * i + 2] == ((vi >> 16u64) as u32) & 3
                &&& w@[8 * i + 3] == 0
                &&& w@[8 * i + 4] == 0
                &&& w@[8 * i + 5] == 0
                &&& w@[8 * i + 6] == 0
                &&& w@[8 * i + 7] == 0
            } by {
                if i < idx {
                    assert(8 * i + 7 < 8 * idx);
                    assert(w@[8 * i] == before[8 * i]);
                }
            }
        }
        idx += 1;
    }
    w
}

/// The parameter words of one ping-pong tick: the tick number plus one
/// (wrapping), the node count, the target phase and the boundary tension.
pub fn pingpong_params_words(tick: u64, node_count: usize, target_phase: u32, boundary_tension: u32) -> (w: Vec<u32>)
    ensures
        w@ == seq![
            (tick as u32).wrapping_add(1),
            node_count as u32,
            target_phase,
            boundary_tension,
        ],
{
    let w = vec![(tick as u32).wrapping_add(1), node_count as u32, target_phase, boundary_tension];
    assert(w@ =~= seq![
        (tick as u32).wrapping_add(1),
        node_count as u32,
        target_phase,
        boundary_tension,
    ]);
    w
}

/// Workgroups of 64 nodes needed for `node_count` nodes, at least one.
pub fn workgroup_count(node_count: usize) -> (g: u32)
    requires
        (node_count as u32) + 63 <= u32::MAX,
    ensures
        g == if ((node_count as u32) + 63) / 64 > 1 {
            ((node_count as u32) + 63) / 64
        } else {
            1
        },
{
    let groups = ((node_count as u32) + 63) / 64;
    if groups > 1 {
        groups
    } else {
        1
    }
}

} // verus!

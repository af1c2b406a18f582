use vstd::prelude::*;

verus! {

/// 256 to the power `n`: one more than the largest value `n` bytes hold.
pub open spec fn pow256(n: nat) -> nat
    decreases n,
{
    if n == 0 {
        1
    } else {
        256 * pow256((n - 1) as nat)
    }
}

/// The `n` least significant bytes of `v`, least significant first.
pub open spec fn le_encode(v: nat, n: nat) -> Seq<u8>
    decreases n,
{
    if n == 0 {
        seq![]
    } else {
        seq![(v % 256) as u8] + le_encode(v / 256, (n - 1) as nat)
    }
}

/// The value of a little-endian byte string.
pub open spec fn le_decode(s: Seq<u8>) -> nat
    decreases s.len(),
{
    if s.len() == 0 {
        0
    } else {
        s[0] as nat + 256 * le_decode(s.drop_first())
    }
}

/// The little-endian bytes of a sequence of words, four bytes per word.
pub open spec fn words_le(words: Seq<u32>) -> Seq<u8>
    decreases words.len(),
{
    if words.len() == 0 {
        seq![]
    } else {
        words_le(words.drop_last()) + le_encode(words.last() as nat, 4)
    }
}

/// An encoding of `n` bytes is `n` bytes long.
pub proof fn lemma_le_encode_len(v: nat, n: nat)
    ensures
        le_encode(v, n).len() == n,
    decreases n,
{
    if n > 0 {
        lemma_le_encode_len(v / 256, (n - 1) as nat);
    }
}

/// Decoding the little-endian encoding of a value that fits gives the value back.
pub proof fn lemma_le_roundtrip(v: nat, n: nat)
    requires
        v < pow256(n),
    ensures
        le_decode(le_encode(v, n)) == v,
        le_encode(v, n).len() == n,
    decreases n,
{
    lemma_le_encode_len(v, n);
    if n > 0 {
        let e = le_encode(v, n);
        let rest = le_encode(v / 256, (n - 1) as nat);
        assert(e.drop_first() =~= rest);
        vstd::arithmetic::div_mod::lemma_fundamental_div_mod(v as int, 256);
        assert(v / 256 < pow256((n - 1) as nat)) by {
            vstd::arithmetic::div_mod::lemma_div_by_multiple_is_strongly_ordered(
                v as int,
                pow256(n) as int,
                pow256((n - 1) as nat) as int,
                256,
            );
        }
        lemma_le_roundtrip(v / 256, (n - 1) as nat);
    } else {
        assert(v == 0);
    }
}

/// A little-endian byte string of `n` bytes holds a value below `256^n`.
pub proof fn lemma_le_decode_bound(s: Seq<u8>)
    ensures
        le_decode(s) < pow256(s.len()),
    decreases s.len(),
{
    if s.len() > 0 {
        lemma_le_decode_bound(s.drop_first());
    }
}

/// Appends the `n` least significant bytes of `v`, least significant first.
pub fn push_le(out: &mut Vec<u8>, v: u128, n: usize)
    requires
        v < pow256(n as nat),
        n <= 16,
    ensures
        final(out)@ == old(out)@ + le_encode(v as nat, n as nat),
{
    let ghost start = old(out)@;
    let mut cur = v;
    let mut i: usize = 0;
    while i < n
        invariant
            i <= n,
            start + le_encode(v as nat, n as nat) == out@ + le_encode(
                cur as nat,
                (n - i) as nat,
            ),
        decreases n - i,
    {
        let ghost before = out@;
        out.push((cur % 256) as u8);
        proof {
            let k = (n - i) as nat;
            assert(le_encode(cur as nat, k) == seq![(cur % 256) as u8] + le_encode(
                (cur / 256) as nat,
                (k - 1) as nat,
            ));
            assert(before + (seq![(cur % 256) as u8] + le_encode((cur / 256) as nat, (k - 1) as nat))
                =~= out@ + le_encode((cur / 256) as nat, (k - 1) as nat));
        }
        cur = cur / 256;
        i += 1;
    }
    proof {
        assert(le_encode(cur as nat, 0) =~= Seq::<u8>::empty());
        assert(out@ + Seq::<u8>::empty() =~= out@);
    }
}

/// Reads the little-endian value of `n` bytes at `offset`.
pub fn read_le(buf: &[u8], offset: usize, n: usize) -> (v: u128)
    requires
        n <= 16,
        offset + n <= buf@.len(),
    ensures
        v == le_decode(buf@.subrange(offset as int, offset + n)),
{
    let len = buf.len();
    let mut v: u128 = 0;
    let mut j: usize = n;
    proof {
        assert(buf@.subrange(offset + n, offset + n) =~= Seq::<u8>::empty());
    }
    while j > 0
        invariant
            n <= 16,
            j <= n,
            len == buf@.len(),
            offset + n <= len,
            v == le_decode(buf@.subrange(offset + j, offset + n)),
        decreases j,
    {
        let ghost s = buf@.subrange(offset + j - 1, offset + n);
        proof {
            assert(s.drop_first() =~= buf@.subrange(offset + j, offset + n));
            lemma_le_decode_bound(buf@.subrange(offset + j, offset + n));
            lemma_pow256_mono((n - j) as nat, 15);
            reveal_with_fuel(pow256, 17);
        }
        v = v * 256 + buf[offset + j - 1] as u128;
        j -= 1;
    }
    v
}

proof fn lemma_pow256_mono(a: nat, b: nat)
    requires
        a <= b,
    ensures
        pow256(a) <= pow256(b),
    decreases b,
{
    if a < b {
        lemma_pow256_mono(a, (b - 1) as nat);
    }
}

/// The little-endian bytes of 32-bit words, four per word.
pub fn u32_words_to_le_bytes(words: &[u32]) -> (out: Vec<u8>)
    ensures
        out@ == words_le(words@),
{
    let mut out: Vec<u8> = Vec::new();
    let mut i: usize = 0;
    proof {
        assert(words@.take(0) =~= Seq::<u32>::empty());
    }
    while i < words.len()
        invariant
            i <= words@.len(),
            out@ == words_le(words@.take(i as int)),
        decreases words@.len() - i,
    {
        proof {
            reveal_with_fuel(pow256, 5);
        }
        push_le(&mut out, words[i] as u128, 4);
        proof {
            let t = words@.take(i as int + 1);
            assert(t.drop_last() =~= words@.take(i as int));
        }
        i += 1;
    }
    proof {
        assert(words@.take(words@.len() as int) =~= words@);
    }
    out
}

} // verus!

//! The checksum that guards every frame of the wire protocol.
//!
//! To generate it, the checksum field is set to zero and the data is summed
//! as 16-bit big-endian words, each word complemented before it is added;
//! the sum, taken modulo 2^16, is stored in the checksum field. To check it,
//! the same sum is taken over the data with the checksum in place: it is
//! zero when the data is intact. Data of odd length is summed as if a zero
//! byte followed it. The function computes the sum in both roles; setting
//! the field to zero beforehand is up to the caller.

use vstd::prelude::*;
use crate::utils::be_bytes_u16;

verus! {

/// `bytes`, with a zero byte appended when its length is odd.
pub open spec fn padded(bytes: Seq<u8>) -> Seq<u8> {
    if bytes.len() % 2 != 0 {
        bytes.push(0u8)
    } else {
        bytes
    }
}

/// The `i`-th 16-bit big-endian word of `b`.
pub open spec fn word_at(b: Seq<u8>, i: int) -> int {
    b[2 * i] * 0x100 + b[2 * i + 1]
}

/// The sum of the complements of the first `n` words of `b`, without wrap-around.
pub open spec fn complement_sum(b: Seq<u8>, n: nat) -> int
    decreases n,
{
    if n == 0 {
        0
    } else {
        complement_sum(b, (n - 1) as nat) + (0xffff - word_at(b, n - 1))
    }
}

/// The checksum of `bytes`: the complemented words summed modulo 2^16.
pub open spec fn spec_checksum(bytes: Seq<u8>) -> u16 {
    (complement_sum(padded(bytes), padded(bytes).len() / 2) % 0x1_0000) as u16
}

/// Computes the checksum of `bytes` (see the module documentation).
pub fn checksum(bytes: &[u8]) -> (r: u16)
    ensures
        r == spec_checksum(bytes@),
{
    let len = bytes.len();
    let words: usize = len / 2 + len % 2;
    let ghost p = padded(bytes@);
    assert(p.len() / 2 == words);
    let mut sum: u16 = 0;
    let mut k: usize = 0;
    while k < words
        invariant
            k <= words,
            words == p.len() / 2,
            p == padded(bytes@),
            len == bytes@.len(),
            sum == complement_sum(p, k as nat) % 0x1_0000,
        decreases words - k,
    {
        let hi: u8 = bytes[2 * k];
        let lo: u8 = if 2 * k + 1 < len { bytes[2 * k + 1] } else { 0u8 };
        assert(hi == p[2 * k] && lo == p[2 * k + 1]);
        assert(((hi as u16) << 8) == hi as u16 * 0x100) by (bit_vector);
        let v: u16 = ((hi as u16) << 8) + lo as u16;
        assert(v == word_at(p, k as int));
        let nv: u16 = !v;
        assert(!v == 0xffff - v) by (bit_vector);
        let next: u32 = nv as u32 + sum as u32;
        assert((next as u16) == next % 0x1_0000) by (bit_vector);
        let ghost prev = complement_sum(p, k as nat);
        assert(complement_sum(p, (k + 1) as nat) == prev + (0xffff - word_at(p, k as int)));
        assert((prev % 0x1_0000 + (0xffff - word_at(p, k as int))) % 0x1_0000
            == (prev + (0xffff - word_at(p, k as int))) % 0x1_0000) by (nonlinear_arith);
        sum = #[verifier::truncate] (next as u16);
        k = k + 1;
    }
    sum
}

/// Changing one word of a sequence changes the complement sum by the difference of the words.
proof fn lemma_complement_sum_update(b: Seq<u8>, c: Seq<u8>, j: int, n: nat)
    requires
        b.len() == c.len(),
        2 * n <= b.len(),
        0 <= j,
        forall|i: int| 0 <= i < b.len() && i != 2 * j && i != 2 * j + 1 ==> b[i] == c[i],
    ensures
        j < n ==> complement_sum(c, n) == complement_sum(b, n) + word_at(b, j) - word_at(c, j),
        j >= n ==> complement_sum(c, n) == complement_sum(b, n),
    decreases n,
{
    if n > 0 {
        lemma_complement_sum_update(b, c, j, (n - 1) as nat);
        if n - 1 != j {
            assert(word_at(b, n - 1) == word_at(c, n - 1));
        }
    }
}

/// Storing the checksum of some data in a zeroed, word-aligned field of it
/// makes the checksum of the result zero: this is how a receiver validates it.
pub proof fn lemma_checksum_validates(bytes: Seq<u8>, pos: int)
    requires
        0 <= pos,
        pos % 2 == 0,
        pos + 1 < bytes.len(),
        bytes[pos] == 0,
        bytes[pos + 1] == 0,
    ensures
        spec_checksum(
            bytes.update(pos, be_bytes_u16(spec_checksum(bytes))[0]).update(
                pos + 1,
                be_bytes_u16(spec_checksum(bytes))[1],
            ),
        ) == 0,
{
    let cs = spec_checksum(bytes);
    let filled = bytes.update(pos, be_bytes_u16(cs)[0]).update(pos + 1, be_bytes_u16(cs)[1]);
    let p = padded(bytes);
    let q = padded(filled);
    let j = pos / 2;
    let n = (p.len() / 2) as nat;
    assert(q.len() == p.len());
    assert forall|i: int| 0 <= i < p.len() && i != 2 * j && i != 2 * j + 1 implies p[i] == q[i] by {}
    lemma_complement_sum_update(p, q, j, n);
    assert(word_at(p, j) == 0);
    assert(word_at(q, j) == cs) by {
        assert(q[2 * j] == (cs / 0x100) as u8 && q[2 * j + 1] == (cs % 0x100) as u8);
        assert((cs / 0x100) as u8 * 0x100 + (cs % 0x100) as u8 == cs) by (nonlinear_arith);
    }
    let s = complement_sum(p, n);
    assert(cs == s % 0x1_0000);
    assert((s + 0 - s % 0x1_0000) % 0x1_0000 == 0) by (nonlinear_arith);
}


proof fn lemma_complement_sum_prefix(b: Seq<u8>, c: Seq<u8>, n: nat)
    requires
        2 * n <= b.len(),
        2 * n <= c.len(),
        forall|i: int| 0 <= i < 2 * n ==> b[i] == c[i],
    ensures
        complement_sum(b, n) == complement_sum(c, n),
    decreases n,
{
    if n > 0 {
        lemma_complement_sum_prefix(b, c, (n - 1) as nat);
        assert(word_at(b, n - 1) == word_at(c, n - 1));
    }
}

/// The checksum word by word: nothing sums to 0; appending a big-endian
/// word `x y` to data of even length adds the word's complement modulo
/// 2^16; and a last odd byte `x` counts as the word `x 0`. Only the words of
/// the data are summed, with no word added for data of even length.
pub proof fn lemma_checksum_by_words(b: Seq<u8>, x: u8, y: u8)
    requires
        b.len() % 2 == 0,
    ensures
        spec_checksum(Seq::<u8>::empty()) == 0,
        spec_checksum(b + seq![x, y]) as int == (spec_checksum(b) + (0xffff - (x * 0x100 + y))) % 0x1_0000,
        spec_checksum(b + seq![x]) as int == (spec_checksum(b) + (0xffff - x * 0x100)) % 0x1_0000,
{
    let n = (b.len() / 2) as nat;
    assert(padded(Seq::<u8>::empty()) =~= Seq::<u8>::empty());
    assert(padded(b) == b);
    let s = complement_sum(b, n);
    let two = b + seq![x, y];
    assert(padded(two) == two);
    assert(two.len() / 2 == n + 1);
    lemma_complement_sum_prefix(b, two, n);
    assert(word_at(two, n as int) == x * 0x100 + y);
    assert(complement_sum(two, n + 1) == s + (0xffff - (x * 0x100 + y)));
    let one = b + seq![x];
    assert(padded(one) =~= b + seq![x, 0u8]);
    let op = padded(one);
    assert(op.len() / 2 == n + 1);
    lemma_complement_sum_prefix(b, op, n);
    assert(word_at(op, n as int) == x * 0x100);
    assert(complement_sum(op, n + 1) == s + (0xffff - x * 0x100));
    let w1 = 0xffff - (x * 0x100 + y);
    let w2 = 0xffff - x * 0x100;
    assert((s % 0x1_0000 + w1) % 0x1_0000 == (s + w1) % 0x1_0000) by (nonlinear_arith);
    assert((s % 0x1_0000 + w2) % 0x1_0000 == (s + w2) % 0x1_0000) by (nonlinear_arith);
}

/// The sealed PING frame (size 1, checksum 0xfffb, protocol NAT, command
/// PING) checks to zero; zeroed, it sums to its checksum 0xfffb.
pub proof fn lemma_ping_frame_checksum()
    ensures
        spec_checksum(seq![0u8, 1u8, 0u8, 0u8, 0u8, 1u8]) == 0xfffb,
        spec_checksum(seq![0u8, 1u8, 0xffu8, 0xfbu8, 0u8, 1u8]) == 0,
{
    let e = Seq::<u8>::empty();
    lemma_checksum_by_words(e, 0, 1);
    assert(e + seq![0u8, 1u8] =~= seq![0u8, 1u8]);
    lemma_checksum_by_words(seq![0u8, 1u8], 0, 0);
    assert(seq![0u8, 1u8] + seq![0u8, 0u8] =~= seq![0u8, 1u8, 0u8, 0u8]);
    lemma_checksum_by_words(seq![0u8, 1u8, 0u8, 0u8], 0, 1);
    assert(seq![0u8, 1u8, 0u8, 0u8] + seq![0u8, 1u8] =~= seq![0u8, 1u8, 0u8, 0u8, 0u8, 1u8]);
    lemma_checksum_by_words(seq![0u8, 1u8], 0xff, 0xfb);
    assert(seq![0u8, 1u8] + seq![0xffu8, 0xfbu8] =~= seq![0u8, 1u8, 0xffu8, 0xfbu8]);
    lemma_checksum_by_words(seq![0u8, 1u8, 0xffu8, 0xfbu8], 0, 1);
    assert(seq![0u8, 1u8, 0xffu8, 0xfbu8] + seq![0u8, 1u8] =~= seq![0u8, 1u8, 0xffu8, 0xfbu8, 0u8, 1u8]);
}

} // verus!

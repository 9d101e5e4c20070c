use vstd::arithmetic::div_mod::{lemma_fundamental_div_mod, lemma_mod_multiples_vanish, lemma_small_mod};
use vstd::prelude::*;

verus! {

/// The big-endian 16-bit word at word index `k` of `s`; an odd trailing byte
/// is the high byte of a word whose low byte is zero.
pub open spec fn word_at(s: Seq<u8>, k: int) -> nat {
    let lo: nat = if 2 * k + 1 < s.len() { s[2 * k + 1] as nat } else { 0 };
    s[2 * k] as nat * 256 + lo
}

/// Number of 16-bit words that `s` is summed as.
pub open spec fn word_count(s: Seq<u8>) -> nat {
    ((s.len() + 1) / 2) as nat
}

/// Plain sum of the first `k` words of `s`.
pub open spec fn words_sum(s: Seq<u8>, k: nat) -> nat
    decreases k,
{
    if k == 0 {
        0
    } else {
        words_sum(s, (k - 1) as nat) + word_at(s, k - 1)
    }
}

/// Plain sum of all the words of `s`.
pub open spec fn word_sum(s: Seq<u8>) -> nat {
    words_sum(s, word_count(s))
}

/// Folds the carries above bit 16 back into the low 16 bits until none is left.
pub open spec fn carry_fold(n: nat) -> nat
    decreases n,
{
    if n <= 0xffff {
        n
    } else {
        carry_fold(n % 0x10000 + n / 0x10000)
    }
}

/// The one's-complement sum that `carry_fold` reaches, in closed form.
pub open spec fn ones_sum(n: nat) -> nat {
    if n == 0 {
        0
    } else {
        ((n - 1) % 0xffff + 1) as nat
    }
}

/// The Internet checksum of `s`: the complement of its folded word sum.
pub open spec fn internet_checksum(s: Seq<u8>) -> u16 {
    (0xffff - carry_fold(word_sum(s))) as u16
}

/// `s` with its checksum field (bytes 2 and 3) set to zero.
pub open spec fn zero_checksum_field(s: Seq<u8>) -> Seq<u8> {
    s.update(2, 0).update(3, 0)
}

/// `s` with its checksum field zeroed, then filled, big-endian, with the
/// checksum of the zeroed buffer.
pub open spec fn with_checksum(s: Seq<u8>) -> Seq<u8> {
    let z = zero_checksum_field(s);
    let c = internet_checksum(z);
    z.update(2, (c / 256) as u8).update(3, (c % 256) as u8)
}

proof fn lemma_ones_small(n: nat)
    requires
        n <= 0xffff,
    ensures
        ones_sum(n) == n,
{
    if n > 0 {
        lemma_small_mod((n - 1) as nat, 0xffff);
    }
}

/// Folding carries computes the one's-complement sum.
pub proof fn lemma_carry_fold_is_ones_sum(n: nat)
    ensures
        carry_fold(n) == ones_sum(n),
        carry_fold(n) <= 0xffff,
    decreases n,
{
    if n <= 0xffff {
        lemma_ones_small(n);
    } else {
        let q = n / 0x10000;
        let m = n % 0x10000 + q;
        lemma_fundamental_div_mod(n as int, 0x10000);
        assert(m < n);
        lemma_carry_fold_is_ones_sum(m);
        assert(n - 1 == 0xffff * q + (m - 1));
        lemma_mod_multiples_vanish(q as int, m - 1, 0xffff);
    }
}

/// Adding one word to a sum, with an end-around carry, keeps the
/// one's-complement sum.
proof fn lemma_ones_add(s: nat, w: nat)
    requires
        w <= 0xffff,
    ensures
        ones_sum(s) <= 0xffff,
        ones_sum(s + w) == (if ones_sum(s) + w > 0xffff {
            ones_sum(s) + w - 0xffff
        } else {
            ones_sum(s) + w as int
        }),
{
    if s == 0 {
        lemma_ones_small(w);
    } else if w > 0 {
        let f = ones_sum(s);
        let q = (s - 1) / 0xffff;
        lemma_fundamental_div_mod(s - 1, 0xffff);
        assert(s + w - 1 == 0xffff * q + (f - 1 + w));
        lemma_mod_multiples_vanish(q, f - 1 + w, 0xffff);
        if f + w <= 0xffff {
            lemma_small_mod((f - 1 + w) as nat, 0xffff);
        } else {
            lemma_mod_multiples_vanish(1, f - 1 + w - 0xffff, 0xffff);
            lemma_small_mod((f - 1 + w - 0xffff) as nat, 0xffff);
        }
    }
}

proof fn lemma_words_sum_field(z: Seq<u8>, b: Seq<u8>, c: nat, k: nat)
    requires
        z.len() == b.len(),
        z.len() >= 4,
        k <= word_count(z),
        z[2] == 0,
        z[3] == 0,
        b[2] as nat * 256 + b[3] as nat == c,
        forall|i: int| 0 <= i < z.len() && i != 2 && i != 3 ==> z[i] == b[i],
    ensures
        words_sum(b, k) == words_sum(z, k) + (if k >= 2 { c } else { 0 }),
    decreases k,
{
    if k > 0 {
        lemma_words_sum_field(z, b, c, (k - 1) as nat);
        if k - 1 != 1 {
            assert(word_at(b, k - 1) == word_at(z, k - 1));
        }
    }
}

/// Checksum self-validation: once the checksum is written into a buffer, the
/// folded word sum of the whole buffer is `0xffff`.
pub proof fn lemma_checksum_validates(b: Seq<u8>)
    requires
        b.len() >= 4,
    ensures
        carry_fold(word_sum(with_checksum(b))) == 0xffff,
{
    let z = zero_checksum_field(b);
    let s = word_sum(z);
    lemma_carry_fold_is_ones_sum(s);
    let c = internet_checksum(z);
    assert(c as nat == 0xffff - ones_sum(s));
    let b1 = with_checksum(b);
    assert(b1[2] as nat * 256 + b1[3] as nat == c as nat);
    lemma_words_sum_field(z, b1, c as nat, word_count(z));
    assert(word_sum(b1) == s + c);
    lemma_ones_add(s, c as nat);
    lemma_carry_fold_is_ones_sum((s + c) as nat);
}

/// Writes into bytes 2 and 3 of `buffer` the Internet checksum of `buffer`
/// taken with those two bytes zeroed.
pub fn calc_checksum(buffer: &mut [u8])
    requires
        old(buffer)@.len() >= 4,
    ensures
        final(buffer)@ == with_checksum(old(buffer)@),
{
    buffer[2] = 0;
    buffer[3] = 0;
    let ghost z = buffer@;
    assert(z == zero_checksum_field(old(buffer)@));
    let n = buffer.len();
    let words: usize = n / 2 + n % 2;
    assert(words == word_count(z));
    let mut acc: u32 = 0;
    let mut k: usize = 0;
    while k < words
        invariant
            buffer@ == z,
            n == z.len(),
            words == word_count(z),
            k <= words,
            acc <= 0xffff,
            acc as nat == ones_sum(words_sum(z, k as nat)),
        decreases words - k,
    {
        let i: usize = 2 * k;
        let mut part: u32 = buffer[i] as u32 * 256;
        if i + 1 < n {
            part = part + buffer[i + 1] as u32;
        }
        assert(part as nat == word_at(z, k as int));
        proof {
            lemma_ones_add(words_sum(z, k as nat), part as nat);
        }
        acc = acc + part;
        if acc > 0xffff {
            acc = acc - 0xffff;
        }
        k = k + 1;
    }
    proof {
        lemma_carry_fold_is_ones_sum(word_sum(z));
    }
    let sum: u16 = 0xffff - acc as u16;
    assert(sum == internet_checksum(z));
    buffer[2] = (sum / 256) as u8;
    buffer[3] = (sum % 256) as u8;
}

} // verus!

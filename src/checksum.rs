//! The 16-bit one's-complement checksum carried by sensitive frames.
use vstd::arithmetic::div_mod::{
    lemma_add_mod_noop_right, lemma_fundamental_div_mod, lemma_mod_multiples_vanish,
};
use vstd::prelude::*;

verus! {

/// Sum of the buffer read as consecutive big-endian 16-bit words; an odd
/// trailing byte is the high byte of a last word whose low byte is zero.
pub open spec fn word_sum(s: Seq<u8>) -> nat
    decreases s.len(),
{
    if s.len() == 0 {
        0
    } else if s.len() == 1 {
        s[0] as nat * 256
    } else {
        (s[0] as nat * 256 + s[1] as nat) + word_sum(s.subrange(2, s.len() as int))
    }
}

/// Adds the carries above bit 15 back into the low 16 bits until none is left.
pub open spec fn fold_carries(n: nat) -> nat
    decreases n,
{
    if n <= 0xFFFF {
        n
    } else {
        fold_carries(n % 0x10000 + n / 0x10000)
    }
}

/// The checksum of a buffer: the complement of its folded word sum.
pub open spec fn checksum_of(s: Seq<u8>) -> u16 {
    !(fold_carries(word_sum(s)) as u16)
}

/// The one's-complement sum in closed form: zero stays zero, any other value
/// lands in `1..=0xFFFF` by its residue modulo `0xFFFF`.
pub proof fn lemma_fold_closed_form(n: nat)
    ensures
        fold_carries(n) == if n == 0 { 0 } else { ((n - 1) % 0xFFFF + 1) as nat },
    decreases n,
{
    if n > 0xFFFF {
        let q = n / 0x10000;
        let m = n % 0x10000 + q;
        lemma_fundamental_div_mod(n as int, 0x10000);
        assert(q >= 1);
        lemma_fold_closed_form(m);
        assert(n - 1 == 0xFFFF * q + (m - 1));
        lemma_mod_multiples_vanish(q as int, m - 1, 0xFFFF);
    }
}

/// Folding part of a sum early does not change the folded total.
pub proof fn lemma_fold_absorbs(a: nat, b: nat)
    ensures
        fold_carries(fold_carries(a) + b) == fold_carries(a + b),
        fold_carries(a) <= 0xFFFF,
{
    lemma_fold_closed_form(a);
    lemma_fold_closed_form(a + b);
    lemma_fold_closed_form(fold_carries(a) + b);
    if a > 0 {
        lemma_add_mod_noop_right(b as int, a - 1, 0xFFFF);
    }
}

/// Two sums that differ by less than `0xFFFF`, and do differ, fold apart.
pub proof fn lemma_fold_separates(a: nat, b: nat)
    requires
        a != b,
        a < b + 0xFFFF,
        b < a + 0xFFFF,
    ensures
        fold_carries(a) != fold_carries(b),
{
    lemma_fold_closed_form(a);
    lemma_fold_closed_form(b);
    if a > 0 && b > 0 {
        lemma_fundamental_div_mod(a - 1, 0xFFFF);
        lemma_fundamental_div_mod(b - 1, 0xFFFF);
    }
}

/// Adds one word to a folded sum and folds again, with no overflow.
fn add_folded(sum: u32, word: u32) -> (r: u32)
    requires
        sum <= 0xFFFF,
        word <= 0xFFFF,
    ensures
        r as nat == fold_carries(sum as nat + word as nat),
        r <= 0xFFFF,
{
    let t: u32 = sum + word;
    if t > 0xFFFF {
        proof {
            let n = t as nat;
            assert(n % 0x10000 == n - 0x10000);
            assert(n / 0x10000 == 1);
            assert(fold_carries(n) == fold_carries((n - 0xFFFF) as nat));
        }
        t - 0xFFFF
    } else {
        t
    }
}

proof fn lemma_word_sum_unfold(s: Seq<u8>, i: int)
    requires
        0 <= i,
        i + 2 <= s.len(),
    ensures
        word_sum(s.subrange(i, s.len() as int)) == (s[i] as nat * 256 + s[i + 1] as nat)
            + word_sum(s.subrange(i + 2, s.len() as int)),
{
    let t = s.subrange(i, s.len() as int);
    assert(t.subrange(2, t.len() as int) =~= s.subrange(i + 2, s.len() as int));
}

/// Computes the checksum of `buf`: big-endian words summed with end-around
/// carry, then complemented.
pub fn compute_checksum(buf: &[u8]) -> (r: u16)
    ensures
        r == checksum_of(buf@),
{
    let n: usize = buf.len();
    let mut sum: u32 = 0;
    let mut i: usize = 0;
    proof {
        assert(buf@.subrange(0, n as int) =~= buf@);
    }
    while n - i >= 2
        invariant
            n == buf@.len(),
            i <= n,
            sum <= 0xFFFF,
            fold_carries(sum as nat + word_sum(buf@.subrange(i as int, n as int)))
                == fold_carries(word_sum(buf@)),
        decreases n - i,
    {
        let word: u32 = (buf[i] as u32) * 256 + (buf[i + 1] as u32);
        proof {
            lemma_word_sum_unfold(buf@, i as int);
            let rest = word_sum(buf@.subrange(i + 2, n as int));
            lemma_fold_absorbs(sum as nat + word as nat, rest);
        }
        sum = add_folded(sum, word);
        i = i + 2;
    }
    if i < n {
        let word: u32 = (buf[i] as u32) * 256;
        proof {
            assert(word_sum(buf@.subrange(i as int, n as int)) == word as nat);
            lemma_fold_absorbs(sum as nat + word as nat, 0);
        }
        sum = add_folded(sum, word);
    } else {
        assert(word_sum(buf@.subrange(i as int, n as int)) == 0);
    }
    proof {
        lemma_fold_absorbs(sum as nat, 0);
        assert(fold_carries(sum as nat) == sum as nat);
    }
    !(sum as u16)
}

/// Whether `expected` is accepted as the checksum of `buf`.
pub open spec fn checksum_matches(buf: Seq<u8>, expected: u16) -> bool {
    checksum_of(buf) == expected
}

/// Whether `expected` is the checksum of `buf`.
pub fn verify_checksum(buf: &[u8], expected: u16) -> (r: bool)
    ensures
        r == checksum_matches(buf@, expected),
{
    compute_checksum(buf) == expected
}

/// Every buffer, empty and odd-length ones included, verifies against the
/// checksum computed over it.
pub proof fn lemma_checksum_verifies_itself(buf: Seq<u8>)
    ensures
        checksum_matches(buf, checksum_of(buf)),
{
}

/// Weight of the byte at index `j` inside its big-endian word.
pub open spec fn byte_weight(j: int) -> int {
    if j % 2 == 0 {
        256
    } else {
        1
    }
}

/// Changing one byte moves the word sum by that byte's change times its weight.
pub proof fn lemma_word_sum_update(s: Seq<u8>, j: int, v: u8)
    requires
        0 <= j < s.len(),
    ensures
        word_sum(s.update(j, v)) as int == word_sum(s) as int + byte_weight(j) * (v as int
            - s[j] as int),
    decreases s.len(),
{
    let t = s.update(j, v);
    if s.len() >= 2 {
        let n = s.len() as int;
        if j < 2 {
            assert(t.subrange(2, n) =~= s.subrange(2, n));
        } else {
            assert(t.subrange(2, n) =~= s.subrange(2, n).update(j - 2, v));
            lemma_word_sum_update(s.subrange(2, n), j - 2, v);
        }
    }
}

/// Flipping bit `k` of a byte moves its value up or down by `1 << k`.
proof fn lemma_flip_moves_by_bit(x: u8, k: u8)
    requires
        k < 8,
    ensures
        1 <= (1u8 << k) <= 128,
        (x ^ (1u8 << k)) as int == x as int + (1u8 << k) as int || (x ^ (1u8 << k)) as int
            == x as int - (1u8 << k) as int,
{
    assert(1 <= (1u8 << k) <= 128) by (bit_vector)
        requires
            k < 8,
    ;
    assert((x & (1u8 << k)) == 0 ==> (x ^ (1u8 << k)) == x + (1u8 << k) && x <= 255 - (1u8
        << k)) by (bit_vector)
        requires
            k < 8,
    ;
    assert((x & (1u8 << k)) != 0 ==> (x ^ (1u8 << k)) == x - (1u8 << k) && x >= (1u8 << k))
        by (bit_vector)
        requires
            k < 8,
    ;
}

/// Flipping any single bit of a buffer changes its checksum.
pub proof fn lemma_single_bit_flip_changes_checksum(s: Seq<u8>, j: int, k: u8)
    requires
        0 <= j < s.len(),
        k < 8,
    ensures
        checksum_of(s.update(j, s[j] ^ (1u8 << k))) != checksum_of(s),
{
    let v = s[j] ^ (1u8 << k);
    lemma_flip_moves_by_bit(s[j], k);
    lemma_word_sum_update(s, j, v);
    let a = word_sum(s);
    let b = word_sum(s.update(j, v));
    assert(b as int - a as int == byte_weight(j) * (1u8 << k) as int || a as int - b as int
        == byte_weight(j) * (1u8 << k) as int) by (nonlinear_arith)
        requires
            b as int == a as int + byte_weight(j) * (v as int - s[j] as int),
            v as int == s[j] as int + (1u8 << k) as int || v as int == s[j] as int - (1u8
                << k) as int,
    ;
    assert(byte_weight(j) * (1u8 << k) as int <= 256 * 128) by (nonlinear_arith)
        requires
            1 <= byte_weight(j) <= 256,
            1 <= (1u8 << k) as int <= 128,
    ;
    lemma_fold_separates(a, b);
    lemma_fold_absorbs(a, 0);
    lemma_fold_absorbs(b, 0);
    let fa = fold_carries(a) as u16;
    let fb = fold_carries(b) as u16;
    assert(fa != fb);
    assert(fa != fb ==> !fa != !fb) by (bit_vector);
}

} // verus!

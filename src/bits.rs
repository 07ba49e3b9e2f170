//! Counting the leading zero bits of a byte string, most significant bit first.
use vstd::prelude::*;
use vstd::std_specs::bits::{axiom_u8_leading_zeros, u8_leading_zeros};

verus! {

/// Leading zero bits of `s`: eight for each leading zero byte, then the
/// leading zero bits of the first nonzero byte.
pub open spec fn leading_zero_bits(s: Seq<u8>) -> nat
    decreases s.len(),
{
    if s.len() == 0 {
        0
    } else if s[0] == 0 {
        8 + leading_zero_bits(s.drop_first())
    } else {
        u8_leading_zeros(s[0]) as nat
    }
}

/// Bit `j` of `s`, counting from the most significant bit of `s[0]`.
pub open spec fn bit_at(s: Seq<u8>, j: int) -> bool {
    (s[j / 8] >> (7 - j % 8) as u8) & 1u8 == 1u8
}

/// Number of consecutive zero bits of `s` from bit `j` on, read one bit at a time.
pub open spec fn zero_run_from(s: Seq<u8>, j: int) -> nat
    decreases 8 * s.len() - j,
{
    if j < 0 || j >= 8 * s.len() || bit_at(s, j) {
        0
    } else {
        1 + zero_run_from(s, j + 1)
    }
}

/// Returns the number of leading zero bits of `hash`; 256 for 32 zero bytes.
pub fn count_leading_zeros(hash: &[u8]) -> (r: u32)
    requires
        8 * hash@.len() <= u32::MAX,
    ensures
        r == leading_zero_bits(hash@),
        r <= 8 * hash@.len(),
{
    let n = hash.len();
    let mut zeros: usize = 0;
    assert(hash@.subrange(0, n as int) =~= hash@);
    while zeros < n && hash[zeros] == 0
        invariant
            zeros <= n == hash@.len(),
            8 * n <= u32::MAX,
            leading_zero_bits(hash@) == 8 * zeros + leading_zero_bits(hash@.subrange(zeros as int, n as int)),
        decreases n - zeros,
    {
        let ghost rest = hash@.subrange(zeros as int, n as int);
        assert(rest.drop_first() =~= hash@.subrange(zeros + 1, n as int));
        zeros = zeros + 1;
    }
    let tail: u32 = if zeros < n {
        hash[zeros].leading_zeros()
    } else {
        0
    };
    proof {
        broadcast use axiom_u8_leading_zeros;

        lemma_leading_zero_bits_bounded(hash@);
        if zeros < n {
            assert(hash@.subrange(zeros as int, n as int)[0] == hash@[zeros as int]);
        }
    }
    (zeros * 8) as u32 + tail
}

/// A byte string of `n` bytes has at most `8 * n` leading zero bits.
pub proof fn lemma_leading_zero_bits_bounded(s: Seq<u8>)
    ensures
        leading_zero_bits(s) <= 8 * s.len(),
    decreases s.len(),
{
    broadcast use axiom_u8_leading_zeros;

    if s.len() > 0 && s[0] == 0 {
        lemma_leading_zero_bits_bounded(s.drop_first());
    }
}

proof fn lemma_run_skips_first_byte(s: Seq<u8>, j: int)
    requires
        s.len() > 0,
        j >= 8,
    ensures
        zero_run_from(s, j) == zero_run_from(s.drop_first(), j - 8),
    decreases 8 * s.len() - j,
{
    if j < 8 * s.len() {
        assert(j / 8 == (j - 8) / 8 + 1 && j % 8 == (j - 8) % 8) by (nonlinear_arith)
            requires j >= 8;
        assert(bit_at(s, j) == bit_at(s.drop_first(), j - 8));
        lemma_run_skips_first_byte(s, j + 1);
    }
}

proof fn lemma_run_in_zero_byte(s: Seq<u8>, j: int)
    requires
        s.len() > 0,
        s[0] == 0,
        0 <= j <= 8,
    ensures
        zero_run_from(s, j) == (8 - j) + zero_run_from(s, 8),
    decreases 8 - j,
{
    if j < 8 {
        let sh = (7 - j % 8) as u8;
        assert((0u8 >> sh) & 1u8 == 0u8) by (bit_vector);
        assert(j / 8 == 0) by (nonlinear_arith)
            requires 0 <= j < 8;
        assert(!bit_at(s, j));
        lemma_run_in_zero_byte(s, j + 1);
    }
}

proof fn lemma_run_in_nonzero_byte(s: Seq<u8>, j: int)
    requires
        s.len() > 0,
        s[0] != 0,
        0 <= j <= u8_leading_zeros(s[0]),
    ensures
        zero_run_from(s, j) == u8_leading_zeros(s[0]) - j,
    decreases 8 - j,
{
    broadcast use axiom_u8_leading_zeros;

    let b = s[0];
    let lz = u8_leading_zeros(b);
    assert(j / 8 == 0 && j % 8 == j) by (nonlinear_arith)
        requires 0 <= j < 8;
    if j < lz {
        let p = (7 - j) as u8;
        assert(8 - lz <= p < 8);
        assert((b >> p) & 1u8 == 0u8);
        assert(!bit_at(s, j));
        lemma_run_in_nonzero_byte(s, j + 1);
    } else {
        let p = (7 - j) as u8;
        assert((b >> p) & 1u8 != 0u8);
        assert((b >> p) & 1u8 != 0u8 ==> (b >> p) & 1u8 == 1u8) by (bit_vector);
        assert(bit_at(s, j));
    }
}

/// The byte-wise count agrees with reading the bits one at a time from the
/// most significant end: this holds for every byte string.
pub proof fn lemma_leading_zero_bits_bitwise(s: Seq<u8>)
    ensures
        leading_zero_bits(s) == zero_run_from(s, 0),
    decreases s.len(),
{
    broadcast use axiom_u8_leading_zeros;

    if s.len() > 0 {
        if s[0] == 0 {
            lemma_run_in_zero_byte(s, 0);
            lemma_run_skips_first_byte(s, 8);
            lemma_leading_zero_bits_bitwise(s.drop_first());
        } else {
            lemma_run_in_nonzero_byte(s, 0);
        }
    }
}

} // verus!

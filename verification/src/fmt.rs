//! Decimal formatting of unsigned integers, without the host runtime's
//! formatting machinery.

use vstd::prelude::*;
use vstd::slice::slice_subrange;

verus! {

/// A `u64` needs at most this many decimal digits.
pub const U64_MAX_LEN: usize = 20;

/// The ASCII decimal digits of `n`, most significant first; empty for 0.
pub open spec fn spec_digits(n: int) -> Seq<u8>
    decreases n,
{
    if n <= 0 {
        Seq::empty()
    } else {
        spec_digits(n / 10).push((48 + n % 10) as u8)
    }
}

/// The decimal rendering of `n`: its digits, or `"0"` for 0.
pub open spec fn spec_decimal(n: int) -> Seq<u8> {
    if n == 0 {
        seq![48u8]
    } else {
        spec_digits(n)
    }
}

/// Ten to the `k`.
pub open spec fn pow10(k: nat) -> int
    decreases k,
{
    if k == 0 {
        1
    } else {
        10 * pow10((k - 1) as nat)
    }
}

proof fn lemma_pow10_pos(k: nat)
    ensures
        pow10(k) >= 1,
    decreases k,
{
    if k > 0 {
        lemma_pow10_pos((k - 1) as nat);
    }
}

/// A number below ten to the `k` has at most `k` digits.
proof fn lemma_digits_len(n: int, k: nat)
    requires
        n < pow10(k),
    ensures
        spec_digits(n).len() <= k,
    decreases k,
{
    if n > 0 {
        lemma_pow10_pos((k - 1) as nat);
        assert(n / 10 < pow10((k - 1) as nat)) by (nonlinear_arith)
            requires
                n < 10 * pow10((k - 1) as nat),
                pow10((k - 1) as nat) >= 1,
        ;
        lemma_digits_len(n / 10, (k - 1) as nat);
    }
}

/// A scratch buffer wide enough to format any `u64` in decimal.
pub struct Buffer {
    buf: Vec<u8>,
}

impl Default for Buffer {
    /// A fresh, zeroed buffer.
    fn default() -> (r: Buffer)
        ensures
            r.wf(),
    {
        Buffer { buf: vec![0u8; 20] }
    }
}

impl Buffer {
    /// The buffer has its full formatting width.
    pub closed spec fn wf(self) -> bool {
        self.buf@.len() == 20
    }

    /// A fresh buffer.
    pub fn new() -> (r: Buffer)
        ensures
            r.wf(),
    {
        Buffer::default()
    }

    /// Format `n` in decimal: the returned bytes are exactly the decimal
    /// rendering of `n`, without padding or sign.
    pub fn format(&mut self, n: u64) -> (r: &[u8])
        requires
            old(self).wf(),
        ensures
            r@ == spec_decimal(n as int),
            final(self).wf(),
    {
        if n == 0 {
            self.buf[19] = 48;
            let r = slice_subrange(self.buf.as_slice(), 19, 20);
            assert(r@ =~= spec_decimal(0));
            return r;
        }

        proof {
            reveal_with_fuel(pow10, 21);
            lemma_digits_len(n as int, 20);
            assert(spec_digits(n as int) =~= spec_digits(n as int) + self.buf@.subrange(20, 20));
        }

        let mut curr: usize = 20;
        let mut m: u64 = n;
        while m > 0
            invariant
                self.buf@.len() == 20,
                curr <= 20,
                spec_digits(m as int).len() <= curr,
                spec_digits(n as int) == spec_digits(m as int) + self.buf@.subrange(
                    curr as int,
                    20,
                ),
            decreases m,
        {
            let ghost pre_buf = self.buf@;
            let ghost m0 = m as int;
            let d: u8 = 48 + (m % 10) as u8;
            assert(spec_digits(m0).len() >= 1);
            curr = curr - 1;
            self.buf[curr] = d;
            m = m / 10;
            proof {
                assert(self.buf@.subrange(curr as int, 20) =~= seq![d] + pre_buf.subrange(
                    curr + 1,
                    20,
                ));
                assert(spec_digits(m0) =~= spec_digits(m0 / 10).push(d));
                assert(spec_digits(m0) + pre_buf.subrange(curr + 1, 20) =~= spec_digits(m0 / 10) + (
                seq![d] + pre_buf.subrange(curr + 1, 20)));
            }
        }
        let r = slice_subrange(self.buf.as_slice(), curr, 20);
        assert(r@ =~= spec_digits(n as int));
        r
    }
}

} // verus!

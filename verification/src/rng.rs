//! A xorshift32 the 6502 can also run, and a stateless hash.
//!
//! The city is generated, not stored, so the generator has to produce the
//! same sequence on both targets from the same seed.
use vstd::prelude::*;
use vstd::wrapping::u32_specs::wrapping_mul;

verus! {

/// The state a zero seed is remapped to.
pub const ZERO_SEED: u32 = 0x9e37_79b9;

/// One xorshift32 step.
pub open spec fn xorshift(x: u32) -> u32 {
    let a = x ^ (x << 13u32);
    let b = a ^ (a >> 17u32);
    b ^ (b << 5u32)
}

/// The high word of `x * n`: a value in `0..n` taken from the top bits.
pub open spec fn scale_below(x: u32, n: u32) -> u32 {
    ((x as int * n as int) / 0x1_0000_0000) as u32
}

/// A deterministic 32-bit generator.
#[derive(Clone, Copy, Debug)]
pub struct Rng(u32);

impl Rng {
    /// The current state word.
    pub closed spec fn state(self) -> u32 {
        self.0
    }

    /// The state is never zero: zero is xorshift's fixed point.
    #[verifier::type_invariant]
    spec fn nonzero(self) -> bool {
        self.0 != 0
    }

    /// Seed the generator.  Zero is remapped, since xorshift's zero state
    /// is a fixed point that only ever produces zero.
    pub fn new(seed: u32) -> (r: Rng)
        ensures
            r.state() == if seed == 0 { ZERO_SEED } else { seed },
    {
        Rng(if seed == 0 { ZERO_SEED } else { seed })
    }

    /// Next raw word.  Never zero.
    pub fn next_u32(&mut self) -> (r: u32)
        ensures
            r == xorshift(old(self).state()),
            final(self).state() == r,
            r != 0,
    {
        proof {
            use_type_invariant(&*self);
        }
        let mut x = self.0;
        proof {
            lemma_xorshift_nonzero(x);
        }
        x = x ^ (x << 13u32);
        x = x ^ (x >> 17u32);
        x = x ^ (x << 5u32);
        self.0 = x;
        x
    }

    /// Next value in `0..n`, from the high bits, which mix best.  `n == 0`
    /// yields zero without advancing.
    pub fn below(&mut self, n: u32) -> (r: u32)
        ensures
            n == 0 ==> r == 0 && final(self).state() == old(self).state(),
            n != 0 ==> final(self).state() == xorshift(old(self).state()) && r == scale_below(
                final(self).state(),
                n,
            ) && r < n,
    {
        if n == 0 {
            return 0;
        }
        let x = self.next_u32();
        proof {
            assert(x as int * n as int <= 0xffff_ffff * 0xffff_ffff) by (nonlinear_arith)
                requires
                    x <= 0xffff_ffff,
                    n <= 0xffff_ffff,
            ;
        }
        let p: u64 = (x as u64) * (n as u64);
        proof {
            assert(p as int / 0x1_0000_0000 < n) by (nonlinear_arith)
                requires
                    p == x as int * n as int,
                    x < 0x1_0000_0000,
                    n > 0,
            ;
            assert((p >> 32u64) as int == p as int / 0x1_0000_0000) by (bit_vector);
        }
        (p >> 32u64) as u32
    }

    /// Next value in `lo..=hi`; `lo` when the range is empty.
    pub fn range(&mut self, lo: i32, hi: i32) -> (r: i32)
        requires
            i32::MIN <= hi - lo,
            hi - lo + 1 <= i32::MAX,
        ensures
            hi < lo ==> r == lo,
            lo <= hi ==> lo <= r <= hi,
            lo <= hi ==> r == lo + scale_below(xorshift(old(self).state()), (hi - lo + 1) as u32),
            final(self).state() == xorshift(old(self).state()),
    {
        let span = hi - lo + 1;
        let m: i32 = if span > 1 { span } else { 1 };
        lo + self.below(m as u32) as i32
    }

    /// True with probability `num/den`: the next value below `den` is less
    /// than `num`.
    pub fn chance(&mut self, num: u32, den: u32) -> (r: bool)
        ensures
            den == 0 ==> r == (0 < num) && final(self).state() == old(self).state(),
            den != 0 ==> r == (scale_below(xorshift(old(self).state()), den) < num)
                && final(self).state() == xorshift(old(self).state()),
    {
        self.below(den) < num
    }
}

/// A generator is nothing but its state: two in the same state are the
/// same generator, and go on to draw the same numbers.
pub proof fn lemma_same_state_same_generator(a: Rng, b: Rng)
    requires
        a.state() == b.state(),
    ensures
        a == b,
{
}

/// xorshift never steps a non-zero word to zero: each of its three steps is
/// invertible and fixes zero, so none can take anything else there.
pub proof fn lemma_xorshift_nonzero(x: u32)
    requires
        x != 0,
    ensures
        xorshift(x) != 0,
{
    let a = x ^ (x << 13u32);
    let b = a ^ (a >> 17u32);
    assert(x != 0 ==> (x ^ (x << 13u32)) != 0) by (bit_vector);
    assert(a != 0 ==> (a ^ (a >> 17u32)) != 0) by (bit_vector);
    assert(b != 0 ==> (b ^ (b << 5u32)) != 0) by (bit_vector);
}

/// The value of [`hash3`].
pub closed spec fn hash3_of(a: u32, b: u32, c: u32) -> u32 {
    let h0 = wrapping_mul(a, 0x9e37_79b1);
    let h1 = h0 ^ wrapping_mul(b, 0x85eb_ca6b);
    let h2 = (h1 << 13u32) | (h1 >> 19u32);
    let h3 = h2 ^ wrapping_mul(c, 0xc2b2_ae35);
    let h4 = h3 ^ (h3 >> 15u32);
    let h5 = wrapping_mul(h4, 0x2545_f491);
    h5 ^ (h5 >> 16u32)
}

/// A stateless hash, for "what does *this* cell look like" questions that
/// must answer the same way every frame without storing anything.
pub fn hash3(a: u32, b: u32, c: u32) -> (r: u32)
    ensures
        r == hash3_of(a, b, c),
{
    let mut h = a.wrapping_mul(0x9e37_79b1);
    h = h ^ b.wrapping_mul(0x85eb_ca6b);
    h = (h << 13u32) | (h >> 19u32);
    h = h ^ c.wrapping_mul(0xc2b2_ae35);
    h = h ^ (h >> 15u32);
    h = h.wrapping_mul(0x2545_f491);
    h ^ (h >> 16u32)
}

} // verus!

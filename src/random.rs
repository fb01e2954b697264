use vstd::arithmetic::div_mod::lemma_add_mod_noop;
use vstd::arithmetic::div_mod::lemma_small_mod;
use vstd::prelude::*;

verus! {

/// Multiplier of the linear congruential step.
pub const LCG_MULTIPLIER: u32 = 214013;

/// Increment of the linear congruential step.
pub const LCG_INCREMENT: u32 = 2531011;

/// Seed that `Rng::new_unseeded` starts from.
pub const DEFAULT_SEED: u32 = 0x66126c8d;

/// One step of the generator: `s * 214013 + 2531011` modulo 2^32.
pub open spec fn lcg_step(s: u32) -> u32 {
    ((s as int * LCG_MULTIPLIER as int + LCG_INCREMENT as int) % 0x1_0000_0000) as u32
}

/// The state after `n` steps from `s`.
pub open spec fn lcg_iter(s: u32, n: nat) -> u32
    decreases n,
{
    if n == 0 {
        s
    } else {
        lcg_step(lcg_iter(s, (n - 1) as nat))
    }
}

/// Bit pattern of `1.0f32`: sign 0, biased exponent 127, mantissa 0.
pub const UNIT_EXPONENT_BITS: u32 = 0x3F80_0000;

/// The 23 mantissa bits of an IEEE-754 single.
pub const MANTISSA_MASK: u32 = 0x7F_FFFF;

/// Number of distinct mantissas, 2^23.
pub const MANTISSA_RANGE: u32 = 0x80_0000;

/// The low 23 bits of a generator output.
pub open spec fn mantissa_of(x: u32) -> u32 {
    (x % 0x80_0000) as u32
}

/// The single-precision bit pattern built from `x`: exponent 127 with the
/// low 23 bits of `x` as mantissa, i.e. the float `1 + mantissa_of(x) / 2^23`,
/// which lies in [1, 2).
pub open spec fn unit_bits_of(x: u32) -> u32 {
    (UNIT_EXPONENT_BITS + mantissa_of(x)) as u32
}

/// Low 23 bits of `x`.
pub fn mantissa(x: u32) -> (r: u32)
    ensures
        r == mantissa_of(x),
        r < MANTISSA_RANGE,
{
    assert(x & 0x7F_FFFF == x % 0x80_0000) by (bit_vector);
    x & MANTISSA_MASK
}

/// `UNIT_EXPONENT_BITS | (x & MANTISSA_MASK)`: the bits of a float in [1, 2)
/// whose fraction is taken from `x`.
pub fn unit_bits(x: u32) -> (r: u32)
    ensures
        r == unit_bits_of(x),
        UNIT_EXPONENT_BITS <= r < UNIT_EXPONENT_BITS + MANTISSA_RANGE,
{
    assert(0x3F80_0000u32 | (x & 0x7F_FFFF) == 0x3F80_0000u32 + x % 0x80_0000) by (bit_vector);
    UNIT_EXPONENT_BITS | (x & MANTISSA_MASK)
}

/// The 32-bit linear congruential generator; `seed` is its whole state.
pub struct Rng {
    pub seed: u32,
}

impl Rng {
    /// A generator at the fixed default seed.
    pub fn new_unseeded() -> (r: Rng)
        ensures
            r.seed == DEFAULT_SEED,
    {
        Rng { seed: DEFAULT_SEED }
    }

    /// A generator at the given seed.
    pub fn with_seed(seed: u32) -> (r: Rng)
        ensures
            r.seed == seed,
    {
        Rng { seed }
    }

    /// Advances the state by one step and returns the new state.
    pub fn next_u32(&mut self) -> (r: u32)
        ensures
            r == lcg_step(old(self).seed),
            final(self).seed == r,
    {
        let s = self.seed;
        let product = s.wrapping_mul(LCG_MULTIPLIER);
        let r = product.wrapping_add(LCG_INCREMENT);
        proof {
            let m: int = 0x1_0000_0000;
            assert(product as int == (s as int * LCG_MULTIPLIER as int) % m);
            assert(r as int == (product as int + LCG_INCREMENT as int) % m);
            lemma_add_mod_noop(s as int * LCG_MULTIPLIER as int, LCG_INCREMENT as int, m);
            lemma_small_mod(LCG_INCREMENT as nat, m as nat);
            lemma_small_mod(product as nat, m as nat);
        }
        self.seed = r;
        r
    }

    /// Advances by one step and returns the low 23 bits of the new state.
    /// The uniform float of the step is exactly `r / 2^23`, in [0, 1).
    pub fn next_mantissa(&mut self) -> (r: u32)
        ensures
            r == mantissa_of(lcg_step(old(self).seed)),
            r < MANTISSA_RANGE,
            final(self).seed == lcg_step(old(self).seed),
    {
        let x = self.next_u32();
        mantissa(x)
    }

    /// Advances by one step and returns the bit pattern of a float in [1, 2);
    /// that float minus one is the uniform value in [0, 1) of the step.
    pub fn next_unit_bits(&mut self) -> (r: u32)
        ensures
            r == unit_bits_of(lcg_step(old(self).seed)),
            final(self).seed == lcg_step(old(self).seed),
    {
        let x = self.next_u32();
        unit_bits(x)
    }
}

/// Every one of the first `n` draws from any seed is the bit pattern of a
/// float in [1, 2), so every uniform value (that float minus one) is in [0, 1).
pub proof fn lemma_unit_draws_in_range(seed: u32, n: nat)
    ensures
        forall|k: nat|
            k < n ==> UNIT_EXPONENT_BITS <= #[trigger] unit_bits_of(lcg_iter(seed, k + 1))
                < UNIT_EXPONENT_BITS + MANTISSA_RANGE,
{
}

} // verus!

//! The integer phase of the oscillators.
//!
//! A phase accumulator is a 32-bit signed index that runs over the segment
//! [-N, N) with N = 2^31 and wraps around: one full cycle of the waveform
//! is one pass over the segment. The increment per sample is 2N·f0/fs, so
//! that f0 = fs/2 corresponds to an increment of N (two samples per cycle).
//! Computing that increment from the frequencies, and the waveform values
//! themselves, is floating-point work done outside this crate.
use vstd::prelude::*;
use vstd::arithmetic::div_mod::{
    lemma_fundamental_div_mod, lemma_mod_add_multiples_vanish, lemma_mod_bound,
    lemma_mod_multiples_vanish, lemma_small_mod,
};

verus! {

/// Half the width of the segment, 2^31.
pub const N: u32 = 2147483648;

/// Number of entries of the stored half segment of the band-limited step.
pub const M: usize = 2 * (2700 - 1) + 1;

/// `x + y` wrapped into the range of `i32`, as two's complement addition does.
pub open spec fn wrap_add(x: int, y: int) -> int {
    if x + y > i32::MAX {
        x + y - 0x1_0000_0000
    } else if x + y < i32::MIN {
        x + y + 0x1_0000_0000
    } else {
        x + y
    }
}

/// The phase accumulator.
pub struct PhaseAccumulator {
    n: u32,
    a: i32,
    da: i32,
}

impl PhaseAccumulator {
    /// The half width is always 2^31.
    #[verifier::type_invariant]
    spec fn half_width_is_n(&self) -> bool {
        self.n == N
    }

    /// The current index.
    pub closed spec fn phase(&self) -> i32 {
        self.a
    }

    /// The index increment per sample.
    pub closed spec fn increment(&self) -> i32 {
        self.da
    }

    /// Index and increment 0.
    pub fn new() -> (p: PhaseAccumulator)
        ensures
            p.phase() == 0,
            p.increment() == 0,
    {
        PhaseAccumulator { n: 2147483648, a: 0, da: 0 }
    }

    /// The current index.
    pub fn a(&self) -> (r: i32)
        ensures
            r == self.phase(),
    {
        self.a
    }

    /// Start a new cycle: take the increment and set the index to the left
    /// end of the segment, -N.
    pub fn reset_increment(&mut self, da: i32)
        ensures
            final(self).increment() == da,
            final(self).phase() == i32::MIN,
    {
        proof {
            use_type_invariant(&*self);
        }
        self.da = da;
        self.a = 0i32;
        let n_as_i32 = N as i32;
        assert(n_as_i32 == -2147483648i32) by (bit_vector)
            requires
                n_as_i32 == (2147483648u32 as i32),
        ;
        self.a = self.a.wrapping_add(n_as_i32);
    }

    /// Step once and return the new index.
    pub fn get_a(&mut self) -> (r: i32)
        ensures
            final(self).phase() == wrap_add(old(self).phase() as int, old(self).increment() as int),
            final(self).increment() == old(self).increment(),
            r == final(self).phase(),
    {
        self.step();
        self.a
    }

    /// Advance the index by the increment, wrapping around the segment.
    pub fn step(&mut self)
        ensures
            final(self).phase() == wrap_add(old(self).phase() as int, old(self).increment() as int),
            final(self).increment() == old(self).increment(),
    {
        proof {
            use_type_invariant(&*self);
        }
        self.a = self.a.wrapping_add(self.da);
    }

    /// The index shifted by N, wrapping: the same point of the cycle seen
    /// from the middle of the segment.
    pub fn shiftn(&mut self) -> (r: i32)
        ensures
            r == wrap_add(old(self).phase() as int, i32::MIN as int),
            *final(self) == *old(self),
    {
        proof {
            use_type_invariant(&*self);
        }
        let n = self.n;
        let n_as_i32 = n as i32;
        assert(n_as_i32 == -2147483648i32) by (bit_vector)
            requires
                n == 2147483648u32,
                n_as_i32 == (n as i32),
        ;
        self.a.wrapping_add(n_as_i32)
    }
}

/// At half the sample rate (increment N) a cycle takes two steps.
pub proof fn lemma_half_rate_period(a: i32)
    ensures
        wrap_add(wrap_add(a as int, i32::MIN as int), i32::MIN as int) == a,
{
}

/// Shifting by N moves the index to the other half of the segment.
pub proof fn lemma_shift_other_half(a: i32)
    ensures
        a < 0 ==> wrap_add(a as int, i32::MIN as int) == a + 0x8000_0000,
        a >= 0 ==> wrap_add(a as int, i32::MIN as int) == a - 0x8000_0000,
{
}

/// `x` wrapped into the range of `i32`, modulo 2^32.
pub open spec fn wrap32(x: int) -> int {
    (x + 0x8000_0000) % 0x1_0000_0000 - 0x8000_0000
}

/// The index after `k` steps of `da` from `a`, one wrapping step at a time.
pub open spec fn phase_after(a: int, da: int, k: nat) -> int
    decreases k,
{
    if k == 0 {
        a
    } else {
        wrap_add(phase_after(a, da, (k - 1) as nat), da)
    }
}

/// One wrapping step of two `i32` values is their sum modulo 2^32, and
/// stays in the range of `i32`.
pub proof fn lemma_wrap_add_is_mod(x: int, y: int)
    requires
        i32::MIN <= x <= i32::MAX,
        i32::MIN <= y <= i32::MAX,
    ensures
        wrap_add(x, y) == wrap32(x + y),
        i32::MIN <= wrap_add(x, y) <= i32::MAX,
        (wrap_add(x, y) - (x + y)) % 0x1_0000_0000 == 0,
{
    let m: int = 0x1_0000_0000;
    let b: int = x + y + 0x8000_0000;
    if x + y > i32::MAX {
        lemma_mod_add_multiples_vanish(b - m, m);
        lemma_small_mod((b - m) as nat, m as nat);
    } else if x + y < i32::MIN {
        lemma_mod_add_multiples_vanish(b, m);
        lemma_small_mod((m + b) as nat, m as nat);
    } else {
        lemma_small_mod(b as nat, m as nat);
    }
}

/// Wrapping first and adding after wraps to the same value.
proof fn lemma_wrap32_add(u: int, d: int)
    ensures
        wrap32(wrap32(u) + d) == wrap32(u + d),
        i32::MIN <= wrap32(u) <= i32::MAX,
{
    let m: int = 0x1_0000_0000;
    let h: int = 0x8000_0000;
    lemma_fundamental_div_mod(u + h, m);
    lemma_mod_bound(u + h, m);
    let q = (u + h) / m;
    let r = (u + h) % m;
    assert(u + d + h == m * q + (r + d));
    lemma_mod_multiples_vanish(q, r + d, m);
}

/// The law of the phase: after `k` steps of `da` from `a`, the index is
/// `a + k·da` wrapped modulo 2^32; so after `reset_increment(da)` and `k`
/// calls of `get_a` it is `-2^31 + k·da`, wrapped.
pub proof fn lemma_phase_after(a: i32, da: i32, k: nat)
    ensures
        phase_after(a as int, da as int, k) == wrap32(a + k * da),
        i32::MIN <= phase_after(a as int, da as int, k) <= i32::MAX,
    decreases k,
{
    if k == 0 {
        lemma_small_mod((a + 0x8000_0000) as nat, 0x1_0000_0000nat);
    } else {
        let k1 = (k - 1) as nat;
        lemma_phase_after(a, da, k1);
        let p = phase_after(a as int, da as int, k1);
        lemma_wrap_add_is_mod(p, da as int);
        lemma_wrap32_add(a + k1 * da, da as int);
        assert(a + k1 * da + da == a + k * da) by (nonlinear_arith)
            requires
                k1 + 1 == k,
        ;
        lemma_wrap32_add(a + k * da, 0);
    }
}

/// The integer part of the band-limited impulse train oscillator.
pub struct OscBLIT {
    pub m: u32,
    pub pa: PhaseAccumulator,
    pub b: i32,
    pub alpha: u32,
    pub abs_a: i32,
    pub use_blit: bool,
    pub use_postfilter: bool,
}

/// `a` mirrored onto [0, 2^31): `a` itself, or `-(a + 1)` when negative.
pub open spec fn folded(a: i32) -> int {
    if a < 0 {
        -(a + 1)
    } else {
        a as int
    }
}

/// The folded index is the distance of the index from the middle of the
/// segment, with the two halves mirrored onto each other: it lies in
/// [0, 2^31), a non-negative index is its own fold, the indices `a` and
/// `-(a + 1)` fold to the same value, and on either half the fold grows
/// strictly as the index moves away from the middle.
pub proof fn lemma_folded(a: i32, b: i32)
    ensures
        0 <= folded(a) < 0x8000_0000,
        a >= 0 ==> folded(a) == a,
        a >= 0 ==> folded((-(a + 1)) as i32) == folded(a),
        0 <= a < b ==> folded(a) < folded(b),
        b < a < 0 ==> folded(a) < folded(b),
{
}

/// `alpha` read as a signed 32-bit number, as a cast does.
pub open spec fn as_signed(alpha: u32) -> int {
    if alpha > i32::MAX {
        alpha - 0x1_0000_0000
    } else {
        alpha as int
    }
}

impl OscBLIT {
    /// Index, shifted index and width 0; impulse train and post filter on.
    pub fn new() -> (o: OscBLIT)
        ensures
            o.m == M,
            o.pa.phase() == 0,
            o.pa.increment() == 0,
            o.b == 0,
            o.alpha == 0,
            o.abs_a == 0,
            o.use_blit,
            o.use_postfilter,
    {
        OscBLIT {
            m: M as u32,
            pa: PhaseAccumulator::new(),
            b: 0,
            alpha: 0,
            abs_a: 0,
            use_blit: true,
            use_postfilter: true,
        }
    }

    /// Start a new cycle with the given increment.
    pub fn reset_increment(&mut self, da: i32)
        ensures
            final(self).pa.increment() == da,
            final(self).pa.phase() == i32::MIN,
            final(self).b == wrap_add(i32::MIN as int, i32::MIN as int),
            final(self).alpha == old(self).alpha,
            final(self).abs_a == old(self).abs_a,
            final(self).m == old(self).m,
            final(self).use_blit == old(self).use_blit,
            final(self).use_postfilter == old(self).use_postfilter,
    {
        self.pa.reset_increment(da);
        self.b = self.pa.shiftn();
    }

    /// Step the phase; keep the shifted index and the folded index, which
    /// is computed without `abs` (that overflows on -2^31).
    pub fn step_ab(&mut self)
        ensures
            final(self).pa.phase() == wrap_add(
                old(self).pa.phase() as int,
                old(self).pa.increment() as int,
            ),
            final(self).pa.increment() == old(self).pa.increment(),
            final(self).b == wrap_add(final(self).pa.phase() as int, i32::MIN as int),
            final(self).abs_a == folded(final(self).pa.phase()),
            final(self).pa.phase() >= 0 ==> final(self).abs_a == final(self).pa.phase(),
            final(self).pa.phase() < 0 ==> final(self).abs_a == -(final(self).pa.phase() + 1),
            0 <= final(self).abs_a,
            final(self).alpha == old(self).alpha,
            final(self).m == old(self).m,
            final(self).use_blit == old(self).use_blit,
            final(self).use_postfilter == old(self).use_postfilter,
    {
        self.pa.step();
        self.b = self.pa.shiftn();
        let a = self.pa.a;
        let mask = a >> 31u32;
        let abs_a = a ^ mask;
        assert(a < 0 ==> abs_a == -(a + 1)) by (bit_vector)
            requires
                mask == a >> 31u32,
                abs_a == a ^ mask,
        ;
        assert(a >= 0 ==> abs_a == a) by (bit_vector)
            requires
                mask == a >> 31u32,
                abs_a == a ^ mask,
        ;
        self.abs_a = abs_a;
    }

    /// Whether the folded index lies inside the impulse, |A| < alpha; only
    /// there does the stored segment contribute to the output.
    pub fn in_impulse(&self) -> (r: bool)
        ensures
            r == (self.abs_a < as_signed(self.alpha)),
    {
        let alpha = self.alpha;
        let s = alpha as i32;
        assert(s == as_signed(alpha)) by (bit_vector)
            requires
                s == alpha as i32,
        ;
        self.abs_a < s
    }
}

} // verus!

//! Deterministic pseudo-random number generation.
//!
//! The generator lives inside the simulation state, so every draw advances
//! world state. Nothing here reads the clock, thread-local state, or the
//! operating system: two machines replaying the same commands draw the same
//! numbers, because every result is a function of the seed alone.
use vstd::prelude::*;

verus! {

/// The four words of xoshiro256** state.
pub type RngState = (u64, u64, u64, u64);

/// The splitmix64 increment, the golden ratio in 64-bit fixed point.
pub const SPLITMIX_GAMMA: u64 = 0x9E37_79B9_7F4A_7C15;

/// The splitmix64 output function: scrambles one counter value.
pub open spec fn splitmix_mix(z: u64) -> u64 {
    let x1 = (z ^ (z >> 30u64)).wrapping_mul(0xBF58_476D_1CE4_E5B9);
    let x2 = (x1 ^ (x1 >> 27u64)).wrapping_mul(0x94D0_49BB_1331_11EB);
    x2 ^ (x2 >> 31u64)
}

/// The state a seed expands to: four consecutive splitmix64 outputs.
pub open spec fn seeded_state(seed: u64) -> RngState {
    let z1 = seed.wrapping_add(SPLITMIX_GAMMA);
    let z2 = z1.wrapping_add(SPLITMIX_GAMMA);
    let z3 = z2.wrapping_add(SPLITMIX_GAMMA);
    let z4 = z3.wrapping_add(SPLITMIX_GAMMA);
    (splitmix_mix(z1), splitmix_mix(z2), splitmix_mix(z3), splitmix_mix(z4))
}

/// Rotation of a 64-bit word to the left by `k` bits, `0 < k < 64`.
pub open spec fn rotl(x: u64, k: u64) -> u64 {
    (x << k) | (x >> (64 - k) as u64)
}

/// The value xoshiro256** emits from a state.
pub open spec fn xoshiro_output(s: RngState) -> u64 {
    rotl(s.1.wrapping_mul(5), 7).wrapping_mul(9)
}

/// The state xoshiro256** moves to from a state.
pub open spec fn xoshiro_next(s: RngState) -> RngState {
    let t = s.1 << 17u64;
    let s2 = s.2 ^ s.0;
    let s3 = s.3 ^ s.1;
    let s1 = s.1 ^ s2;
    let s0 = s.0 ^ s3;
    (s0, s1, s2 ^ t, rotl(s3, 45))
}

/// The state after `n` draws.
pub open spec fn advance(s: RngState, n: nat) -> RngState
    decreases n,
{
    if n == 0 {
        s
    } else {
        xoshiro_next(advance(s, (n - 1) as nat))
    }
}

/// The value of draw number `n` (counting from zero) from state `s`.
pub open spec fn draw_at(s: RngState, n: nat) -> u64 {
    xoshiro_output(advance(s, n))
}

/// The top 32 bits of a draw, the only part that `below` uses.
pub open spec fn top_word(draw: u64) -> int {
    draw as int / 0x1_0000_0000
}

/// Lemire's rejection threshold for `bound`: `2^32 mod bound`, the number of
/// top words that would otherwise make some results more likely than others.
pub open spec fn below_threshold(bound: int) -> int {
    0x1_0000_0000int % bound
}

/// Whether `below(bound)` accepts a draw whose top word is `d`: the low half
/// of `d * bound` must reach the threshold.
pub open spec fn top_accepted(d: int, bound: int) -> bool {
    (d * bound) % 0x1_0000_0000 >= below_threshold(bound)
}

/// The result for a draw whose top word is `d`: the high half of
/// `d * bound`.
pub open spec fn top_value(d: int, bound: int) -> int {
    (d * bound) / 0x1_0000_0000
}

/// Whether `below(bound)` accepts a draw.
pub open spec fn below_accepts(draw: u64, bound: u64) -> bool {
    top_accepted(top_word(draw), bound as int)
}

/// The value `below(bound)` returns for an accepted draw.
pub open spec fn below_value(draw: u64, bound: u64) -> int {
    top_value(top_word(draw), bound as int)
}

/// The first top word that `below(bound)` accepts and maps to `v`; the
/// accepted top words for `v` are the `2^32 / bound` words from here on.
pub open spec fn below_slot_start(v: int, bound: int) -> int {
    v * (0x1_0000_0000int / bound) + ((v + 1) * below_threshold(bound) + bound - 1) / bound
}

/// Whether `k` is the first draw from `s` that `below(bound)` accepts.
pub open spec fn first_accepted(s: RngState, bound: u64, k: nat) -> bool {
    &&& below_accepts(draw_at(s, k), bound)
    &&& forall|i: nat| i < k ==> !below_accepts(#[trigger] draw_at(s, i), bound)
}

/// Whether some draw from `s` is accepted by `below(bound)`, which is
/// exactly when `below` returns.
pub open spec fn some_draw_accepted(s: RngState, bound: u64) -> bool {
    exists|n: nat| below_accepts(#[trigger] draw_at(s, n), bound)
}

/// Rotates a word left, as `u64::rotate_left` does.
fn rotate_left_u64(x: u64, k: u64) -> (r: u64)
    requires
        0 < k < 64,
    ensures
        r == rotl(x, k),
{
    (x << k) | (x >> (64 - k))
}

/// The splitmix64 output function.
fn splitmix64_mix(z: u64) -> (r: u64)
    ensures
        r == splitmix_mix(z),
{
    let x1 = (z ^ (z >> 30u64)).wrapping_mul(0xBF58_476D_1CE4_E5B9);
    let x2 = (x1 ^ (x1 >> 27u64)).wrapping_mul(0x94D0_49BB_1331_11EB);
    x2 ^ (x2 >> 31u64)
}

/// A xoshiro256** generator.
#[derive(PartialEq, Eq, Debug)]
pub struct Rng {
    state: [u64; 4],
}

impl View for Rng {
    type V = RngState;

    closed spec fn view(&self) -> RngState {
        (self.state[0], self.state[1], self.state[2], self.state[3])
    }
}

impl Clone for Rng {
    /// Forks the generator: the copy continues the same sequence without
    /// advancing the generator it came from.
    fn clone(&self) -> (r: Rng)
        ensures
            r@ == self@,
    {
        Rng { state: self.state }
    }
}

impl Rng {
    /// Builds a generator from a seed.
    ///
    /// The seed is expanded through splitmix64 rather than being written into
    /// the state directly: an all-zero xoshiro state is a fixed point that
    /// emits zeros forever, and low-entropy seeds take many rounds to
    /// scramble.
    pub fn from_seed(seed: u64) -> (r: Rng)
        ensures
            r@ == seeded_state(seed),
    {
        let z1 = seed.wrapping_add(SPLITMIX_GAMMA);
        let z2 = z1.wrapping_add(SPLITMIX_GAMMA);
        let z3 = z2.wrapping_add(SPLITMIX_GAMMA);
        let z4 = z3.wrapping_add(SPLITMIX_GAMMA);
        let a = splitmix64_mix(z1);
        let b = splitmix64_mix(z2);
        let c = splitmix64_mix(z3);
        let d = splitmix64_mix(z4);
        Rng { state: [a, b, c, d] }
    }

    /// Draws the next value and advances the state.
    pub fn next_u64(&mut self) -> (r: u64)
        ensures
            r == xoshiro_output(old(self)@),
            final(self)@ == xoshiro_next(old(self)@),
    {
        let s0 = self.state[0];
        let s1 = self.state[1];
        let s2 = self.state[2];
        let s3 = self.state[3];
        let result = rotate_left_u64(s1.wrapping_mul(5), 7).wrapping_mul(9);
        let t = s1 << 17u64;
        let n2 = s2 ^ s0;
        let n3 = s3 ^ s1;
        let n1 = s1 ^ n2;
        let n0 = s0 ^ n3;
        self.state = [n0, n1, n2 ^ t, rotate_left_u64(n3, 45)];
        result
    }

    /// Draws a value in `0..bound`.
    ///
    /// Uses Lemire's multiply-shift with rejection rather than a modulo, so
    /// the result is unbiased (see `lemma_below_is_unbiased`): draws are taken
    /// until one is accepted, and the value comes from the first accepted
    /// draw. The loop returns exactly when some draw is accepted, and consumes
    /// a number of draws fixed by the state; `below(0)` has no valid result.
    pub fn below(&mut self, bound: u32) -> (r: u32)
        requires
            bound > 0,
            some_draw_accepted(old(self)@, bound as u64),
        ensures
            r < bound,
            exists|k: nat|
                {
                    &&& first_accepted(old(self)@, bound as u64, k)
                    &&& final(self)@ == advance(old(self)@, k + 1)
                    &&& r == below_value(#[trigger] draw_at(old(self)@, k), bound as u64)
                },
    {
        let wide = bound as u64;
        let threshold = 0x1_0000_0000u64 % wide;
        let ghost s0 = self@;
        let ghost n = choose|n: nat| below_accepts(#[trigger] draw_at(s0, n), wide);
        let ghost mut i: nat = 0;
        loop
            invariant
                wide == bound as u64,
                wide > 0,
                s0 == old(self)@,
                threshold == below_threshold(wide as int),
                below_accepts(draw_at(s0, n), wide),
                i <= n,
                self@ == advance(s0, i),
                forall|j: nat| j < i ==> !below_accepts(#[trigger] draw_at(s0, j), wide),
            decreases n - i,
        {
            let x = self.next_u64();
            let draw = x >> 32u64;
            proof {
                assert(x >> 32u64 <= 0xffff_ffff) by (bit_vector);
                assert(self@ == advance(s0, i + 1));
                assert(draw * wide <= 0xffff_ffff * 0xffff_ffff) by (nonlinear_arith)
                    requires
                        draw <= 0xffff_ffff,
                        wide <= 0xffff_ffff,
                ;
            }
            let product = draw * wide;
            if (product & 0xFFFF_FFFFu64) >= threshold {
                proof {
                    assert(product >> 32u64 == product / 0x1_0000_0000) by (bit_vector);
                    assert(product & 0xFFFF_FFFFu64 == product % 0x1_0000_0000) by (bit_vector);
                    assert(x >> 32u64 == x / 0x1_0000_0000) by (bit_vector);
                    assert(product / 0x1_0000_0000 < wide) by (nonlinear_arith)
                        requires
                            product == draw * wide,
                            draw <= 0xffff_ffff,
                            wide > 0,
                    ;
                    assert(x == draw_at(s0, i));
                    assert(first_accepted(s0, wide, i));
                }
                return (product >> 32u64) as u32;
            }
            proof {
                assert(product & 0xFFFF_FFFFu64 == product % 0x1_0000_0000) by (bit_vector);
                assert(x >> 32u64 == x / 0x1_0000_0000) by (bit_vector);
                assert(x == draw_at(s0, i));
                i = i + 1;
            }
        }
    }
}

/// The splitmix64 output function is a bijection on 64-bit words.
pub proof fn lemma_splitmix_injective(a: u64, b: u64)
    requires
        splitmix_mix(a) == splitmix_mix(b),
    ensures
        a == b,
{
    lemma_splitmix_unmix_inverts(a);
    lemma_splitmix_unmix_inverts(b);
}

/// Different seeds expand to different states.
pub proof fn lemma_distinct_seeds_give_distinct_states(a: u64, b: u64)
    requires
        a != b,
    ensures
        seeded_state(a) != seeded_state(b),
{
    if seeded_state(a) == seeded_state(b) {
        lemma_splitmix_injective(a.wrapping_add(SPLITMIX_GAMMA), b.wrapping_add(SPLITMIX_GAMMA));
        assert(false);
    }
}

/// The splitmix64 output function sends only zero to zero.
pub proof fn lemma_splitmix_zero(z: u64)
    requires
        splitmix_mix(z) == 0,
    ensures
        z == 0,
{
    let zero: u64 = 0;
    assert(zero ^ (zero >> 30u64) == 0 && zero ^ (zero >> 27u64) == 0 && zero ^ (zero >> 31u64)
        == 0) by (bit_vector)
        requires
            zero == 0,
    ;
    assert(splitmix_mix(zero) == 0);
    lemma_splitmix_injective(z, zero);
}

/// Seeding never produces the all-zero state, so a generator built by
/// `from_seed` never degenerates into emitting zeros forever.
pub proof fn lemma_seeded_state_is_never_zero(seed: u64)
    ensures
        seeded_state(seed) != (0u64, 0u64, 0u64, 0u64),
{
    let z1 = seed.wrapping_add(SPLITMIX_GAMMA);
    let z2 = z1.wrapping_add(SPLITMIX_GAMMA);
    if seeded_state(seed) == (0u64, 0u64, 0u64, 0u64) {
        lemma_splitmix_zero(z1);
        lemma_splitmix_zero(z2);
        assert(false);
    }
}

/// The all-zero state is a fixed point that emits zero: the degenerate
/// state that seeding avoids.
pub proof fn lemma_zero_state_is_stuck()
    ensures
        xoshiro_output((0u64, 0u64, 0u64, 0u64)) == 0,
        xoshiro_next((0u64, 0u64, 0u64, 0u64)) == (0u64, 0u64, 0u64, 0u64),
{
    let z: u64 = 0;
    assert(rotl(z, 7) == 0 && rotl(z ^ z, 45) == 0 && (z ^ z) ^ (z << 17u64) == 0 && z ^ (z ^ z) == 0
        && (z ^ z) ^ z == 0 && z ^ z == 0) by (bit_vector)
        requires
            z == 0,
    ;
}

/// Taking `a` draws and then `b` more is the same as taking `a + b` draws: a
/// generator resumed from a saved state continues the same sequence.
pub proof fn lemma_draws_continue(s: RngState, a: nat, b: nat)
    ensures
        advance(advance(s, a), b) == advance(s, a + b),
        draw_at(advance(s, a), b) == draw_at(s, a + b),
    decreases b,
{
    if b > 0 {
        lemma_draws_continue(s, a, (b - 1) as nat);
        assert(advance(s, a + b) == xoshiro_next(advance(s, (a + b - 1) as nat)));
    }
}

/// When the rejection threshold is zero, as it is for every power-of-two
/// bound and for `1`, every draw is accepted, so `below` takes exactly one.
pub proof fn lemma_zero_threshold_accepts_every_draw(s: RngState, bound: u64)
    requires
        below_threshold(bound as int) == 0,
    ensures
        some_draw_accepted(s, bound),
        first_accepted(s, bound, 0),
{
    assert(below_accepts(draw_at(s, 0), bound));
}

/// For `b > 0` and `y >= 0`, `x * b >= y` exactly when `x` reaches the
/// rounded-up quotient `c` of `y` by `b`.
proof fn lemma_reaches_ceil(x: int, y: int, b: int, c: int)
    requires
        b > 0,
        y >= 0,
        c == (y + b - 1) / b,
    ensures
        x * b >= y <==> x >= c,
{
    vstd::arithmetic::div_mod::lemma_fundamental_div_mod(y + b - 1, b);
    vstd::arithmetic::div_mod::lemma_mod_bound(y + b - 1, b);
    let r = (y + b - 1) % b;
    assert(y <= c * b <= y + b - 1) by (nonlinear_arith)
        requires
            y + b - 1 == b * c + r,
            0 <= r < b,
    ;
    if x >= c {
        assert(x * b >= c * b) by (nonlinear_arith)
            requires
                x >= c,
                b > 0,
        ;
    } else {
        assert(x * b <= c * b - b) by (nonlinear_arith)
            requires
                x <= c - 1,
                b > 0,
        ;
    }
}

/// `below` is unbiased: among the `2^32` possible top words of a draw, the
/// ones accepted and mapped to a result `v` are exactly the `2^32 / bound`
/// consecutive words starting at `below_slot_start(v, bound)`, and these
/// slots lie inside the range of top words. Every result in `0..bound` is
/// therefore reached by the same number of top words; the `2^32 mod bound`
/// words left over are rejected and redrawn.
pub proof fn lemma_below_is_unbiased(d: int, v: int, bound: int)
    requires
        0 < bound <= u32::MAX,
        0 <= d < 0x1_0000_0000,
        0 <= v < bound,
    ensures
        top_accepted(d, bound) && top_value(d, bound) == v <==> below_slot_start(v, bound) <= d
            < below_slot_start(v, bound) + 0x1_0000_0000int / bound,
        0 <= below_slot_start(v, bound),
        below_slot_start(v, bound) + 0x1_0000_0000int / bound <= 0x1_0000_0000,
{
    let m: int = 0x1_0000_0000;
    let q = m / bound;
    let t = m % bound;
    vstd::arithmetic::div_mod::lemma_fundamental_div_mod(m, bound);
    vstd::arithmetic::div_mod::lemma_mod_bound(m, bound);
    let y = (v + 1) * t;
    assert(0 <= y <= bound * t) by (nonlinear_arith)
        requires
            0 <= v < bound,
            0 <= t,
            y == (v + 1) * t,
    ;
    let c = (y + bound - 1) / bound;
    assert(below_slot_start(v, bound) == v * q + c);
    // The slot stays inside the range of top words.
    assert(t * bound >= y) by (nonlinear_arith)
        requires
            y <= bound * t,
    ;
    lemma_reaches_ceil(t, y, bound, c);
    assert((v + 1) * q == v * q + q) by (nonlinear_arith);
    assert(c >= 0) by {
        lemma_reaches_ceil(0, y, bound, c);
    }
    assert(v * q >= 0 && (v + 1) * q <= bound * q) by (nonlinear_arith)
        requires
            0 <= v < bound,
            q >= 0,
    ;
    // The product splits into the result (high half) and the low half.
    let p = d * bound;
    let w = p / m;
    let l = p % m;
    assert(p >= 0) by (nonlinear_arith)
        requires
            d >= 0,
            bound > 0,
            p == d * bound,
    ;
    vstd::arithmetic::div_mod::lemma_fundamental_div_mod(p, m);
    vstd::arithmetic::div_mod::lemma_mod_bound(p, m);
    assert(w == v && l >= t <==> v * m + t <= p < (v + 1) * m) by (nonlinear_arith)
        requires
            p == m * w + l,
            0 <= l < m,
            0 <= t < m,
            m > 0,
    ;
    // Both bounds on the product move over to bounds on the top word.
    assert(p - v * m - t == (d - v * q) * bound - y) by (nonlinear_arith)
        requires
            m == bound * q + t,
            p == d * bound,
            y == (v + 1) * t,
    ;
    assert(p - (v + 1) * m == (d - (v + 1) * q) * bound - y) by (nonlinear_arith)
        requires
            m == bound * q + t,
            p == d * bound,
            y == (v + 1) * t,
    ;
    lemma_reaches_ceil(d - v * q, y, bound, c);
    lemma_reaches_ceil(d - (v + 1) * q, y, bound, c);
}

/// The splitmix64 counter after `k` steps from `seed`, with the golden-ratio
/// increment `0x9E37_79B9_7F4A_7C15`, modulo 2^64.
pub open spec fn splitmix_counter(seed: u64, k: int) -> int {
    (seed + k * 0x9E37_79B9_7F4A_7C15int) % 0x1_0000_0000_0000_0000int
}

proof fn lemma_counter_step(seed: u64, k: int, z: u64)
    requires
        k >= 0,
        z == splitmix_counter(seed, k),
    ensures
        z.wrapping_add(0x9E37_79B9_7F4A_7C15) == splitmix_counter(seed, k + 1),
{
    let m: int = 0x1_0000_0000_0000_0000;
    let g: int = 0x9E37_79B9_7F4A_7C15;
    let x = seed + k * g;
    let q = x / m;
    vstd::arithmetic::div_mod::lemma_fundamental_div_mod(x, m);
    assert(x == m * q + z);
    assert(seed + (k + 1) * g == x + g) by (nonlinear_arith)
        requires
            x == seed + k * g,
    ;
    if z + g < m {
        vstd::arithmetic::div_mod::lemma_fundamental_div_mod_converse(x + g, m, q, z + g);
    } else {
        assert(x + g == m * (q + 1) + (z + g - m));
        vstd::arithmetic::div_mod::lemma_fundamental_div_mod_converse(x + g, m, q + 1, z + g - m);
    }
}

/// Seeding writes four consecutive outputs of splitmix64 into the state:
/// word `k` is the output function applied to the counter `seed + (k + 1)`
/// increments, modulo 2^64.
pub proof fn lemma_seed_expands_through_splitmix(seed: u64)
    ensures
        seeded_state(seed).0 == splitmix_mix(splitmix_counter(seed, 1) as u64),
        seeded_state(seed).1 == splitmix_mix(splitmix_counter(seed, 2) as u64),
        seeded_state(seed).2 == splitmix_mix(splitmix_counter(seed, 3) as u64),
        seeded_state(seed).3 == splitmix_mix(splitmix_counter(seed, 4) as u64),
{
    vstd::arithmetic::div_mod::lemma_small_mod(seed as nat, 0x1_0000_0000_0000_0000nat);
    assert(seed as int == splitmix_counter(seed, 0));
    let z1 = seed.wrapping_add(SPLITMIX_GAMMA);
    lemma_counter_step(seed, 0, seed);
    let z2 = z1.wrapping_add(SPLITMIX_GAMMA);
    lemma_counter_step(seed, 1, z1);
    let z3 = z2.wrapping_add(SPLITMIX_GAMMA);
    lemma_counter_step(seed, 2, z2);
    lemma_counter_step(seed, 3, z3);
}

/// The inverse of the splitmix64 output function, undoing its three
/// xorshifts and two multiplications in reverse order (each multiplier is
/// undone by its inverse modulo 2^64).
pub open spec fn splitmix_unmix(x: u64) -> u64 {
    let x2 = x ^ (x >> 31u64) ^ (x >> 62u64);
    let t1 = x2.wrapping_mul(0x3196_42B2_D24D_8EC3);
    let x1 = t1 ^ (t1 >> 27u64) ^ (t1 >> 54u64);
    let t0 = x1.wrapping_mul(0x96DE_1B17_3F11_9089);
    t0 ^ (t0 >> 30u64) ^ (t0 >> 60u64)
}

/// Multiplying by `c` and then by its inverse modulo 2^64 gives the word back.
proof fn lemma_mul_by_inverse(x: u64, c: u64, c_inv: u64)
    requires
        (c * c_inv) % 0x1_0000_0000_0000_0000 == 1,
    ensures
        x.wrapping_mul(c).wrapping_mul(c_inv) == x,
{
    let m: int = 0x1_0000_0000_0000_0000;
    vstd::arithmetic::div_mod::lemma_mul_mod_noop_left(x * c, c_inv as int, m);
    vstd::arithmetic::mul::lemma_mul_is_associative(x as int, c as int, c_inv as int);
    vstd::arithmetic::div_mod::lemma_mul_mod_noop_right(x as int, c * c_inv, m);
    assert((x * 1) % m == x as int % m);
    vstd::arithmetic::div_mod::lemma_small_mod(x as nat, m as nat);
}

/// The splitmix64 output function is the inverse of `splitmix_unmix`: it is
/// the bijection made of the three xorshifts by 30, 27 and 31 bits and the
/// multiplications by `0xBF58_476D_1CE4_E5B9` and `0x94D0_49BB_1331_11EB`.
pub proof fn lemma_splitmix_unmix_inverts(z: u64)
    ensures
        splitmix_unmix(splitmix_mix(z)) == z,
{
    let a = z ^ (z >> 30u64);
    let x1 = a.wrapping_mul(0xBF58_476D_1CE4_E5B9);
    let b = x1 ^ (x1 >> 27u64);
    let x2 = b.wrapping_mul(0x94D0_49BB_1331_11EB);
    let x = x2 ^ (x2 >> 31u64);
    assert(x ^ (x >> 31u64) ^ (x >> 62u64) == x2) by (bit_vector)
        requires
            x == x2 ^ (x2 >> 31u64),
    ;
    assert(0x94D0_49BB_1331_11EBu64 * 0x3196_42B2_D24D_8EC3u64 % 0x1_0000_0000_0000_0000int == 1);
    lemma_mul_by_inverse(b, 0x94D0_49BB_1331_11EB, 0x3196_42B2_D24D_8EC3);
    assert(b ^ (b >> 27u64) ^ (b >> 54u64) == x1) by (bit_vector)
        requires
            b == x1 ^ (x1 >> 27u64),
    ;
    assert(0xBF58_476D_1CE4_E5B9u64 * 0x96DE_1B17_3F11_9089u64 % 0x1_0000_0000_0000_0000int == 1);
    lemma_mul_by_inverse(a, 0xBF58_476D_1CE4_E5B9, 0x96DE_1B17_3F11_9089);
    assert(a ^ (a >> 30u64) ^ (a >> 60u64) == z) by (bit_vector)
        requires
            a == z ^ (z >> 30u64),
    ;
}

/// The xoshiro256** state before a step, rebuilt from the state after it.
pub open spec fn xoshiro_prev(s: RngState) -> RngState {
    let n3 = (s.3 >> 45u64) | (s.3 << 19u64);
    let y = s.1 ^ s.2;
    let s1 = y ^ (y << 17u64) ^ (y << 34u64) ^ (y << 51u64);
    let n2 = s.1 ^ s1;
    let s0 = s.0 ^ n3;
    (s0, s1, n2 ^ s0, n3 ^ s1)
}

/// A xoshiro256** step can be undone: `xoshiro_prev` rebuilds the state it
/// came from, so the step is a bijection and no two states merge.
pub proof fn lemma_xoshiro_step_is_reversible(s: RngState)
    ensures
        xoshiro_prev(xoshiro_next(s)) == s,
{
    let (a, b, c, d) = s;
    let t = b << 17u64;
    let c1 = c ^ a;
    let d1 = d ^ b;
    let b1 = b ^ c1;
    let a1 = a ^ d1;
    let c2 = c1 ^ t;
    let d2 = rotl(d1, 45);
    assert(d2 == (d1 << 45u64) | (d1 >> 19u64));
    let n3 = (d2 >> 45u64) | (d2 << 19u64);
    assert(n3 == d1) by (bit_vector)
        requires
            d2 == (d1 << 45u64) | (d1 >> 19u64),
            n3 == (d2 >> 45u64) | (d2 << 19u64),
    ;
    let y = b1 ^ c2;
    let s1 = y ^ (y << 17u64) ^ (y << 34u64) ^ (y << 51u64);
    assert(s1 == b) by (bit_vector)
        requires
            t == b << 17u64,
            b1 == b ^ c1,
            c2 == c1 ^ t,
            y == b1 ^ c2,
            s1 == y ^ (y << 17u64) ^ (y << 34u64) ^ (y << 51u64),
    ;
    assert((b1 ^ s1) ^ (a1 ^ n3) == c) by (bit_vector)
        requires
            s1 == b,
            n3 == d1,
            b1 == b ^ c1,
            c1 == c ^ a,
            a1 == a ^ d1,
    ;
    assert(a1 ^ n3 == a && n3 ^ s1 == d) by (bit_vector)
        requires
            s1 == b,
            n3 == d1,
            a1 == a ^ d1,
            d1 == d ^ b,
    ;
}

/// The value a state emits determines the state's second word: undoing the
/// multiplication by 9, the rotation by 7 and the multiplication by 5
/// recovers it.
pub proof fn lemma_output_reveals_second_word(s: RngState)
    ensures
        ({
            let u = xoshiro_output(s).wrapping_mul(0x8E38_E38E_38E3_8E39);
            ((u >> 7u64) | (u << 57u64)).wrapping_mul(0xCCCC_CCCC_CCCC_CCCD)
        }) == s.1,
{
    let v = s.1.wrapping_mul(5);
    let r = rotl(v, 7);
    assert(r == (v << 7u64) | (v >> 57u64));
    assert(9u64 * 0x8E38_E38E_38E3_8E39u64 % 0x1_0000_0000_0000_0000int == 1);
    lemma_mul_by_inverse(r, 9, 0x8E38_E38E_38E3_8E39);
    let u = xoshiro_output(s).wrapping_mul(0x8E38_E38E_38E3_8E39);
    assert(u == r);
    assert((u >> 7u64) | (u << 57u64) == v) by (bit_vector)
        requires
            u == (v << 7u64) | (v >> 57u64),
    ;
    assert(5u64 * 0xCCCC_CCCC_CCCC_CCCDu64 % 0x1_0000_0000_0000_0000int == 1);
    lemma_mul_by_inverse(s.1, 5, 0xCCCC_CCCC_CCCC_CCCD);
}

/// Two draws whose top 32 bits agree get the same decision and the same
/// value from `below`: the low half of a draw is never used.
pub proof fn lemma_below_uses_only_the_top_word(x: u64, y: u64, bound: u64)
    requires
        x >> 32u64 == y >> 32u64,
    ensures
        below_accepts(x, bound) == below_accepts(y, bound),
        below_value(x, bound) == below_value(y, bound),
{
    assert(x >> 32u64 == x / 0x1_0000_0000 && y >> 32u64 == y / 0x1_0000_0000) by (bit_vector);
}

} // verus!

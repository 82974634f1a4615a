use vstd::prelude::*;
use vstd::arithmetic::div_mod::lemma_mod_multiples_vanish;
use vstd::arithmetic::div_mod::lemma_mul_mod_noop_left;
use vstd::arithmetic::mul::lemma_mul_is_associative;

verus! {

/// The golden-ratio increment of the splitmix64 generator.
pub const SPLITMIX_INCREMENT: u64 = 0x9E37_79B9_7F4A_7C15;

/// The state that `Rng64::new` substitutes for a zero seed.
pub const ZERO_SEED_STATE: u64 = 0xA5A5_1F2E_3D4C_5B6A;

/// Multiplication modulo 2^64.
pub open spec fn wrap_mul(x: u64, y: u64) -> u64 {
    ((x as nat * y as nat) % 0x1_0000_0000_0000_0000nat) as u64
}

/// Addition modulo 2^64.
pub open spec fn wrap_add(x: u64, y: u64) -> u64 {
    if x + y > u64::MAX {
        (x + y - 0x1_0000_0000_0000_0000int) as u64
    } else {
        (x + y) as u64
    }
}

/// The splitmix64 finaliser.
#[verifier::opaque]
pub open spec fn mix64_spec(value: u64) -> u64 {
    let a = wrap_mul(value ^ (value >> 30u64), 0xBF58_476D_1CE4_E5B9u64);
    let b = wrap_mul(a ^ (a >> 27u64), 0x94D0_49BB_1331_11EBu64);
    b ^ (b >> 31u64)
}

/// The generator state after one more draw.
pub open spec fn step_state(state: u64) -> u64 {
    wrap_add(state, SPLITMIX_INCREMENT)
}

/// The generator state after `n` draws.
pub open spec fn state_after(state: u64, n: nat) -> u64
    decreases n,
{
    if n == 0 {
        state
    } else {
        step_state(state_after(state, (n - 1) as nat))
    }
}

/// The `n`-th 64-bit draw (counting from zero) of a generator in `state`.
pub open spec fn draw_at(state: u64, n: nat) -> u64 {
    mix64_spec(state_after(state, n + 1))
}

/// The 24-bit unit draw: the top 24 bits of a 64-bit draw.
pub open spec fn unit_of(draw: u64) -> u32 {
    (draw >> 40u64) as u32
}

/// The state a seed selects.
pub open spec fn seeded_state(seed: u64) -> u64 {
    if seed == 0 {
        ZERO_SEED_STATE
    } else {
        seed
    }
}

/// One draw moves the stream: the states after `n + 1` draws from `state` are the
/// states after `n` draws from the next state.
pub proof fn lemma_state_after_shift(state: u64, n: nat)
    ensures
        state_after(state, n + 1) == state_after(step_state(state), n),
    decreases n,
{
    assert(state_after(state, n + 1) == step_state(state_after(state, n)));
    if n > 0 {
        lemma_state_after_shift(state, (n - 1) as nat);
        assert(state_after(step_state(state), n) == step_state(
            state_after(step_state(state), (n - 1) as nat),
        ));
    } else {
        assert(state_after(state, 0) == state);
        assert(state_after(step_state(state), 0) == step_state(state));
    }
}

/// The draws of a stream, seen from the next state, are the same draws shifted by one.
pub proof fn lemma_draw_shift(state: u64, n: nat)
    ensures
        draw_at(state, n + 1) == draw_at(step_state(state), n),
        draw_at(state, 0) == mix64_spec(step_state(state)),
{
    lemma_state_after_shift(state, n + 1);
    assert(state_after(state, 1) == step_state(state_after(state, 0)));
}

/// Drawing `k` times and then `n` times is drawing `k + n` times.
pub proof fn lemma_state_after_add(state: u64, k: nat, n: nat)
    ensures
        state_after(state_after(state, k), n) == state_after(state, k + n),
        draw_at(state_after(state, k), n) == draw_at(state, k + n),
        step_state(state_after(state, k)) == state_after(state, k + 1),
    decreases n,
{
    if n > 0 {
        lemma_state_after_add(state, k, (n - 1) as nat);
    }
    lemma_state_after_add_one(state, k, n);
}

proof fn lemma_state_after_add_one(state: u64, k: nat, n: nat)
    requires
        state_after(state_after(state, k), n) == state_after(state, k + n),
    ensures
        state_after(state_after(state, k), n + 1) == state_after(state, k + n + 1),
        draw_at(state_after(state, k), n) == draw_at(state, k + n),
        step_state(state_after(state, k)) == state_after(state, k + 1),
{
    assert(state_after(state_after(state, k), n + 1) == step_state(
        state_after(state_after(state, k), n),
    ));
    assert(state_after(state, k + n + 1) == step_state(state_after(state, k + n)));
    assert(state_after(state, k + 1) == step_state(state_after(state, k)));
}

/// The splitmix64 finaliser: a bijective scrambling of 64 bits.
pub fn mix64(value: u64) -> (mixed: u64)
    ensures
        mixed == mix64_spec(value),
{
    proof {
        reveal(mix64_spec);
    }
    let a = (value ^ (value >> 30)).wrapping_mul(0xBF58_476D_1CE4_E5B9);
    let b = (a ^ (a >> 27)).wrapping_mul(0x94D0_49BB_1331_11EB);
    b ^ (b >> 31)
}

/// A deterministic splitmix64 random number generator.
#[derive(Clone, Debug)]
pub struct Rng64 {
    state: u64,
}

impl View for Rng64 {
    type V = u64;

    closed spec fn view(&self) -> u64 {
        self.state
    }
}

impl Rng64 {
    /// A generator whose state is the seed, or a fixed constant for a zero seed.
    pub fn new(seed: u64) -> (rng: Self)
        ensures
            rng@ == seeded_state(seed),
    {
        let state = if seed == 0 {
            ZERO_SEED_STATE
        } else {
            seed
        };
        Self { state }
    }

    /// A generator seeded from `seed` mixed with a salt, so that one seed gives
    /// independent streams for different salts.
    pub fn from_seed_and_salt(seed: u64, salt: u64) -> (rng: Self)
        ensures
            rng@ == seeded_state(mix64_spec(seed ^ wrap_mul(salt, SPLITMIX_INCREMENT))),
    {
        Self::new(mix64(seed ^ salt.wrapping_mul(SPLITMIX_INCREMENT)))
    }

    /// The next 64-bit draw.
    pub fn next_u64(&mut self) -> (value: u64)
        ensures
            final(self)@ == step_state(old(self)@),
            value == mix64_spec(final(self)@),
            value == draw_at(old(self)@, 0),
    {
        proof {
            lemma_draw_shift(self.state, 0);
        }
        self.state = self.state.wrapping_add(SPLITMIX_INCREMENT);
        mix64(self.state)
    }

    /// The top 24 bits of the next 64-bit draw: the unit draw `u` that stands for
    /// the fraction `u / 2^24` in `[0, 1)`.
    pub fn next_unit(&mut self) -> (value: u32)
        ensures
            final(self)@ == step_state(old(self)@),
            value == unit_of(draw_at(old(self)@, 0)),
            value < 0x100_0000,
    {
        let draw = self.next_u64();
        assert((draw >> 40u64) < 0x100_0000u64) by (bit_vector);
        (draw >> 40) as u32
    }

    /// Whether the next unit draw falls below `threshold`: a chance of
    /// `threshold / 2^24`.
    pub fn chance_below(&mut self, threshold: u32) -> (hit: bool)
        ensures
            final(self)@ == step_state(old(self)@),
            hit == (unit_of(draw_at(old(self)@, 0)) < threshold),
    {
        self.next_unit() < threshold
    }

    /// A number in `min..=max_inclusive`, from the high 32 bits of the next draw.
    pub fn range_u32(&mut self, min: u32, max_inclusive: u32) -> (value: u32)
        requires
            min <= max_inclusive,
            max_inclusive - min < u32::MAX,
        ensures
            final(self)@ == step_state(old(self)@),
            value == min + ((draw_at(old(self)@, 0) >> 32u64) as u32) % ((max_inclusive - min
                + 1) as u32),
            min <= value <= max_inclusive,
    {
        let span = max_inclusive - min + 1;
        min + (self.next_u32() % span)
    }

    /// A number in `min..=max_inclusive`, from the whole next draw.
    pub fn range_usize(&mut self, min: usize, max_inclusive: usize) -> (value: usize)
        requires
            min <= max_inclusive,
            max_inclusive - min < usize::MAX,
        ensures
            final(self)@ == step_state(old(self)@),
            value == min + (draw_at(old(self)@, 0) as usize) % ((max_inclusive - min
                + 1) as usize),
            min <= value <= max_inclusive,
    {
        let span = max_inclusive - min + 1;
        min + (self.next_u64() as usize % span)
    }

    /// An index below `len`.
    pub fn pick_index(&mut self, len: usize) -> (index: usize)
        requires
            len > 0,
        ensures
            final(self)@ == step_state(old(self)@),
            index == (draw_at(old(self)@, 0) as usize) % len,
            index < len,
    {
        self.range_usize(0, len - 1)
    }

    /// The high 32 bits of the next 64-bit draw.
    pub fn next_u32(&mut self) -> (value: u32)
        ensures
            final(self)@ == step_state(old(self)@),
            value == (draw_at(old(self)@, 0) >> 32u64) as u32,
    {
        (self.next_u64() >> 32) as u32
    }
}

/// Multiplication modulo 2^64 by `factor` is undone by multiplying with
/// `inverse` when the two multiply to one more than a multiple of 2^64.
proof fn lemma_wrap_mul_inverse(x: u64, factor: u64, inverse: u64, k: nat)
    requires
        factor as nat * inverse as nat == 1 + k * 0x1_0000_0000_0000_0000nat,
    ensures
        wrap_mul(wrap_mul(x, factor), inverse) == x,
{
    let m: int = 0x1_0000_0000_0000_0000;
    lemma_mul_mod_noop_left(x as int * factor as int, inverse as int, m);
    lemma_mul_is_associative(x as int, factor as int, inverse as int);
    assert(x as int * (factor as int * inverse as int) == x as int + (x as int * k as int) * m)
        by (nonlinear_arith)
        requires
            factor as int * inverse as int == 1 + k * m,
    ;
    lemma_mod_multiples_vanish(x as int * k as int, x as int, m);
}

proof fn lemma_xorshift_injective(a: u64, b: u64)
    ensures
        (a ^ (a >> 30u64)) == (b ^ (b >> 30u64)) ==> a == b,
        (a ^ (a >> 27u64)) == (b ^ (b >> 27u64)) ==> a == b,
        (a ^ (a >> 31u64)) == (b ^ (b >> 31u64)) ==> a == b,
{
    assert((a ^ (a >> 30u64)) == (b ^ (b >> 30u64)) ==> a == b) by (bit_vector);
    assert((a ^ (a >> 27u64)) == (b ^ (b >> 27u64)) ==> a == b) by (bit_vector);
    assert((a ^ (a >> 31u64)) == (b ^ (b >> 31u64)) ==> a == b) by (bit_vector);
}

/// The finaliser never maps two values to one: it is a bijection of 64 bits.
pub proof fn lemma_mix64_injective(a: u64, b: u64)
    requires
        mix64_spec(a) == mix64_spec(b),
    ensures
        a == b,
{
    reveal(mix64_spec);
    let a1 = wrap_mul(a ^ (a >> 30u64), 0xBF58_476D_1CE4_E5B9u64);
    let b1 = wrap_mul(b ^ (b >> 30u64), 0xBF58_476D_1CE4_E5B9u64);
    let a2 = wrap_mul(a1 ^ (a1 >> 27u64), 0x94D0_49BB_1331_11EBu64);
    let b2 = wrap_mul(b1 ^ (b1 >> 27u64), 0x94D0_49BB_1331_11EBu64);
    lemma_xorshift_injective(a2, b2);
    lemma_wrap_mul_inverse(a1 ^ (a1 >> 27u64), 0x94D0_49BB_1331_11EBu64, 0x3196_42B2_D24D_8EC3u64,
        2077064247507883091);
    lemma_wrap_mul_inverse(b1 ^ (b1 >> 27u64), 0x94D0_49BB_1331_11EBu64, 0x3196_42B2_D24D_8EC3u64,
        2077064247507883091);
    lemma_xorshift_injective(a1, b1);
    lemma_wrap_mul_inverse(a ^ (a >> 30u64), 0xBF58_476D_1CE4_E5B9u64, 0x96DE_1B17_3F11_9089u64,
        8125545580553827436);
    lemma_wrap_mul_inverse(b ^ (b >> 30u64), 0xBF58_476D_1CE4_E5B9u64, 0x96DE_1B17_3F11_9089u64,
        8125545580553827436);
    lemma_xorshift_injective(a, b);
}

/// Streams of one seed with different salts start from different mixed seeds, and
/// so from different states, but for the one case where a mixed seed is zero and the
/// other is the state that stands in for zero.
pub proof fn lemma_distinct_salts_distinct_streams(seed: u64, a: u64, b: u64)
    requires
        a != b,
    ensures
        mix64_spec(seed ^ wrap_mul(a, SPLITMIX_INCREMENT)) != mix64_spec(
            seed ^ wrap_mul(b, SPLITMIX_INCREMENT),
        ),
        seeded_state(mix64_spec(seed ^ wrap_mul(a, SPLITMIX_INCREMENT))) == seeded_state(
            mix64_spec(seed ^ wrap_mul(b, SPLITMIX_INCREMENT)),
        ) ==> seeded_state(mix64_spec(seed ^ wrap_mul(a, SPLITMIX_INCREMENT)))
            == ZERO_SEED_STATE,
{
    let x = wrap_mul(a, SPLITMIX_INCREMENT);
    let y = wrap_mul(b, SPLITMIX_INCREMENT);
    lemma_wrap_mul_inverse(a, SPLITMIX_INCREMENT, 0xF1DE_83E1_9937_733Du64, 10771413168148108919);
    lemma_wrap_mul_inverse(b, SPLITMIX_INCREMENT, 0xF1DE_83E1_9937_733Du64, 10771413168148108919);
    assert(x != y);
    assert(x != y ==> (seed ^ x) != (seed ^ y)) by (bit_vector);
    if mix64_spec(seed ^ x) == mix64_spec(seed ^ y) {
        lemma_mix64_injective(seed ^ x, seed ^ y);
    }
}

/// Generators in different states give different next draws.
pub proof fn lemma_distinct_states_distinct_draws(s1: u64, s2: u64)
    requires
        s1 != s2,
    ensures
        draw_at(s1, 0) != draw_at(s2, 0),
{
    lemma_draw_shift(s1, 0);
    lemma_draw_shift(s2, 0);
    if draw_at(s1, 0) == draw_at(s2, 0) {
        lemma_mix64_injective(step_state(s1), step_state(s2));
    }
}

/// Two seeds that select different states (every pair of distinct seeds but the
/// zero seed against its substitute state) diverge at the first draw.
pub proof fn lemma_distinct_seeds_diverge(seed_a: u64, seed_b: u64)
    requires
        seeded_state(seed_a) != seeded_state(seed_b),
    ensures
        draw_at(seeded_state(seed_a), 0) != draw_at(seeded_state(seed_b), 0),
{
    lemma_distinct_states_distinct_draws(seeded_state(seed_a), seeded_state(seed_b));
}

/// Two generators in the same state give the same draw and stay in step.
pub proof fn lemma_same_state_same_draws(s1: u64, s2: u64, n: nat)
    requires
        s1 == s2,
    ensures
        draw_at(s1, n) == draw_at(s2, n),
        state_after(s1, n) == state_after(s2, n),
{
}

} // verus!

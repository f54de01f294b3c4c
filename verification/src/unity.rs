//! Unity consensus engine: block rewards and difficulty retargeting.
//!
//! Rewards ramp up linearly between two block heights and stay flat outside
//! the ramp.  Difficulty is retargeted per seal type: before the Unity fork
//! a bounded additive step drives the proof-of-work difficulty toward the
//! configured block-time window; after the fork the difficulty of the next
//! block's seal type is damped multiplicatively by `1 + 1/a` or `a/(a+1)`
//! in 70-bit binary fixed point, `a` being the Unity bound divisor.

use vstd::prelude::*;
use vstd::arithmetic::div_mod::{
    lemma_div_by_multiple, lemma_div_denominator, lemma_div_is_ordered,
    lemma_fundamental_div_mod, lemma_hoist_over_denominator,
};
use vstd::arithmetic::mul::{lemma_mul_inequality, lemma_mul_upper_bound};
use crate::fixed_point::FIXED_ONE;

verus! {

/// Half of the fixed-point shift: 2^35, used to split 70-bit products.
const HALF_FIXED: u128 = 0x8_0000_0000;

/// The proof mechanism that sealed a block.
#[derive(Clone, Copy, Debug, PartialEq, Eq, Structural)]
pub enum SealType {
    PoW,
    PoS,
}

/// The seal type the block after `s` must carry once the fork is active:
/// proof-of-work and proof-of-stake blocks strictly alternate.
pub open spec fn spec_opposite_seal(s: SealType) -> SealType {
    match s {
        SealType::PoW => SealType::PoS,
        SealType::PoS => SealType::PoW,
    }
}

/// Consensus parameters consumed by the reward and difficulty calculators.
#[derive(Clone, Copy, Debug)]
pub struct UnityEngineParams {
    pub rampup_upper_bound: u128,
    pub rampup_lower_bound: u128,
    pub rampup_start_value: u128,
    pub rampup_end_value: u128,
    pub lower_block_reward: u128,
    pub upper_block_reward: u128,
    pub difficulty_bound_divisor: u128,
    pub difficulty_bound_divisor_unity: u64,
    pub minimum_difficulty: u128,
    pub block_time_lower_bound: u64,
    pub block_time_upper_bound: u64,
    pub block_time_unity: u64,
}

/// A block header reduced to the fields the engine reads.
#[derive(Clone, Copy, Debug, PartialEq, Eq, Structural)]
pub struct Header {
    pub number: u64,
    pub timestamp: u64,
    pub difficulty: u128,
    pub seal_type: SealType,
}

impl Default for Header {
    /// A genesis-like header: all numeric fields zero, sealed by work.
    fn default() -> (r: Header)
        ensures
            r.number == 0,
            r.timestamp == 0,
            r.difficulty == 0,
            r.seal_type == SealType::PoW,
    {
        Header { number: 0, timestamp: 0, difficulty: 0, seal_type: SealType::PoW }
    }
}

impl Header {
    pub fn set_number(&mut self, number: u64)
        ensures
            *final(self) == (Header { number, ..*old(self) }),
    {
        self.number = number;
    }

    pub fn set_timestamp(&mut self, timestamp: u64)
        ensures
            *final(self) == (Header { timestamp, ..*old(self) }),
    {
        self.timestamp = timestamp;
    }

    pub fn set_difficulty(&mut self, difficulty: u128)
        ensures
            *final(self) == (Header { difficulty, ..*old(self) }),
    {
        self.difficulty = difficulty;
    }

    pub fn set_seal_type(&mut self, seal_type: SealType)
        ensures
            *final(self) == (Header { seal_type, ..*old(self) }),
    {
        self.seal_type = seal_type;
    }
}

/// Difference of two timestamps, floored at zero.
pub open spec fn spec_sat_sub(a: u64, b: u64) -> u64 {
    if a >= b {
        (a - b) as u64
    } else {
        0u64
    }
}

// ------------------------------------------------------------------
// Rewards
// ------------------------------------------------------------------

/// Per-block increment of the reward ramp: the total rise of the ramp
/// divided (flooring) by its width.  Zero outside a well-formed ramp.
pub open spec fn spec_ramp_slope(p: UnityEngineParams) -> int {
    if p.rampup_end_value < p.rampup_start_value || p.rampup_upper_bound <= p.rampup_lower_bound {
        0
    } else {
        (p.rampup_end_value - p.rampup_start_value) / (p.rampup_upper_bound
            - p.rampup_lower_bound)
    }
}

/// The reward of block `n` under the ramp rule alone: the lower reward up to
/// the lower bound, the upper reward above the upper bound, and in between
/// the lower reward plus the slope times the offset into the ramp.  A sum
/// beyond the 128-bit range falls back to the upper reward.
pub open spec fn spec_ramp_reward(p: UnityEngineParams, n: u64) -> int {
    if n <= p.rampup_lower_bound {
        p.lower_block_reward as int
    } else if n > p.rampup_upper_bound {
        p.upper_block_reward as int
    } else {
        let v = p.lower_block_reward + spec_ramp_slope(p) * (n - p.rampup_lower_bound);
        if v > u128::MAX {
            p.upper_block_reward as int
        } else {
            v
        }
    }
}

/// The full reward rule: once the Unity fork height is reached the reward is
/// the flat post-fork value, otherwise the ramp applies.
pub open spec fn spec_reward(
    p: UnityEngineParams,
    unity_update: Option<u64>,
    unity_block_reward: u128,
    n: u64,
) -> int {
    match unity_update {
        Some(u) => if n >= u {
            unity_block_reward as int
        } else {
            spec_ramp_reward(p, n)
        },
        None => spec_ramp_reward(p, n),
    }
}

/// Computes block rewards from the ramp parameters and the fork height.
pub struct RewardsCalculator {
    pub params: UnityEngineParams,
    pub unity_update: Option<u64>,
    pub unity_block_reward: u128,
}

impl RewardsCalculator {
    pub fn new(params: &UnityEngineParams, unity_update: Option<u64>, unity_block_reward: u128)
        -> (r: RewardsCalculator)
        ensures
            r.params == *params,
            r.unity_update == unity_update,
            r.unity_block_reward == unity_block_reward,
    {
        RewardsCalculator { params: *params, unity_update, unity_block_reward }
    }

    /// The reward owed to the miner or staker of `header`.
    pub fn calculate_reward(&self, header: &Header) -> (r: u128)
        ensures
            r == spec_reward(self.params, self.unity_update, self.unity_block_reward,
                header.number),
    {
        let n: u64 = header.number;
        if let Some(u) = self.unity_update {
            if n >= u {
                return self.unity_block_reward;
            }
        }
        let nn: u128 = n as u128;
        if nn <= self.params.rampup_lower_bound {
            return self.params.lower_block_reward;
        }
        if nn > self.params.rampup_upper_bound {
            return self.params.upper_block_reward;
        }
        let span: u128 = self.params.rampup_upper_bound - self.params.rampup_lower_bound;
        let delta: u128 = if self.params.rampup_end_value >= self.params.rampup_start_value {
            self.params.rampup_end_value - self.params.rampup_start_value
        } else {
            0
        };
        let slope: u128 = delta / span;
        let off: u128 = nn - self.params.rampup_lower_bound;
        proof {
            lemma_fundamental_div_mod(delta as int, span as int);
            lemma_mul_inequality(off as int, span as int, slope as int);
            vstd::arithmetic::mul::lemma_mul_is_commutative(span as int, slope as int);
            vstd::arithmetic::mul::lemma_mul_is_commutative(off as int, slope as int);
            assert(slope * off <= delta);
        }
        let rise: u128 = slope * off;
        if self.params.lower_block_reward <= u128::MAX - rise {
            self.params.lower_block_reward + rise
        } else {
            self.params.upper_block_reward
        }
    }
}

// ------------------------------------------------------------------
// Difficulty
// ------------------------------------------------------------------

/// A divisor with zero mapped to one, so division is always defined.
pub open spec fn spec_norm_divisor_u128(a: u128) -> u128 {
    if a == 0 {
        1u128
    } else {
        a
    }
}

/// `max(1, d / divisor)`: the additive bound of the pre-fork retarget.
pub open spec fn spec_pow_bound(d: u128, divisor: u128) -> int {
    let b = d as int / spec_norm_divisor_u128(divisor) as int;
    if b == 0 {
        1
    } else {
        b
    }
}

/// Pre-fork proof-of-work retarget: one bounded step toward the configured
/// block-time window, saturating at the ends of the 128-bit range.
pub open spec fn spec_pow_retarget(d: u128, dt: u64, divisor: u128, lower: u64, upper: u64)
    -> int {
    let bound = spec_pow_bound(d, divisor);
    if dt < lower {
        if d + bound > u128::MAX {
            u128::MAX as int
        } else {
            d + bound
        }
    } else if dt > upper {
        if d >= bound {
            d - bound
        } else {
            0
        }
    } else {
        d as int
    }
}

/// The damping rate `1/a` in 70-bit fixed point, flooring.
pub open spec fn spec_up_rate(a: u128) -> int {
    FIXED_ONE as int / a as int
}

/// The damping rate `a/(a+1)` in 70-bit fixed point: one minus the ceiling
/// of `1/(a+1)`, so that repeated application always loses ground.
pub open spec fn spec_down_rate(a: u128) -> int {
    FIXED_ONE - (FIXED_ONE + a) / (a + 1)
}

/// Post-fork difficulty increase: add `d/a` computed in fixed point, and at
/// least one, saturating at the top of the 128-bit range.
pub open spec fn spec_unity_up(d: u128, a: u128) -> int {
    let step0 = d * spec_up_rate(a) / FIXED_ONE as int;
    let step = if step0 == 0 {
        1
    } else {
        step0
    };
    if d + step > u128::MAX {
        u128::MAX as int
    } else {
        d + step
    }
}

/// Post-fork difficulty decrease: multiply by `a/(a+1)` in fixed point,
/// flooring, and drop by at least one whenever that multiply makes no
/// progress, saturating at zero.
pub open spec fn spec_unity_down(d: u128, a: u128) -> int {
    let down = d * spec_down_rate(a) / FIXED_ONE as int;
    if down == d {
        if d > 0 {
            d - 1
        } else {
            0
        }
    } else {
        down
    }
}

/// Clamp a difficulty to the configured minimum.
pub open spec fn spec_clamp(v: int, minimum: u128) -> int {
    if v < minimum {
        minimum as int
    } else {
        v
    }
}

/// Whether the parent block is still governed by the pre-fork rules.
pub open spec fn spec_pre_unity(unity_update: Option<u64>, parent_number: u64) -> bool {
    match unity_update {
        None => true,
        Some(u) => parent_number < u,
    }
}

/// Pre-fork difficulty: the bounded retarget over parent and grandparent,
/// clamped to the minimum; without a grandparent the parent difficulty is
/// kept, clamped likewise.
pub open spec fn spec_legacy_difficulty(
    p: UnityEngineParams,
    parent: Header,
    gp: Option<Header>,
) -> int {
    match gp {
        None => spec_clamp(parent.difficulty as int, p.minimum_difficulty),
        Some(g) => spec_clamp(
            spec_pow_retarget(
                parent.difficulty,
                spec_sat_sub(parent.timestamp, g.timestamp),
                p.difficulty_bound_divisor,
                p.block_time_lower_bound,
                p.block_time_upper_bound,
            ),
            p.minimum_difficulty,
        ),
    }
}

/// Post-fork difficulty of the block that follows `parent`.  The next block
/// carries the seal type opposite to the parent's.  When the grandparent
/// carries that seal type, its difficulty is damped by the time its own
/// block took; otherwise no history of that seal type is in the window and
/// a starting value is used: the configured initial Unity difficulty for
/// proof-of-stake, the parent difficulty for proof-of-work.
pub open spec fn spec_unity_difficulty(
    p: UnityEngineParams,
    initial: Option<u128>,
    parent: Header,
    gp: Option<Header>,
    ggp: Option<Header>,
) -> int {
    let child = spec_opposite_seal(parent.seal_type);
    let a = spec_norm_divisor_u128(p.difficulty_bound_divisor_unity as u128);
    if gp is Some && ggp is Some && gp->0.seal_type == child {
        let g = gp->0;
        let dt = spec_sat_sub(g.timestamp, ggp->0.timestamp);
        if child == SealType::PoS {
            if dt < p.block_time_unity {
                spec_clamp(spec_unity_up(g.difficulty, a), p.minimum_difficulty)
            } else {
                spec_clamp(spec_unity_down(g.difficulty, a), p.minimum_difficulty)
            }
        } else {
            spec_clamp(
                spec_pow_retarget(
                    g.difficulty,
                    dt,
                    p.difficulty_bound_divisor,
                    p.block_time_lower_bound,
                    p.block_time_upper_bound,
                ),
                p.minimum_difficulty,
            )
        }
    } else {
        if child == SealType::PoS {
            let base = match initial {
                Some(i) => i,
                None => p.minimum_difficulty,
            };
            spec_clamp(base as int, p.minimum_difficulty)
        } else {
            spec_clamp(parent.difficulty as int, p.minimum_difficulty)
        }
    }
}

/// The full difficulty rule for the block following `parent`.
pub open spec fn spec_difficulty(
    p: UnityEngineParams,
    unity_update: Option<u64>,
    initial: Option<u128>,
    parent: Header,
    gp: Option<Header>,
    ggp: Option<Header>,
) -> int {
    if spec_pre_unity(unity_update, parent.number) {
        spec_legacy_difficulty(p, parent, gp)
    } else {
        spec_unity_difficulty(p, initial, parent, gp, ggp)
    }
}

/// `Some(&h)` as a value, for contracts over optional header arguments.
pub open spec fn spec_opt_header(h: Option<&Header>) -> Option<Header> {
    match h {
        Some(r) => Some(*r),
        None => None,
    }
}

/// Floor of `d * f / 2^70`, exact over the whole 128-bit range of `d`.
fn mul_shr_fixed(d: u128, f: u128) -> (r: u128)
    requires
        f <= FIXED_ONE,
    ensures
        r == d * f / FIXED_ONE as int,
        r <= d,
{
    let q: u128 = d / FIXED_ONE;
    let r0: u128 = d % FIXED_ONE;
    let r1: u128 = r0 / HALF_FIXED;
    let r00: u128 = r0 % HALF_FIXED;
    proof {
        lemma_fundamental_div_mod(d as int, FIXED_ONE as int);
        lemma_fundamental_div_mod(r0 as int, HALF_FIXED as int);
        assert(r1 < HALF_FIXED) by {
            vstd::arithmetic::div_mod::lemma_multiply_divide_lt(r0 as int, HALF_FIXED as int,
                HALF_FIXED as int);
        }
        lemma_mul_upper_bound(r1 as int, HALF_FIXED - 1, f as int, FIXED_ONE as int);
        lemma_mul_upper_bound(r00 as int, HALF_FIXED - 1, f as int, FIXED_ONE as int);
    }
    let t: u128 = r1 * f;
    let u0: u128 = r00 * f;
    proof {
        vstd::arithmetic::div_mod::lemma_div_nonincreasing(u0 as int, HALF_FIXED as int);
    }
    let inner: u128 = t + u0 / HALF_FIXED;
    let frac: u128 = inner / HALF_FIXED;
    proof {
        // inner == floor(r0 * f / 2^35), so frac == floor(r0 * f / 2^70)
        assert(r0 * f == r00 * f + (r1 * f) * HALF_FIXED) by (nonlinear_arith)
            requires
                r0 == r1 * HALF_FIXED + r00,
        ;
        lemma_hoist_over_denominator(r00 as int * f as int, r1 as int * f as int,
            HALF_FIXED as nat);
        assert(inner == r0 * f / HALF_FIXED as int);
        lemma_div_denominator(r0 as int * f as int, HALF_FIXED as int, HALF_FIXED as int);
        assert(frac == r0 * f / FIXED_ONE as int);
        // hi == q * f stays within range because q * f <= q * 2^70 <= d
        lemma_mul_inequality(f as int, FIXED_ONE as int, q as int);
        vstd::arithmetic::mul::lemma_mul_is_commutative(f as int, q as int);
        vstd::arithmetic::mul::lemma_mul_is_commutative(FIXED_ONE as int, q as int);
        assert(q * f <= d);
    }
    let hi: u128 = q * f;
    proof {
        assert(d * f == r0 * f + (q * f) * FIXED_ONE) by (nonlinear_arith)
            requires
                d == q * FIXED_ONE + r0,
        ;
        lemma_hoist_over_denominator(r0 as int * f as int, q as int * f as int,
            FIXED_ONE as nat);
        assert(hi + frac == d * f / FIXED_ONE as int);
        // the result never exceeds d itself
        lemma_mul_inequality(f as int, FIXED_ONE as int, d as int);
        vstd::arithmetic::mul::lemma_mul_is_commutative(f as int, d as int);
        vstd::arithmetic::mul::lemma_mul_is_commutative(FIXED_ONE as int, d as int);
        lemma_div_is_ordered(d as int * f as int, d as int * FIXED_ONE as int,
            FIXED_ONE as int);
        lemma_div_by_multiple(d as int, FIXED_ONE as int);
        assert(hi + frac <= d);
    }
    let res: u128 = hi + frac;
    res
}

/// One post-fork increase step, as `spec_unity_up`.
fn unity_increase(d: u128, a: u128) -> (r: u128)
    requires
        1 <= a,
    ensures
        r == spec_unity_up(d, a),
{
    let f: u128 = FIXED_ONE / a;
    proof {
        vstd::arithmetic::div_mod::lemma_div_nonincreasing(FIXED_ONE as int, a as int);
    }
    let step0: u128 = mul_shr_fixed(d, f);
    let step: u128 = if step0 == 0 {
        1
    } else {
        step0
    };
    if d <= u128::MAX - step {
        d + step
    } else {
        u128::MAX
    }
}

/// One post-fork decrease step, as `spec_unity_down`.
fn unity_decrease(d: u128, a: u128) -> (r: u128)
    requires
        1 <= a <= u64::MAX,
    ensures
        r == spec_unity_down(d, a),
{
    let ceil_part: u128 = (FIXED_ONE + a) / (a + 1);
    proof {
        assert((a + 1) * (FIXED_ONE as int) > FIXED_ONE + a) by (nonlinear_arith)
            requires
                1 <= a,
        ;
        vstd::arithmetic::div_mod::lemma_multiply_divide_lt((FIXED_ONE + a) as int,
            (a + 1) as int, FIXED_ONE as int);
    }
    let m: u128 = FIXED_ONE - ceil_part;
    let down: u128 = mul_shr_fixed(d, m);
    if down == d {
        if d > 0 {
            d - 1
        } else {
            0
        }
    } else {
        down
    }
}

/// One pre-fork bounded retarget step, as `spec_pow_retarget`.
fn pow_retarget(d: u128, dt: u64, divisor: u128, lower: u64, upper: u64) -> (r: u128)
    ensures
        r == spec_pow_retarget(d, dt, divisor, lower, upper),
{
    let bd: u128 = if divisor == 0 {
        1
    } else {
        divisor
    };
    let b0: u128 = d / bd;
    let bound: u128 = if b0 == 0 {
        1
    } else {
        b0
    };
    proof {
        lemma_div_is_ordered(d as int, u128::MAX as int, bd as int);
        vstd::arithmetic::div_mod::lemma_div_nonincreasing(d as int, bd as int);
    }
    if dt < lower {
        if d <= u128::MAX - bound {
            d + bound
        } else {
            u128::MAX
        }
    } else if dt > upper {
        if d >= bound {
            d - bound
        } else {
            0
        }
    } else {
        d
    }
}

/// Computes the difficulty of the next block from up to three ancestors.
pub struct DifficultyCalc {
    pub params: UnityEngineParams,
    pub unity_update: Option<u64>,
    pub initial_unity_difficulty: Option<u128>,
}

impl DifficultyCalc {
    pub fn new(
        params: &UnityEngineParams,
        unity_update: Option<u64>,
        initial_unity_difficulty: Option<u128>,
    ) -> (r: DifficultyCalc)
        ensures
            r.params == *params,
            r.unity_update == unity_update,
            r.initial_unity_difficulty == initial_unity_difficulty,
    {
        DifficultyCalc { params: *params, unity_update, initial_unity_difficulty }
    }

    /// The difficulty required of the block following `parent`, given the
    /// two further ancestors when available.  The result never drops below
    /// the configured minimum difficulty.
    pub fn calculate_difficulty(
        &self,
        parent: &Header,
        grand_parent: Option<&Header>,
        great_grand_parent: Option<&Header>,
    ) -> (r: u128)
        ensures
            r == spec_difficulty(self.params, self.unity_update, self.initial_unity_difficulty,
                *parent, spec_opt_header(grand_parent), spec_opt_header(great_grand_parent)),
            r >= self.params.minimum_difficulty,
    {
        let pre_unity: bool = match self.unity_update {
            None => true,
            Some(u) => parent.number < u,
        };
        if pre_unity {
            let v: u128 = match grand_parent {
                None => parent.difficulty,
                Some(g) => {
                    let dt: u64 = if parent.timestamp >= g.timestamp {
                        parent.timestamp - g.timestamp
                    } else {
                        0
                    };
                    pow_retarget(
                        parent.difficulty,
                        dt,
                        self.params.difficulty_bound_divisor,
                        self.params.block_time_lower_bound,
                        self.params.block_time_upper_bound,
                    )
                },
            };
            return self.clamp(v);
        }
        let child_is_pos: bool = match parent.seal_type {
            SealType::PoW => true,
            SealType::PoS => false,
        };
        match (grand_parent, great_grand_parent) {
            (Some(g), Some(gg)) => {
                let g_matches: bool = match (g.seal_type, child_is_pos) {
                    (SealType::PoS, true) => true,
                    (SealType::PoW, false) => true,
                    _ => false,
                };
                if g_matches {
                    let dt: u64 = if g.timestamp >= gg.timestamp {
                        g.timestamp - gg.timestamp
                    } else {
                        0
                    };
                    if child_is_pos {
                        let a: u128 = if self.params.difficulty_bound_divisor_unity == 0 {
                            1
                        } else {
                            self.params.difficulty_bound_divisor_unity as u128
                        };
                        if dt < self.params.block_time_unity {
                            self.clamp(unity_increase(g.difficulty, a))
                        } else {
                            self.clamp(unity_decrease(g.difficulty, a))
                        }
                    } else {
                        self.clamp(pow_retarget(
                            g.difficulty,
                            dt,
                            self.params.difficulty_bound_divisor,
                            self.params.block_time_lower_bound,
                            self.params.block_time_upper_bound,
                        ))
                    }
                } else {
                    self.fallback(child_is_pos, parent)
                }
            },
            _ => self.fallback(child_is_pos, parent),
        }
    }

    /// Starting difficulty when the three-generation window holds no block
    /// of the next block's seal type.
    fn fallback(&self, child_is_pos: bool, parent: &Header) -> (r: u128)
        ensures
            child_is_pos ==> r == spec_clamp(
                match self.initial_unity_difficulty {
                    Some(i) => i as int,
                    None => self.params.minimum_difficulty as int,
                },
                self.params.minimum_difficulty,
            ),
            !child_is_pos ==> r == spec_clamp(parent.difficulty as int,
                self.params.minimum_difficulty),
            r >= self.params.minimum_difficulty,
    {
        if child_is_pos {
            let base: u128 = match self.initial_unity_difficulty {
                Some(i) => i,
                None => self.params.minimum_difficulty,
            };
            self.clamp(base)
        } else {
            self.clamp(parent.difficulty)
        }
    }

    fn clamp(&self, v: u128) -> (r: u128)
        ensures
            r == spec_clamp(v as int, self.params.minimum_difficulty),
            r >= self.params.minimum_difficulty,
    {
        if v < self.params.minimum_difficulty {
            self.params.minimum_difficulty
        } else {
            v
        }
    }
}


/// On the ramp, the reward stays below the top of the ramp: the slope times
/// any offset within the span is at most the whole rise.
proof fn lemma_ramp_rise_bounded(p: UnityEngineParams, n: u64)
    requires
        p.rampup_lower_bound < n <= p.rampup_upper_bound,
        p.rampup_start_value <= p.rampup_end_value,
    ensures
        spec_ramp_slope(p) * (n - p.rampup_lower_bound) <= p.rampup_end_value
            - p.rampup_start_value,
        spec_ramp_slope(p) * (n - p.rampup_lower_bound) >= 0,
{
    let span = p.rampup_upper_bound - p.rampup_lower_bound;
    let delta = p.rampup_end_value - p.rampup_start_value;
    let m = spec_ramp_slope(p);
    let off = n - p.rampup_lower_bound;
    lemma_fundamental_div_mod(delta, span);
    vstd::arithmetic::div_mod::lemma_div_pos_is_pos(delta, span);
    lemma_mul_inequality(off, span, m);
    vstd::arithmetic::mul::lemma_mul_is_commutative(span, m);
    vstd::arithmetic::mul::lemma_mul_is_commutative(off, m);
    vstd::arithmetic::mul::lemma_mul_nonnegative(m, off);
}

/// Reward monotonicity: under coherent ramp parameters the reward never
/// falls as the block number grows, and it is flat at the lower reward up
/// to the lower bound and flat at the upper reward above the upper bound.
/// Coherence asks that the ramp rises, that its bounds are ordered, and
/// that the lower reward plus the whole rise stays within the upper reward.
pub proof fn lemma_reward_monotonic(p: UnityEngineParams, n1: u64, n2: u64)
    requires
        n1 < n2,
        p.rampup_lower_bound <= p.rampup_upper_bound,
        p.rampup_start_value <= p.rampup_end_value,
        p.lower_block_reward + (p.rampup_end_value - p.rampup_start_value)
            <= p.upper_block_reward,
    ensures
        spec_ramp_reward(p, n1) <= spec_ramp_reward(p, n2),
{
    if n1 <= p.rampup_lower_bound {
        if n2 <= p.rampup_lower_bound {
        } else if n2 > p.rampup_upper_bound {
        } else {
            lemma_ramp_rise_bounded(p, n2);
        }
    } else if n1 > p.rampup_upper_bound {
    } else {
        lemma_ramp_rise_bounded(p, n1);
        if n2 > p.rampup_upper_bound {
        } else {
            lemma_ramp_rise_bounded(p, n2);
            let m = spec_ramp_slope(p);
            lemma_mul_inequality(n1 - p.rampup_lower_bound, n2 - p.rampup_lower_bound, m);
            vstd::arithmetic::mul::lemma_mul_is_commutative(n1 - p.rampup_lower_bound, m);
            vstd::arithmetic::mul::lemma_mul_is_commutative(n2 - p.rampup_lower_bound, m);
        }
    }
}

/// The reward is constant on each side of the ramp: the lower reward up to
/// and at the lower bound, the upper reward strictly above the upper bound.
pub proof fn lemma_reward_flat_outside_ramp(p: UnityEngineParams, n: u64)
    requires
        p.rampup_lower_bound <= p.rampup_upper_bound,
    ensures
        n <= p.rampup_lower_bound ==> spec_ramp_reward(p, n) == p.lower_block_reward,
        n > p.rampup_upper_bound ==> spec_ramp_reward(p, n) == p.upper_block_reward,
{
}

/// Difficulty step bound before the fork: one retarget moves the parent
/// difficulty by at most `max(1, d / divisor)` in either direction, the
/// clamp to the minimum included, as long as the parent difficulty itself
/// respects the minimum.
pub proof fn lemma_pow_step_bound(p: UnityEngineParams, parent: Header, gp: Header)
    requires
        p.minimum_difficulty <= parent.difficulty,
    ensures
        spec_legacy_difficulty(p, parent, Some(gp)) <= parent.difficulty + spec_pow_bound(
            parent.difficulty,
            p.difficulty_bound_divisor,
        ),
        parent.difficulty <= spec_legacy_difficulty(p, parent, Some(gp)) + spec_pow_bound(
            parent.difficulty,
            p.difficulty_bound_divisor,
        ),
{
    let d = parent.difficulty;
    let bd = spec_norm_divisor_u128(p.difficulty_bound_divisor);
    vstd::arithmetic::div_mod::lemma_div_pos_is_pos(d as int, bd as int);
    vstd::arithmetic::div_mod::lemma_div_nonincreasing(d as int, bd as int);
}

/// Difficulty clamp: whatever the inputs, the computed difficulty never
/// drops below the configured minimum.
pub proof fn lemma_difficulty_clamped(
    p: UnityEngineParams,
    unity_update: Option<u64>,
    initial: Option<u128>,
    parent: Header,
    gp: Option<Header>,
    ggp: Option<Header>,
)
    ensures
        spec_difficulty(p, unity_update, initial, parent, gp, ggp) >= p.minimum_difficulty,
{
}

} // verus!

//! What holds of the decay of the dynamic fee.

use crate::arithmetic::{rounded, Rounding, DIV};
use crate::redemptions::fees::decayed_fee;
use crate::redemptions::types::{Millis, RedemptionConfig, RedemptionState};
use vstd::arithmetic::div_mod::{
    lemma_div_denominator, lemma_div_is_ordered, lemma_div_is_ordered_by_denominator,
    lemma_fundamental_div_mod,
};
use vstd::arithmetic::power::{
    lemma_pow_distributes, lemma_pow_multiplies, lemma_pow_positive, pow,
};
use vstd::arithmetic::power2::{
    lemma_pow2, lemma_pow2_adds, lemma_pow2_pos, lemma_pow2_strictly_increases, pow2,
};
use vstd::prelude::*;

verus! {

/// The factor by which a rest of `rest` within a period of `period` decays a fee.
spec fn secant(rest: int, period: int) -> int {
    DIV - rounded(DIV * rest, period, Rounding::NearestPrefDown) / 2
}

/// Rounding to the nearest keeps the order of numerators.
proof fn lemma_nearest_is_ordered(a: int, b: int, denominator: int)
    requires
        0 <= a <= b,
        0 < denominator,
    ensures
        0 <= rounded(a, denominator, Rounding::NearestPrefDown) <= rounded(
            b,
            denominator,
            Rounding::NearestPrefDown,
        ),
{
    lemma_fundamental_div_mod(a, denominator);
    lemma_fundamental_div_mod(b, denominator);
    lemma_div_is_ordered(a, b, denominator);
    lemma_div_is_ordered(0, a, denominator);
    let qa = a / denominator;
    let qb = b / denominator;
    if qa == qb {
        assert(denominator * qa == denominator * qb);
    }
}

/// The secant falls from one towards one half as the rest grows.
proof fn lemma_secant(less: int, more: int, period: int)
    requires
        0 <= less <= more <= period,
        0 < period,
    ensures
        DIV / 2 <= secant(more, period) <= secant(less, period) <= DIV,
{
    assert(DIV * less <= DIV * more <= DIV * period) by (nonlinear_arith)
        requires
            0 <= less <= more <= period,
            DIV > 0,
    ;
    lemma_nearest_is_ordered(DIV * less, DIV * more, period);
    lemma_nearest_is_ordered(DIV * more, DIV * period, period);
    lemma_nearest_is_ordered(0, DIV * less, period);
    assert(DIV * period / period == DIV && (DIV * period) % period == 0) by (nonlinear_arith)
        requires
            0 < period,
    ;
}

/// Scaling by a fixed-point factor keeps the order of both operands.
proof fn lemma_scaling_is_ordered(a: int, b: int, f: int, g: int)
    requires
        0 <= a <= b,
        0 <= f <= g,
    ensures
        0 <= a * f / DIV as int <= b * g / DIV as int,
{
    assert(0 <= a * f <= b * g) by (nonlinear_arith)
        requires
            0 <= a <= b,
            0 <= f <= g,
    ;
}

/// More halvings leave no more.
proof fn lemma_halvings_are_ordered(fee: int, few: nat, many: nat)
    requires
        0 <= fee,
        few <= many,
    ensures
        0 <= fee / pow2(many) as int <= fee / pow2(few) as int <= fee,
        few < many ==> fee / pow2(many) as int <= fee / pow2(few) as int / 2,
{
    lemma_pow2_pos(few);
    lemma_pow2_pos(many);
    lemma_div_is_ordered_by_denominator(fee, 1, pow2(few) as int);
    lemma_div_is_ordered(0, fee, pow2(many) as int);
    if few < many {
        lemma_pow2_strictly_increases(few, many);
        lemma_div_is_ordered_by_denominator(fee, pow2(few) as int, pow2(many) as int);
        assert(pow2(1) == 2) by {
            vstd::arithmetic::power2::lemma2_to64();
        }
        lemma_pow2_adds(few, 1);
        lemma_div_denominator(fee, pow2(few) as int, 2);
        assert(pow2(few) * 2 == pow2(few + 1));
        if few + 1 < many {
            lemma_pow2_strictly_increases(few + 1, many);
        }
        lemma_pow2_pos(few + 1);
        lemma_div_is_ordered_by_denominator(fee, pow2(few + 1) as int, pow2(many) as int);
    }
}

/// A decayed fee lies between zero and the fee it decays from.
pub proof fn law_decay_stays_within_the_fee(fee: int, elapsed: int, period: int)
    requires
        0 <= fee,
        0 <= elapsed,
        0 <= period,
    ensures
        0 <= decayed_fee(fee, elapsed, period) <= fee,
{
    if fee != 0 && elapsed != 0 && period != 0 && elapsed / period < 128 {
        assert(0 <= elapsed / period) by {
            lemma_div_is_ordered(0, elapsed, period);
        }
        let whole = (elapsed / period) as nat;
        let halved = fee / pow2(whole) as int;
        lemma_halvings_are_ordered(fee, whole, whole);
        let rest = elapsed % period;
        if rest != 0 {
            lemma_secant(0, rest, period);
            lemma_secant(rest, rest, period);
            lemma_scaling_is_ordered(halved, halved, secant(rest, period), DIV as int);
            assert(halved * DIV / DIV as int == halved) by (nonlinear_arith)
                requires
                    DIV > 0,
            ;
        }
    }
}

/// More elapsed time cannot produce a higher dynamic fee.
pub proof fn law_decay_never_rises(fee: int, sooner: int, later: int, period: int)
    requires
        0 <= fee,
        0 <= sooner <= later,
        0 <= period,
    ensures
        decayed_fee(fee, later, period) <= decayed_fee(fee, sooner, period),
{
    law_decay_stays_within_the_fee(fee, later, period);
    law_decay_stays_within_the_fee(fee, sooner, period);
    if fee != 0 && sooner != 0 && period != 0 && later / period < 128 {
        lemma_div_is_ordered(0, sooner, period);
        lemma_div_is_ordered(sooner, later, period);
        lemma_fundamental_div_mod(sooner, period);
        lemma_fundamental_div_mod(later, period);
        let few = (sooner / period) as nat;
        let many = (later / period) as nat;
        let left_few = fee / pow2(few) as int;
        let left_many = fee / pow2(many) as int;
        let rest_few = sooner % period;
        let rest_many = later % period;
        lemma_halvings_are_ordered(fee, few, many);
        lemma_secant(0, rest_few, period);
        lemma_secant(0, rest_many, period);
        assert(secant(0, period) == DIV) by {
            assert(0int / period == 0 && 0int % period == 0) by (nonlinear_arith)
                requires
                    period > 0,
            ;
        }
        assert(left_few * DIV / DIV as int == left_few);
        assert(left_many * DIV / DIV as int == left_many);
        if few == many {
            assert(period * few == period * many);
            lemma_secant(rest_few, rest_many, period);
            lemma_scaling_is_ordered(
                left_few,
                left_few,
                secant(rest_many, period),
                secant(rest_few, period),
            );
        } else {
            // A whole period later, at most half is left of what a secant leaves at least half of.
            lemma_scaling_is_ordered(
                left_few,
                left_few,
                (DIV / 2) as int,
                secant(rest_few, period),
            );
            lemma_scaling_is_ordered(
                left_many,
                left_many,
                secant(rest_many, period),
                DIV as int,
            );
            assert(left_few * (DIV / 2) / DIV as int == left_few / 2);
        }
    }
}

/// Each whole half-life halves the dynamic fee.
pub proof fn law_whole_half_lives_halve(fee: int, halvings: nat, period: int)
    requires
        0 <= fee,
        0 < period,
        halvings < 128,
    ensures
        decayed_fee(fee, halvings * period, period) == fee / pow2(halvings) as int,
{
    assert(halvings * period / period == halvings && (halvings * period) % period == 0)
        by (nonlinear_arith)
        requires
            0 < period,
    ;
    if halvings == 0 {
        assert(pow2(0) == 1) by {
            vstd::arithmetic::power2::lemma2_to64();
        }
        assert(fee / 1 == fee);
    }
    if fee == 0 {
        lemma_pow2_pos(halvings);
        assert(0int / pow2(halvings) as int == 0) by (nonlinear_arith)
            requires
                pow2(halvings) > 0,
        ;
    }
    if halvings > 0 {
        assert(halvings * period > 0) by (nonlinear_arith)
            requires
                halvings > 0,
                period > 0,
        ;
    }
}

/// The secant is `1 - rest / (2 * period)` up to the rounding of the share and of its half.
proof fn lemma_secant_is_near(rest: int, period: int)
    requires
        0 <= rest <= period,
        0 < period,
    ensures
        4 * period * DIV - 2 * DIV * rest - period <= 4 * period * secant(rest, period),
        4 * period * secant(rest, period) <= 4 * period * DIV - 2 * DIV * rest + 3 * period,
{
    let share = rounded(DIV * rest, period, Rounding::NearestPrefDown);
    let half = share / 2;
    lemma_fundamental_div_mod(DIV * rest, period);
    let down = DIV * rest / period;
    let part = DIV * rest % period;
    assert(2 * (period * share) <= 2 * (DIV * rest) + period && 2 * (period * share) >= 2 * (DIV
        * rest) - period) by {
        assert(0 <= part < period) by (nonlinear_arith)
            requires
                0 < period,
                part == DIV * rest % period,
        ;
        assert(period * (down + 1) == period * down + period) by (nonlinear_arith);
    }
    assert(period * (2 * half) <= period * share && period * share <= period * (2 * half + 1))
        by (nonlinear_arith)
        requires
            2 * half <= share <= 2 * half + 1,
            0 < period,
    ;
    assert(period * (2 * half) == 2 * (period * half)) by (nonlinear_arith);
    assert(period * (2 * half + 1) == 2 * (period * half) + period) by (nonlinear_arith);
    assert(4 * period * (DIV - half) == 4 * period * DIV - 4 * (period * half))
        by (nonlinear_arith);
    assert(2 * DIV * rest == 2 * (DIV * rest)) by (nonlinear_arith);
}

/// What is left within a half-life that starts at `halved`, both ends included.
spec fn left_within(halved: int, rest: int, period: int) -> int {
    halved * secant(rest, period) / DIV as int
}

/// A half-life starts with what the one before it left, and ends with the half of that.
proof fn lemma_ends_of_a_half_life(halved: int, period: int)
    requires
        0 <= halved,
        0 < period,
    ensures
        left_within(halved, 0, period) == halved,
        left_within(halved, period, period) == halved / 2,
{
    assert(0int / period == 0 && 0int % period == 0 && DIV * period / period == DIV && (DIV
        * period) % period == 0) by (nonlinear_arith)
        requires
            0 < period,
    ;
    assert(DIV * 0 == 0);
    assert(halved * DIV / DIV as int == halved);
    assert(secant(period, period) == DIV / 2);
    assert(halved * (DIV / 2) / DIV as int == halved / 2) by (nonlinear_arith)
        requires
            DIV == 1_000_000_000_000_000_000,
    ;
}

/// The decay is what is left within the half-life that `elapsed` falls into.
proof fn lemma_decay_within_a_half_life(fee: int, elapsed: int, period: int)
    requires
        0 <= fee <= u128::MAX,
        0 <= elapsed,
        0 < period,
    ensures
        decayed_fee(fee, elapsed, period) == left_within(
            fee / pow2((elapsed / period) as nat) as int,
            elapsed % period,
            period,
        ),
{
    lemma_div_is_ordered(0, elapsed, period);
    let whole = (elapsed / period) as nat;
    let halved = fee / pow2(whole) as int;
    lemma_halvings_are_ordered(fee, whole, whole);
    lemma_ends_of_a_half_life(halved, period);
    if elapsed == 0 {
        assert(0int / period == 0 && 0int % period == 0) by (nonlinear_arith)
            requires
                0 < period,
        ;
        vstd::arithmetic::power2::lemma2_to64();
        assert(fee / 1 == fee);
    }
    if whole >= 128 || fee == 0 {
        assert(halved == 0) by {
            if whole >= 128 {
                lemma_halvings_are_ordered(fee, 128, whole);
                vstd::arithmetic::power2::lemma2_to64_rest();
                vstd::arithmetic::power2::lemma2_to64();
                lemma_pow2_adds(64, 64);
                assert(pow2(64) * pow2(64) == u128::MAX + 1) by (nonlinear_arith)
                    requires
                        pow2(64) == 0x1_0000_0000_0000_0000,
                ;
                assert(fee / (u128::MAX + 1) == 0) by (nonlinear_arith)
                    requires
                        0 <= fee <= u128::MAX,
                ;
            }
        }
        assert(0 * secant(elapsed % period, period) == 0);
    }
}

/// After whole half-lives and a part of the next, both ends of it included, the decay is what is left
/// within that half-life.
proof fn lemma_decay_after(fee: int, halvings: nat, rest: int, period: int)
    requires
        0 <= fee <= u128::MAX,
        0 <= rest <= period,
        0 < period,
    ensures
        0 <= halvings * period + rest,
        decayed_fee(fee, halvings * period + rest, period) == left_within(
            fee / pow2(halvings) as int,
            rest,
            period,
        ),
{
    let elapsed = halvings * period + rest;
    let halved = fee / pow2(halvings) as int;
    lemma_halvings_are_ordered(fee, halvings, halvings);
    assert(0 <= halvings * period) by (nonlinear_arith)
        requires
            0 < period,
    ;
    assert(halvings * period == period * halvings) by (nonlinear_arith);
    lemma_decay_within_a_half_life(fee, elapsed, period);
    if rest < period {
        vstd::arithmetic::div_mod::lemma_fundamental_div_mod_converse(
            elapsed,
            period,
            halvings as int,
            rest,
        );
    } else {
        assert(elapsed == period * (halvings + 1)) by (nonlinear_arith)
            requires
                elapsed == period * halvings + period,
        ;
        vstd::arithmetic::div_mod::lemma_fundamental_div_mod_converse(
            elapsed,
            period,
            (halvings + 1) as int,
            0,
        );
        lemma_pow2_pos(halvings);
        lemma_pow2_adds(halvings, 1);
        vstd::arithmetic::power2::lemma2_to64();
        lemma_div_denominator(fee, pow2(halvings) as int, 2);
        lemma_ends_of_a_half_life(halved, period);
        lemma_ends_of_a_half_life(halved / 2, period);
    }
}

/// The effective fee is what the time since the last operation leaves of the stored fee, raised to the
/// policy floor or lowered to its ceiling where it is outside them.
pub proof fn law_effective_fee_is_the_decayed_fee_within_bounds<B>(
    state: RedemptionState,
    now: Millis,
    config: RedemptionConfig<B>,
    elapsed: int,
)
    requires
        config.dynamic_fee_floor.inner <= config.dynamic_fee_ceiling.inner,
        now >= state.last_fee_operation ==> elapsed == now - state.last_fee_operation,
        now < state.last_fee_operation ==> elapsed == 0,
    ensures
        ({
            let left = decayed_fee(
                state.dynamic_fee.inner as int,
                elapsed,
                config.dynamic_fee_decay_period as int,
            );
            let floor = config.dynamic_fee_floor.inner;
            let ceiling = config.dynamic_fee_ceiling.inner;
            let fee = state.fee_at(now, config);
            &&& left < floor ==> fee == floor
            &&& left > ceiling ==> fee == ceiling
            &&& floor <= left <= ceiling ==> fee == left
        }),
{
}

/// The effective fee falls steadily through each half-life, from what the halvings before it left to
/// the half of that: after a part `rest` of it, it is `1 - rest / (2 * period)` of what the
/// half-life started with, up to rounding, wherever neither policy bound holds it. Both ends of the
/// half-life are included.
pub proof fn law_effective_fee_falls_steadily<B>(
    state: RedemptionState,
    now: Millis,
    config: RedemptionConfig<B>,
    halvings: nat,
    rest: int,
)
    requires
        0 < config.dynamic_fee_decay_period,
        config.dynamic_fee_floor.inner <= config.dynamic_fee_ceiling.inner,
        0 <= rest <= config.dynamic_fee_decay_period,
        now == state.last_fee_operation + halvings * config.dynamic_fee_decay_period + rest,
    ensures
        ({
            let fee = state.fee_at(now, config);
            let start = state.dynamic_fee.inner as int / pow2(halvings) as int;
            let period = config.dynamic_fee_decay_period;
            &&& config.dynamic_fee_floor.inner <= fee <= config.dynamic_fee_ceiling.inner
            &&& fee > config.dynamic_fee_floor.inner ==> 2 * period * (fee - 1 - start / DIV as int)
                <= start * (2 * period - rest)
            &&& fee < config.dynamic_fee_ceiling.inner ==> start * (2 * period - rest) <= 2 * period
                * (fee + 2 + start / DIV as int)
        }),
{
    let f = state.dynamic_fee.inner as int;
    let period = config.dynamic_fee_decay_period as int;
    let start = f / pow2(halvings) as int;
    let elapsed = halvings * period + rest;
    lemma_decay_after(f, halvings, rest, period);
    lemma_halvings_are_ordered(f, halvings, halvings);
    lemma_secant_is_near(rest, period);
    let left = left_within(start, rest, period);
    let scale = secant(rest, period);
    let parts = start / DIV as int;
    assert(now - state.last_fee_operation == elapsed);
    assert(decayed_fee(f, now - state.last_fee_operation, period) == left);
    assert(DIV * left <= start * scale && start * scale < DIV * left + DIV);
    assert(2 * period * (left - 1 - parts) <= start * (2 * period - rest)) by (nonlinear_arith)
        requires
            DIV * left <= start * scale,
            4 * period * scale <= 4 * period * DIV - 2 * DIV * rest + 3 * period,
            0 <= start,
            start < DIV * (parts + 1),
            0 < period,
            DIV == 1_000_000_000_000_000_000,
    ;
    assert(start * (2 * period - rest) <= 2 * period * (left + 2 + parts)) by (nonlinear_arith)
        requires
            start * scale < DIV * left + DIV,
            4 * period * DIV - 2 * DIV * rest - period <= 4 * period * scale,
            0 <= start,
            start < DIV * (parts + 1),
            0 < period,
            DIV == 1_000_000_000_000_000_000,
    ;
    let fee = state.fee_at(now, config);
    if fee > config.dynamic_fee_floor.inner {
        assert(fee <= left);
        assert(2 * period * (fee - 1 - parts) <= 2 * period * (left - 1 - parts))
            by (nonlinear_arith)
            requires
                fee <= left,
                0 < period,
        ;
    }
    if fee < config.dynamic_fee_ceiling.inner {
        assert(left <= fee);
        assert(2 * period * (left + 2 + parts) <= 2 * period * (fee + 2 + parts))
            by (nonlinear_arith)
            requires
                left <= fee,
                0 < period,
        ;
    }
}

/// Nothing decays in no time, and without a half-life nothing is left after any time.
pub proof fn law_decay_without_time_or_half_life(fee: int, elapsed: int, period: int)
    requires
        0 <= fee,
        0 <= elapsed,
        0 <= period,
    ensures
        elapsed == 0 ==> decayed_fee(fee, elapsed, period) == fee,
        elapsed > 0 && period == 0 ==> decayed_fee(fee, elapsed, period) == 0,
{
}

/// The decay within a half-life is exact: `share` is the part of the half-life that has passed, to the
/// nearest and down between two, `half` the half of it, and `left` what the rest of one leaves of
/// what the half-life started with, both rounded down.
pub proof fn law_decay_within_a_half_life(
    fee: int,
    halvings: nat,
    rest: int,
    period: int,
    share: int,
    half: int,
    left: int,
)
    requires
        0 <= fee <= u128::MAX,
        0 <= rest <= period,
        0 < period,
        (2 * share - 1) * period < 2 * (DIV * rest) <= (2 * share + 1) * period,
        2 * half <= share <= 2 * half + 1,
        left * DIV <= (fee / pow2(halvings) as int) * (DIV - half) < (left + 1) * DIV,
    ensures
        decayed_fee(fee, halvings * period + rest, period) == left,
{
    lemma_decay_after(fee, halvings, rest, period);
    let start = fee / pow2(halvings) as int;
    let exact = DIV * rest;
    let near = rounded(exact, period, Rounding::NearestPrefDown);
    lemma_fundamental_div_mod(exact, period);
    let down = exact / period;
    let part = exact % period;
    assert(0 <= part < period) by (nonlinear_arith)
        requires
            0 < period,
            part == exact % period,
    ;
    assert(near == share) by {
        assert(near == down || near == down + 1);
        assert(2 * exact == 2 * (period * down) + 2 * part);
        assert(share == near) by (nonlinear_arith)
            requires
                (2 * share - 1) * period < 2 * exact <= (2 * share + 1) * period,
                2 * exact == 2 * (period * down) + 2 * part,
                0 <= part < period,
                near == (if 2 * part > period {
                    down + 1
                } else {
                    down
                }),
        ;
    }
    assert(half == share / 2);
    assert(left_within(start, rest, period) == start * (DIV - half) / DIV as int);
    vstd::arithmetic::div_mod::lemma_fundamental_div_mod(start * (DIV - half), DIV as int);
}

/// The effective fee never rises while no redemption raises it, and does not jump: one millisecond
/// takes off at most the part `1 / (2 * period)` of the stored fee, up to rounding, at any time.
pub proof fn law_effective_fee_does_not_jump<B>(
    state: RedemptionState,
    now: Millis,
    next: Millis,
    config: RedemptionConfig<B>,
)
    requires
        0 < config.dynamic_fee_decay_period,
        next == now + 1,
    ensures
        state.fee_at(next, config) <= state.fee_at(now, config),
        2 * config.dynamic_fee_decay_period * (state.fee_at(now, config) - state.fee_at(next, config)
            - 2 - state.dynamic_fee.inner as int / DIV as int) <= state.dynamic_fee.inner,
{
    let f = state.dynamic_fee.inner as int;
    let period = config.dynamic_fee_decay_period as int;
    let parts = f / DIV as int;
    let fall = state.fee_at(now, config) - state.fee_at(next, config);
    if now >= state.last_fee_operation {
        let elapsed = now - state.last_fee_operation;
        law_decay_is_continuous(f, elapsed, period);
        law_decay_never_rises(f, elapsed, elapsed + 1, period);
        let whole = decayed_fee(f, elapsed, period) - decayed_fee(f, elapsed + 1, period);
        assert(fall <= whole);
        assert(2 * period * (fall - 2 - parts) <= 2 * period * (whole - 2 - parts))
            by (nonlinear_arith)
            requires
                fall <= whole,
                0 < period,
        ;
    } else {
        assert(fall == 0);
        assert(2 * period * (0 - 2 - parts) <= 0) by (nonlinear_arith)
            requires
                0 <= parts,
                0 < period,
        ;
        assert(2 * period * (fall - 2 - parts) <= 0);
    }
}

/// After whole half-lives the effective fee is the stored one halved as often, raised to the policy
/// floor or lowered to its ceiling where it is outside them. No time has passed for a clock that is
/// not past the last operation.
pub proof fn law_effective_fee_at_whole_half_lives<B>(
    state: RedemptionState,
    now: Millis,
    config: RedemptionConfig<B>,
    halvings: nat,
)
    requires
        0 < config.dynamic_fee_decay_period,
        config.dynamic_fee_floor.inner <= config.dynamic_fee_ceiling.inner,
        now == state.last_fee_operation + halvings * config.dynamic_fee_decay_period || halvings == 0
            && now <= state.last_fee_operation,
    ensures
        ({
            let left = state.dynamic_fee.inner as int / pow2(halvings) as int;
            let floor = config.dynamic_fee_floor.inner;
            let ceiling = config.dynamic_fee_ceiling.inner;
            let fee = state.fee_at(now, config);
            &&& left < floor ==> fee == floor
            &&& left > ceiling ==> fee == ceiling
            &&& floor <= left <= ceiling ==> fee == left
        }),
{
    let f = state.dynamic_fee.inner as int;
    let period = config.dynamic_fee_decay_period as int;
    lemma_decay_after(f, halvings, 0, period);
    let left = f / pow2(halvings) as int;
    lemma_halvings_are_ordered(f, halvings, halvings);
    lemma_ends_of_a_half_life(left, period);
    if halvings == 0 {
        vstd::arithmetic::power2::lemma2_to64();
        assert(f / 1 == f);
    }
}

/// The decay does not jump, neither within a half-life nor where one ends and the next begins: one
/// more unit of time takes off at most the part `1 / (2 * period)` of the fee, up to rounding.
pub proof fn law_decay_is_continuous(fee: int, elapsed: int, period: int)
    requires
        0 <= fee <= u128::MAX,
        0 <= elapsed,
        0 < period,
    ensures
        2 * period * (decayed_fee(fee, elapsed, period) - decayed_fee(fee, elapsed + 1, period) - 2
            - fee / DIV as int) <= fee,
{
    lemma_div_is_ordered(0, elapsed, period);
    lemma_fundamental_div_mod(elapsed, period);
    lemma_fundamental_div_mod(elapsed + 1, period);
    let whole = (elapsed / period) as nat;
    let rest = elapsed % period;
    let halved = fee / pow2(whole) as int;
    lemma_halvings_are_ordered(fee, whole, whole);
    lemma_decay_within_a_half_life(fee, elapsed, period);
    lemma_decay_within_a_half_life(fee, elapsed + 1, period);
    let before = left_within(halved, rest, period);
    let after = left_within(halved, rest + 1, period);
    assert(0 <= rest < period) by (nonlinear_arith)
        requires
            0 < period,
            rest == elapsed % period,
    ;
    assert(decayed_fee(fee, elapsed + 1, period) == after) by {
        if rest + 1 < period {
            vstd::arithmetic::div_mod::lemma_fundamental_div_mod_converse(
                elapsed + 1,
                period,
                whole as int,
                rest + 1,
            );
        } else {
            assert(elapsed + 1 == period * (whole + 1)) by (nonlinear_arith)
                requires
                    elapsed == period * whole + rest,
                    rest + 1 == period,
            ;
            vstd::arithmetic::div_mod::lemma_fundamental_div_mod_converse(
                elapsed + 1,
                period,
                (whole + 1) as int,
                0,
            );
            lemma_pow2_pos(whole);
            lemma_pow2_adds(whole, 1);
            vstd::arithmetic::power2::lemma2_to64();
            lemma_div_denominator(fee, pow2(whole) as int, 2);
            lemma_ends_of_a_half_life(halved, period);
            lemma_ends_of_a_half_life(halved / 2, period);
        }
    }
    lemma_secant_is_near(rest, period);
    lemma_secant_is_near(rest + 1, period);
    let high = secant(rest, period);
    let low = secant(rest + 1, period);
    let parts = fee / DIV as int;
    assert(2 * DIV * (rest + 1) == 2 * DIV * rest + 2 * DIV) by (nonlinear_arith);
    assert(4 * (period * (high - low)) <= 2 * DIV + 4 * period) by (nonlinear_arith)
        requires
            4 * period * high - 4 * period * low <= 2 * DIV + 4 * period,
    ;
    assert(DIV * before <= halved * high && halved * low < DIV * after + DIV);
    assert(2 * period * (before - after - 2 - parts) <= fee) by (nonlinear_arith)
        requires
            DIV * before <= halved * high,
            halved * low < DIV * after + DIV,
            4 * (period * (high - low)) <= 2 * DIV + 4 * period,
            0 <= halved <= fee,
            fee < DIV * (parts + 1),
            0 < period,
            DIV == 1_000_000_000_000_000_000,
    ;
}

/// A greater base has no smaller power.
proof fn lemma_power_keeps_order(less: int, more: int, exponent: nat)
    requires
        0 <= less <= more,
    ensures
        0 <= pow(less, exponent) <= pow(more, exponent),
    decreases exponent,
{
    reveal(pow);
    if exponent > 0 {
        let before = (exponent - 1) as nat;
        lemma_power_keeps_order(less, more, before);
        assert(0 <= less * pow(less, before) <= more * pow(more, before)) by (nonlinear_arith)
            requires
                0 <= less <= more,
                0 <= pow(less, before) <= pow(more, before),
        ;
    }
}

/// Bernoulli's inequality on the ratio of `u` to `v`, without division.
proof fn lemma_power_lies_above_its_tangent(u: int, v: int, n: nat)
    requires
        0 <= u,
        0 <= v,
        1 <= n,
    ensures
        pow(v, (n - 1) as nat) * (n * u - (n - 1) * v) <= pow(u, n),
    decreases n,
{
    reveal(pow);
    if n == 1 {
        vstd::arithmetic::power::lemma_pow0(v);
        vstd::arithmetic::power::lemma_pow1(u);
        assert(1 * u - 0 * v == u);
    } else {
        let m = (n - 1) as nat;
        let k = (n - 2) as nat;
        lemma_power_lies_above_its_tangent(u, v, m);
        lemma_power_keeps_order(0, v, k);
        let a = pow(v, k);
        assert(pow(v, m) == v * a);
        let slope = m * u - (m - 1) * v;
        let next = n * u - m * v;
        let gap = (u - v) * (u - v);
        assert(u * slope - v * next == m * gap) by (nonlinear_arith)
            requires
                slope == m * u - (m - 1) * v,
                next == (m + 1) * u - m * v,
                gap == (u - v) * (u - v),
        ;
        assert(0 <= m * gap) by (nonlinear_arith)
            requires
                gap == (u - v) * (u - v),
        ;
        assert(v * a * next <= u * pow(u, m)) by {
            assert(v * a * next == a * (v * next)) by (nonlinear_arith);
            assert(a * (v * next) <= a * (u * slope)) by (nonlinear_arith)
                requires
                    v * next <= u * slope,
                    0 <= a,
            ;
            assert(a * (u * slope) == u * (a * slope)) by (nonlinear_arith);
            assert(u * (a * slope) <= u * pow(u, m)) by (nonlinear_arith)
                requires
                    a * slope <= pow(u, m),
                    0 <= u,
            ;
        }
    }
}

/// The mean of `twos` twos and `ones` ones is at least their geometric mean.
proof fn lemma_mean_of_twos_and_ones(twos: nat, ones: nat)
    requires
        0 < twos + ones,
    ensures
        pow((twos + ones) as int, twos + ones) * pow2(twos) <= pow(
            (2 * twos + ones) as int,
            twos + ones,
        ),
    decreases ones,
{
    let n = twos + ones;
    if ones == 0 {
        lemma_pow_distributes(2, twos as int, twos);
        lemma_pow2(twos);
        assert(2 * twos + 0 == 2 * (twos as int));
        assert(pow(twos as int, twos) * pow2(twos) == pow2(twos) * pow(twos as int, twos))
            by (nonlinear_arith);
    } else if n == 1 {
        vstd::arithmetic::power::lemma_pow1(1);
        vstd::arithmetic::power2::lemma2_to64();
    } else {
        let m = (n - 1) as nat;
        let sum = (2 * twos + ones) as int;
        let less = sum - 1;
        lemma_mean_of_twos_and_ones(twos, (ones - 1) as nat);
        lemma_power_lies_above_its_tangent(sum * m, less * n, n);
        lemma_pow_distributes(sum, m as int, n);
        lemma_pow_distributes(less, n as int, m);
        lemma_pow_positive(m as int, n);
        assert(n * (sum * m) - m * (less * n) == n * m) by (nonlinear_arith)
            requires
                less == sum - 1,
        ;
        reveal(pow);
        let nn = pow(n as int, n);
        let nm = pow(n as int, m);
        let mm = pow(m as int, m);
        let ln = pow(less, m);
        let sn = pow(sum, n);
        let two = pow2(twos) as int;
        assert(nn == n * nm);
        assert(pow(m as int, n) == m * mm);
        lemma_pow_positive(m as int, m);
        lemma_pow_positive(n as int, n);
        assert(ln * nm * (n * m) <= sn * (m * mm));
        assert(mm * two <= ln);
        assert(ln * nn <= sn * mm) by (nonlinear_arith)
            requires
                ln * nm * (n * m) <= sn * (m * mm),
                nn == n * nm,
                0 < m,
        {
            assert(ln * nm * (n * m) == m * (ln * nn));
            assert(sn * (m * mm) == m * (sn * mm));
        }
        assert(nn * two <= sn) by (nonlinear_arith)
            requires
                ln * nn <= sn * mm,
                mm * two <= ln,
                0 < mm,
                0 < nn,
        {
            assert(mm * two * nn <= ln * nn);
            assert(mm * two * nn == mm * (nn * two));
            assert(sn * mm == mm * sn);
        }
    }
}

/// The chord of the decay lies on or above the decay: `1 - rest / (2 * period)` is at least the
/// `period`-th root of `2^(-rest)`.
proof fn lemma_chord_lies_above_the_decay(rest: nat, period: nat)
    requires
        rest <= period,
        0 < period,
    ensures
        pow((2 * period) as int, period) <= pow(2 * period - rest, period) * pow2(rest),
{
    let twos = (period - rest) as nat;
    lemma_mean_of_twos_and_ones(twos, rest);
    assert(2 * twos + rest == 2 * period - rest);
    lemma_pow_distributes(2, period as int, period);
    lemma_pow2(period);
    lemma_pow2_adds(twos, rest);
    lemma_pow2_pos(rest);
    let base = pow(period as int, period);
    let chord = pow(2 * period - rest, period);
    assert(pow2(period) * base <= chord * pow2(rest)) by (nonlinear_arith)
        requires
            base * pow2(twos) <= chord,
            pow2(period) == pow2(twos) * pow2(rest),
            0 < pow2(rest),
    ;
}

/// The decay never falls below the exact decay `fee * 2^(-elapsed / period)` by more than rounding
/// takes off. Raised to the power of `period`, the exact decay is a ratio of integers.
pub proof fn law_decay_is_at_least_the_exact_decay(fee: int, elapsed: int, period: int)
    requires
        0 <= fee <= u128::MAX,
        0 <= elapsed,
        0 < period,
    ensures
        pow(fee, period as nat) <= pow(
            decayed_fee(fee, elapsed, period) + 3 + fee / DIV as int,
            period as nat,
        ) * pow2(elapsed as nat),
{
    lemma_div_is_ordered(0, elapsed, period);
    lemma_fundamental_div_mod(elapsed, period);
    let p = period as nat;
    let whole = (elapsed / period) as nat;
    let rest = elapsed % period;
    assert(0 <= rest < period) by (nonlinear_arith)
        requires
            0 < period,
            rest == elapsed % period,
    ;
    let power = pow2(whole) as int;
    lemma_pow2_pos(whole);
    let halved = fee / power;
    lemma_halvings_are_ordered(fee, whole, whole);
    lemma_decay_within_a_half_life(fee, elapsed, period);
    lemma_secant(rest, rest, period);
    lemma_secant_is_near(rest, period);
    let factor = secant(rest, period);
    let left = left_within(halved, rest, period);
    let parts = fee / DIV as int;
    let upper = left + 3 + parts;
    assert(halved * factor < DIV * left + DIV);
    assert((halved + 1) * (2 * period - rest) <= upper * (2 * period)) by (nonlinear_arith)
        requires
            4 * period * DIV - 2 * DIV * rest - period <= 4 * period * factor,
            halved * factor < DIV * left + DIV,
            upper == left + 3 + parts,
            0 <= halved <= fee,
            fee < DIV * (parts + 1),
            0 <= rest < period,
            DIV == 1_000_000_000_000_000_000,
    ;
    assert(0 <= upper) by {
        lemma_scaling_is_ordered(halved, halved, factor, factor);
    }
    let span = 2 * period - rest;
    lemma_power_keeps_order(0, (halved + 1) * span, p);
    lemma_power_keeps_order((halved + 1) * span, upper * (2 * period), p);
    lemma_pow_distributes(halved + 1, span, p);
    lemma_pow_distributes(upper, 2 * period, p);
    lemma_chord_lies_above_the_decay(rest as nat, p);
    lemma_pow_positive(span, p);
    lemma_power_keeps_order(0, upper, p);
    let started = pow(halved + 1, p);
    let ended = pow(upper, p);
    let chord = pow(span, p);
    let whole_span = pow(2 * period, p);
    let slowed = pow2(rest as nat) as int;
    assert(started <= ended * slowed) by (nonlinear_arith)
        requires
            started * chord <= ended * whole_span,
            whole_span <= chord * slowed,
            0 < chord,
            0 <= ended,
    {
        assert(ended * whole_span <= ended * (chord * slowed));
        assert(ended * (chord * slowed) == (ended * slowed) * chord);
    }
    assert(fee <= (halved + 1) * power) by (nonlinear_arith)
        requires
            halved == fee / power,
            0 < power,
    ;
    lemma_power_keeps_order(fee, (halved + 1) * power, p);
    lemma_pow_distributes(halved + 1, power, p);
    lemma_pow2(whole);
    lemma_pow_multiplies(2, whole, p);
    lemma_pow2(whole * p);
    lemma_pow2_adds(whole * p, rest as nat);
    assert(whole * p == period * whole) by (nonlinear_arith)
        requires
            p == period,
    ;
    assert(elapsed as nat == whole * p + rest as nat);
    let halvings = pow2(whole * p) as int;
    lemma_pow2_pos(whole * p);
    assert(started * halvings <= ended * (halvings * slowed)) by (nonlinear_arith)
        requires
            started <= ended * slowed,
            0 < halvings,
    ;
}

} // verus!

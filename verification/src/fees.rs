//! The consensus fee model: required fee = base + per-input + per-output +
//! state-growth, where the state-growth part is charged on the net-new live
//! slots, scaled by the occupancy of the state domain, and burned; the
//! coinbase may claim only `fee - burned`.
use vstd::prelude::*;
use vstd::arithmetic::power2::pow2;

verus! {

/// Fixed anti-DoS component per non-coinbase transaction (µNOID).
pub const MIN_FEE_BASE: u64 = 5_000;
/// Per live input (µNOID).
pub const FEE_PER_INPUT: u64 = 100;
/// Per live output (µNOID).
pub const FEE_PER_OUTPUT: u64 = 700;
/// Per net-new live slot at low occupancy (µNOID); multiplied under state
/// pressure.
pub const STATE_GROWTH_FEE_BASE: u64 = 2_500;

/// Occupancy thresholds of the pressure multiplier, in basis points.
pub const PRESSURE_LOW_BPS: u64 = 5_000;
pub const PRESSURE_HIGH_BPS: u64 = 7_500;
pub const PRESSURE_EXTREME_BPS: u64 = 9_000;

pub open spec fn sat_add(a: nat, b: nat) -> u64 {
    if a + b > u64::MAX { u64::MAX } else { (a + b) as u64 }
}

pub open spec fn sat_mul(a: nat, b: nat) -> u64 {
    if a * b > u64::MAX { u64::MAX } else { (a * b) as u64 }
}

pub open spec fn sat_sub(a: nat, b: nat) -> u64 {
    if a >= b { (a - b) as u64 } else { 0 }
}

/// `a * b`, or `u64::MAX` where that does not fit.
pub fn saturating_mul_u64(a: u64, b: u64) -> (r: u64)
    ensures
        r == sat_mul(a as nat, b as nat),
{
    match a.checked_mul(b) {
        Some(v) => v,
        None => u64::MAX,
    }
}

/// Live slots the state domain holds at `log_slots`.
pub open spec fn capacity_of(log_slots: nat) -> nat {
    if log_slots < 128 { pow2(log_slots) } else { u128::MAX as nat }
}

/// Occupancy in basis points, truncated to 64 bits as the node does.
pub open spec fn occupancy_at(active_slot_count: nat, log_slots: nat) -> u64 {
    ((active_slot_count * 10_000) / capacity_of(log_slots)) as u64
}

/// The occupancy fits in 64 bits, so nothing is truncated (always the
/// case from log_slots 14 on).
pub open spec fn occupancy_exact(active_slot_count: nat, log_slots: nat) -> bool {
    (active_slot_count * 10_000) / capacity_of(log_slots) <= u64::MAX
}

pub open spec fn multiplier_for(bps: u64) -> u64 {
    if bps >= PRESSURE_EXTREME_BPS {
        8
    } else if bps >= PRESSURE_HIGH_BPS {
        4
    } else if bps >= PRESSURE_LOW_BPS {
        2
    } else {
        1
    }
}

pub open spec fn multiplier_at(active_slot_count: nat, log_slots: nat) -> u64 {
    multiplier_for(occupancy_at(active_slot_count, log_slots))
}

proof fn lemma_one_shl(s: u128)
    requires
        s < 128,
    ensures
        (1u128 << s) == pow2(s as nat),
    decreases s,
{
    if s == 0 {
        assert(1u128 << 0u128 == 1u128) by (bit_vector);
        vstd::arithmetic::power2::lemma2_to64();
    } else {
        assert(1u128 << s == (1u128 << ((s - 1) as u128)) * 2) by (bit_vector)
            requires
                0 < s < 128,
        ;
        lemma_one_shl((s - 1) as u128);
        vstd::arithmetic::power2::lemma_pow2_unfold(s as nat);
    }
}

/// Occupancy of the state domain in basis points, integer arithmetic as in
/// the node.
pub fn occupancy_bps(active_slot_count: u64, log_slots: u32) -> (r: u64)
    ensures
        r == occupancy_at(active_slot_count as nat, log_slots as nat),
        occupancy_exact(active_slot_count as nat, log_slots as nat) ==>
            r == (active_slot_count as nat * 10_000) / capacity_of(log_slots as nat),
{
    let shift: u128 = log_slots as u128;
    let capacity: u128 = if shift < 128 {
        proof {
            lemma_one_shl(shift);
        }
        1u128 << shift
    } else {
        u128::MAX
    };
    proof {
        vstd::arithmetic::power2::lemma_pow2_pos(log_slots as nat);
    }
    let capacity: u128 = if capacity < 1 { 1 } else { capacity };
    let scaled: u128 = (active_slot_count as u128) * 10_000;
    (scaled / capacity) as u64
}

/// 1x below 50 % occupancy, 2x from 50 %, 4x from 75 %, 8x from 90 %.
pub fn pressure_multiplier(active_slot_count: u64, log_slots: u32) -> (r: u64)
    ensures
        r == multiplier_at(active_slot_count as nat, log_slots as nat),
{
    let bps = occupancy_bps(active_slot_count, log_slots);
    if bps >= PRESSURE_EXTREME_BPS {
        8
    } else if bps >= PRESSURE_HIGH_BPS {
        4
    } else if bps >= PRESSURE_LOW_BPS {
        2
    } else {
        1
    }
}

/// Burn per net-new live slot at the given occupancy (µNOID).
pub fn state_growth_fee_per_slot(active_slot_count: u64, log_slots: u32) -> (r: u64)
    ensures
        r == STATE_GROWTH_FEE_BASE * multiplier_at(active_slot_count as nat, log_slots as nat),
{
    saturating_mul_u64(STATE_GROWTH_FEE_BASE, pressure_multiplier(active_slot_count, log_slots))
}

#[derive(Debug, Clone, Copy, PartialEq, Eq)]
pub struct FeeBreakdown {
    pub base: u64,
    pub input: u64,
    pub output: u64,
    pub net_new_slots: u64,
    pub multiplier: u64,
    /// Occupancy the multiplier was derived from, in basis points.
    pub occupancy_bps: u64,
    /// The state-growth component: burned by consensus.
    pub burned: u64,
    /// Minimum fee the transaction had to pay.
    pub required_total: u64,
    /// What it actually paid above the minimum; the miner keeps it.
    pub tip: u64,
    /// `fee - burned`: everything the coinbase may claim.
    pub to_miner: u64,
}

/// The split of `fee` paid by a transaction with `n_inputs` live inputs and
/// `n_outputs` live outputs at the parent's occupancy.
pub open spec fn breakdown_of(fee: u64, n_inputs: u64, n_outputs: u64, active_slot_count: u64, log_slots: u32) -> FeeBreakdown {
    let net_new_slots = sat_sub(n_outputs as nat, n_inputs as nat);
    let input = sat_mul(FEE_PER_INPUT as nat, n_inputs as nat);
    let output = sat_mul(FEE_PER_OUTPUT as nat, n_outputs as nat);
    let multiplier = multiplier_at(active_slot_count as nat, log_slots as nat);
    let burned = sat_mul(sat_mul(STATE_GROWTH_FEE_BASE as nat, multiplier as nat) as nat, net_new_slots as nat);
    let required_total = sat_add(
        sat_add(sat_add(MIN_FEE_BASE as nat, input as nat) as nat, output as nat) as nat,
        burned as nat,
    );
    FeeBreakdown {
        base: MIN_FEE_BASE,
        input,
        output,
        net_new_slots,
        multiplier,
        occupancy_bps: occupancy_at(active_slot_count as nat, log_slots as nat),
        burned,
        required_total,
        tip: sat_sub(fee as nat, required_total as nat),
        to_miner: sat_sub(fee as nat, burned as nat),
    }
}

/// Split `fee` (as paid) for a transaction with `n_inputs` live inputs and
/// `n_outputs` live outputs, at the parent's occupancy.
pub fn fee_breakdown(fee: u64, n_inputs: u64, n_outputs: u64, active_slot_count: u64, log_slots: u32) -> (b: FeeBreakdown)
    ensures
        b == breakdown_of(fee, n_inputs, n_outputs, active_slot_count, log_slots),
{
    let net_new_slots = n_outputs.saturating_sub(n_inputs);
    let base = MIN_FEE_BASE;
    let input = saturating_mul_u64(FEE_PER_INPUT, n_inputs);
    let output = saturating_mul_u64(FEE_PER_OUTPUT, n_outputs);
    let multiplier = pressure_multiplier(active_slot_count, log_slots);
    let burned = saturating_mul_u64(saturating_mul_u64(STATE_GROWTH_FEE_BASE, multiplier), net_new_slots);
    let required_total = base.saturating_add(input).saturating_add(output).saturating_add(burned);
    FeeBreakdown {
        base,
        input,
        output,
        net_new_slots,
        multiplier,
        occupancy_bps: occupancy_bps(active_slot_count, log_slots),
        burned,
        required_total,
        tip: fee.saturating_sub(required_total),
        to_miner: fee.saturating_sub(burned),
    }
}


/// What a transaction paid splits exactly: the burn plus what the coinbase
/// may claim is the fee, the required minimum plus the tip is the fee, the
/// burn is part of the required minimum, and a transaction that creates no
/// net-new slots burns nothing.
pub proof fn law_fee_split(fee: u64, n_inputs: u64, n_outputs: u64, active_slot_count: u64, log_slots: u32)
    ensures
        ({
            let b = breakdown_of(fee, n_inputs, n_outputs, active_slot_count, log_slots);
            &&& b.burned <= b.required_total
            &&& fee >= b.burned ==> b.to_miner + b.burned == fee
            &&& fee < b.burned ==> b.to_miner == 0
            &&& fee >= b.required_total ==> b.tip + b.required_total == fee
            &&& fee < b.required_total ==> b.tip == 0
            &&& n_outputs <= n_inputs ==> b.net_new_slots == 0 && b.burned == 0
        }),
{
}

/// Where nothing saturates, the required fee is 5,000 µNOID + 100 per input
/// + 700 per output + 2,500 times the multiplier per net-new slot.
pub proof fn law_required_fee_formula(fee: u64, n_inputs: u64, n_outputs: u64, active_slot_count: u64, log_slots: u32)
    requires
        ({
            let net: int = if n_outputs >= n_inputs { n_outputs - n_inputs } else { 0 };
            5_000 + 100 * n_inputs + 700 * n_outputs
                + 2_500 * multiplier_at(active_slot_count as nat, log_slots as nat) * net
                <= u64::MAX
        }),
    ensures
        ({
            let b = breakdown_of(fee, n_inputs, n_outputs, active_slot_count, log_slots);
            let net: int = if n_outputs >= n_inputs { n_outputs - n_inputs } else { 0 };
            &&& b.net_new_slots == net
            &&& b.burned == 2_500 * b.multiplier * net
            &&& b.required_total == 5_000 + 100 * n_inputs + 700 * n_outputs + b.burned
        }),
{
    let m = multiplier_at(active_slot_count as nat, log_slots as nat);
    let net: int = if n_outputs >= n_inputs { n_outputs - n_inputs } else { 0 };
    assert(2_500 * m * net >= 0) by (nonlinear_arith)
        requires m >= 1, net >= 0;
    assert(100 * n_inputs >= 0 && 700 * n_outputs >= 0) by (nonlinear_arith);
    assert((2_500 * m) * net == 2_500 * m * net);
}

/// The fee paid moves only the tip and the miner's claim: every other part
/// of the split, the burn included, depends on the transaction's shape and
/// the occupancy alone.
pub proof fn law_burn_independent_of_fee(fee1: u64, fee2: u64, n_inputs: u64, n_outputs: u64, active_slot_count: u64, log_slots: u32)
    ensures
        ({
            let b1 = breakdown_of(fee1, n_inputs, n_outputs, active_slot_count, log_slots);
            let b2 = breakdown_of(fee2, n_inputs, n_outputs, active_slot_count, log_slots);
            &&& b1.base == b2.base && b1.input == b2.input && b1.output == b2.output
            &&& b1.net_new_slots == b2.net_new_slots && b1.multiplier == b2.multiplier
            &&& b1.occupancy_bps == b2.occupancy_bps
            &&& b1.burned == b2.burned && b1.required_total == b2.required_total
        }),
{
}

/// The multiplier is 1, 2, 4 or 8, and more live slots never lower it
/// (where the occupancy is not truncated).
pub proof fn law_multiplier_monotone(active1: u64, active2: u64, log_slots: u32)
    requires
        active1 <= active2,
        occupancy_exact(active2 as nat, log_slots as nat),
    ensures
        multiplier_at(active1 as nat, log_slots as nat) == 1 || multiplier_at(active1 as nat, log_slots as nat) == 2
            || multiplier_at(active1 as nat, log_slots as nat) == 4 || multiplier_at(active1 as nat, log_slots as nat) == 8,
        occupancy_at(active1 as nat, log_slots as nat) <= occupancy_at(active2 as nat, log_slots as nat),
        multiplier_at(active1 as nat, log_slots as nat) <= multiplier_at(active2 as nat, log_slots as nat),
{
    let cap = capacity_of(log_slots as nat);
    vstd::arithmetic::power2::lemma_pow2_pos(log_slots as nat);
    vstd::arithmetic::div_mod::lemma_div_is_ordered(active1 * 10_000, active2 * 10_000, cap as int);
}

proof fn lemma_capacity_grows(log_slots: nat)
    ensures
        capacity_of(log_slots) >= 1,
        capacity_of(log_slots) <= capacity_of(log_slots + 1),
{
    vstd::arithmetic::power2::lemma_pow2_pos(log_slots);
    if log_slots + 1 < 128 {
        vstd::arithmetic::power2::lemma_pow2_strictly_increases(log_slots, log_slots + 1);
    } else if log_slots < 128 {
        vstd::arithmetic::power2::lemma2_to64_rest();
        vstd::arithmetic::power2::lemma_pow2_adds(64, 63);
        assert(pow2(127) == 0x8000_0000_0000_0000 * 0x1_0000_0000_0000_0000);
    }
}

/// After an expansion the same live set is less crowded: occupancy and
/// multiplier never rise with log_slots.
pub proof fn law_expansion_relieves_pressure(active_slot_count: u64, log_slots: u32)
    requires
        log_slots < u32::MAX,
        occupancy_exact(active_slot_count as nat, log_slots as nat),
    ensures
        occupancy_at(active_slot_count as nat, log_slots as nat + 1) <= occupancy_at(active_slot_count as nat, log_slots as nat),
        multiplier_at(active_slot_count as nat, log_slots as nat + 1) <= multiplier_at(active_slot_count as nat, log_slots as nat),
{
    lemma_capacity_grows(log_slots as nat);
    lemma_capacity_grows(log_slots as nat + 1);
    vstd::arithmetic::div_mod::lemma_div_is_ordered_by_denominator(
        active_slot_count * 10_000, capacity_of(log_slots as nat) as int, capacity_of(log_slots as nat + 1) as int);
}


/// The multiplier's tiers in basis points of occupancy: 1x below 5000,
/// 2x from 5000, 4x from 7500, 8x from 9000.
pub proof fn law_multiplier_tiers(bps: u64)
    ensures
        bps < 5000 ==> multiplier_for(bps) == 1,
        5000 <= bps < 7500 ==> multiplier_for(bps) == 2,
        7500 <= bps < 9000 ==> multiplier_for(bps) == 4,
        9000 <= bps ==> multiplier_for(bps) == 8,
{
}

proof fn lemma_quotient_at_least(x: int, c: int, k: int)
    requires
        x >= 0,
        c > 0,
        k >= 0,
    ensures
        (x / c >= k) <==> (x >= k * c),
{
    vstd::arithmetic::div_mod::lemma_fundamental_div_mod(x, c);
    vstd::arithmetic::div_mod::lemma_mod_pos_bound(x, c);
    let q = x / c;
    let r = x % c;
    assert(q >= k ==> c * q >= k * c) by (nonlinear_arith)
        requires
            c > 0,
    ;
    assert(q < k ==> c * q + r < k * c) by (nonlinear_arith)
        requires
            c > 0,
            0 <= r < c,
    ;
}

/// Where the occupancy is not truncated, the multiplier by the share of
/// the state domain's slots that are live: 1x below one half, 2x from one
/// half, 4x from three quarters, 8x from nine tenths.
pub proof fn law_multiplier_by_share_of_capacity(active_slot_count: u64, log_slots: u32)
    requires
        occupancy_exact(active_slot_count as nat, log_slots as nat),
    ensures
        ({
            let a = active_slot_count as int;
            let c = capacity_of(log_slots as nat) as int;
            let m = multiplier_at(active_slot_count as nat, log_slots as nat);
            &&& 2 * a < c ==> m == 1
            &&& c <= 2 * a && 4 * a < 3 * c ==> m == 2
            &&& 3 * c <= 4 * a && 10 * a < 9 * c ==> m == 4
            &&& 9 * c <= 10 * a ==> m == 8
        }),
{
    lemma_capacity_grows(log_slots as nat);
    let x = active_slot_count as int * 10_000;
    let c = capacity_of(log_slots as nat) as int;
    lemma_quotient_at_least(x, c, 5000);
    lemma_quotient_at_least(x, c, 7500);
    lemma_quotient_at_least(x, c, 9000);
    assert(occupancy_at(active_slot_count as nat, log_slots as nat) == x / c);
}


/// Occupancy is the share of the `2^log_slots` slots that are live, in
/// basis points rounded down: the largest `o` with `o * 2^log_slots` at
/// most `10_000` times the live slots.
pub proof fn law_occupancy_in_basis_points(active_slot_count: u64, log_slots: u32)
    requires
        log_slots < 128,
        occupancy_exact(active_slot_count as nat, log_slots as nat),
    ensures
        ({
            let c = pow2(log_slots as nat) as int;
            let o = occupancy_at(active_slot_count as nat, log_slots as nat) as int;
            &&& o * c <= active_slot_count * 10_000
            &&& active_slot_count * 10_000 < (o + 1) * c
        }),
{
    vstd::arithmetic::power2::lemma_pow2_pos(log_slots as nat);
    let x = active_slot_count as int * 10_000;
    let c = pow2(log_slots as nat) as int;
    vstd::arithmetic::div_mod::lemma_fundamental_div_mod(x, c);
    vstd::arithmetic::div_mod::lemma_mod_pos_bound(x, c);
    let q = x / c;
    assert(occupancy_at(active_slot_count as nat, log_slots as nat) == q);
    assert(q * c == c * q) by (nonlinear_arith);
    assert((q + 1) * c == c * q + c) by (nonlinear_arith);
}

} // verus!

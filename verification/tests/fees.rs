use parano1d_permanode::fees::{
    fee_breakdown, occupancy_bps, pressure_multiplier, saturating_mul_u64, state_growth_fee_per_slot,
};

const CAP_24: u64 = 1 << 24;

#[test]
fn one_in_two_out_by_pressure_tier() {
    // Fixed part 5 000 + 100 + 2 x 700 = 6 500, plus one net-new slot.
    for (active, total, burn) in [
        (0, 9_000, 2_500),
        (CAP_24 / 2 - 1, 9_000, 2_500),
        (CAP_24 / 2, 11_500, 5_000),
        (CAP_24 / 4 * 3, 16_500, 10_000),
        ((CAP_24 * 9).div_ceil(10), 26_500, 20_000),
    ] {
        let b = fee_breakdown(total, 1, 2, active, 24);
        assert_eq!(b.required_total, total, "active {active}");
        assert_eq!(b.burned, burn);
        assert_eq!(b.tip, 0);
        assert_eq!(b.to_miner, total - burn);
    }
}

#[test]
fn no_growth_no_burn() {
    let b = fee_breakdown(5_800, 1, 1, 0, 24);
    assert_eq!(b.required_total, 5_800);
    assert_eq!(b.burned, 0);
    // consolidation, overpaid: 5 000 + 300 + 1 400 = 6 700, tip 1 400
    let b = fee_breakdown(8_100, 3, 2, 0, 24);
    assert_eq!((b.required_total, b.burned, b.tip, b.to_miner), (6_700, 0, 1_400, 8_100));
}

#[test]
fn overpaid_send_keeps_burn_fixed() {
    // block 117410 on chain: 1 -> 2 paying 9 900
    let b = fee_breakdown(9_900, 1, 2, 49_000, 24);
    assert_eq!((b.burned, b.tip, b.to_miner, b.multiplier), (2_500, 900, 7_400, 1));
}

#[test]
fn multiplier_thresholds_are_inclusive() {
    assert_eq!(pressure_multiplier(CAP_24 / 2 - 1, 24), 1);
    assert_eq!(pressure_multiplier(CAP_24 / 2, 24), 2);
    assert_eq!(pressure_multiplier(CAP_24 / 4 * 3, 24), 4);
    // 90 % of 2^24 is not an integer: 15 099 494 is still 8 999 bps
    assert_eq!(pressure_multiplier(CAP_24 * 9 / 10, 24), 4);
    assert_eq!(pressure_multiplier((CAP_24 * 9).div_ceil(10), 24), 8);
    // after an expansion the same set is half as crowded
    assert_eq!(pressure_multiplier(CAP_24 / 4 * 3, 25), 1);
}

#[test]
fn occupancy_in_basis_points() {
    assert_eq!(occupancy_bps(0, 24), 0);
    assert_eq!(occupancy_bps(CAP_24, 24), 10_000);
    assert_eq!(occupancy_bps(CAP_24 / 2, 24), 5_000);
    assert_eq!(occupancy_bps(CAP_24 * 9 / 10, 24), 8_999);
    assert_eq!(occupancy_bps(3, 0), 30_000);
    assert_eq!(occupancy_bps(u64::MAX, 200), 0);
    assert_eq!(occupancy_bps(1 << 40, 40), 10_000);
}

#[test]
fn burn_per_slot_by_tier() {
    assert_eq!(state_growth_fee_per_slot(0, 24), 2_500);
    assert_eq!(state_growth_fee_per_slot(CAP_24 / 2, 24), 5_000);
    assert_eq!(state_growth_fee_per_slot(CAP_24 / 4 * 3, 24), 10_000);
    assert_eq!(state_growth_fee_per_slot(CAP_24, 24), 20_000);
}

#[test]
fn fee_split_adds_up() {
    for (fee, ins, outs, active) in [(0u64, 1u64, 5u64, 0u64), (9_900, 1, 2, 49_000), (1_000_000, 2, 9, CAP_24),
        (u64::MAX, 0, 3, CAP_24 / 2)] {
        let b = fee_breakdown(fee, ins, outs, active, 24);
        assert_eq!(b.base, 5_000);
        assert_eq!(b.input, 100 * ins);
        assert_eq!(b.output, 700 * outs);
        assert_eq!(b.net_new_slots, outs.saturating_sub(ins));
        assert_eq!(b.burned, 2_500 * b.multiplier * b.net_new_slots);
        assert_eq!(b.required_total, 5_000 + 100 * ins + 700 * outs + b.burned);
        if fee >= b.burned {
            assert_eq!(b.burned + b.to_miner, fee);
        } else {
            assert_eq!(b.to_miner, 0);
        }
        if fee >= b.required_total {
            assert_eq!(b.required_total + b.tip, fee);
        } else {
            assert_eq!(b.tip, 0);
        }
    }
}

#[test]
fn underpaid_fee_gets_no_tip() {
    let b = fee_breakdown(1_000, 1, 2, 0, 24);
    assert_eq!((b.required_total, b.burned, b.tip, b.to_miner), (9_000, 2_500, 0, 0));
}

#[test]
fn huge_counts_saturate() {
    let b = fee_breakdown(0, 0, u64::MAX, CAP_24, 24);
    assert_eq!(b.output, u64::MAX);
    assert_eq!(b.burned, u64::MAX);
    assert_eq!(b.required_total, u64::MAX);
    assert_eq!(saturating_mul_u64(u64::MAX, 2), u64::MAX);
    assert_eq!(saturating_mul_u64(3, 7), 21);
}

use parano1d_permanode::emission::{
    block_reward, development_allocation_active, development_payout, emitted_range, emitted_up_to, expansions_usable,
    miner_subsidy, BLOCKS_PER_DAY, DEVELOPMENT_ALLOCATION_END_HEIGHT,
};

#[test]
fn schedule_matches_the_node() {
    assert_eq!(block_reward(24), 50_000_000);
    assert_eq!(block_reward(25), 25_000_000);
    assert_eq!(block_reward(30), 1_000_000);
    assert_eq!(block_reward(40), 1_000_000);
    assert_eq!(miner_subsidy(1, 24), 45_000_000);
    assert_eq!(miner_subsidy(DEVELOPMENT_ALLOCATION_END_HEIGHT + 1, 24), 50_000_000);
    assert_eq!(development_payout(4320, 24), 21_600_000_000);
    assert_eq!(development_payout(4321, 24), 0);
}

#[test]
fn emission_sums_block_by_block() {
    let expansions = [10u64];
    for h in [0u64, 1, 5, 9, 10, 11, 4319, 4320, 4321, 8640, 12_345] {
        let mut expected: u128 = 0;
        let mut log_slots = 24;
        for height in 1..=h {
            if expansions.contains(&height) {
                log_slots += 1;
            }
            expected += (miner_subsidy(height, log_slots) + development_payout(height, log_slots)) as u128;
        }
        assert_eq!(emitted_up_to(h, &expansions), expected, "height {h}");
        let mut expected_plain: u128 = 0;
        for height in 1..=h {
            expected_plain += (miner_subsidy(height, 24) + development_payout(height, 24)) as u128;
        }
        assert_eq!(emitted_up_to(h, &[]), expected_plain, "height {h} without expansions");
    }
}

#[test]
fn reward_halves_per_expansion_down_to_the_floor() {
    assert_eq!(block_reward(0), 50_000_000);
    assert_eq!(block_reward(23), 50_000_000);
    assert_eq!(block_reward(26), 12_500_000);
    assert_eq!(block_reward(27), 6_250_000);
    assert_eq!(block_reward(28), 3_125_000);
    assert_eq!(block_reward(29), 1_562_500);
    assert_eq!(block_reward(30), 1_000_000);
    assert_eq!(block_reward(u32::MAX), 1_000_000);
    for ls in 24..40u32 {
        let r = block_reward(ls);
        let next = block_reward(ls + 1);
        assert!(next == r / 2 || next == 1_000_000);
    }
}

#[test]
fn development_period_edges() {
    assert!(!development_allocation_active(0));
    assert!(development_allocation_active(1));
    assert!(development_allocation_active(DEVELOPMENT_ALLOCATION_END_HEIGHT));
    assert!(!development_allocation_active(DEVELOPMENT_ALLOCATION_END_HEIGHT + 1));
    // genesis mints nothing
    assert_eq!(miner_subsidy(0, 24), 0);
    assert_eq!(miner_subsidy(0, 30), 0);
    assert_eq!(miner_subsidy(DEVELOPMENT_ALLOCATION_END_HEIGHT, 24), 45_000_000);
    assert_eq!(miner_subsidy(100, 25), 22_500_000);
    // payouts on every 4,320th block inside the period only
    assert_eq!(development_payout(0, 24), 0);
    assert_eq!(development_payout(BLOCKS_PER_DAY * 2, 25), 2 * 1_250_000 * BLOCKS_PER_DAY);
    assert_eq!(development_payout(DEVELOPMENT_ALLOCATION_END_HEIGHT, 24), 21_600_000_000);
    assert_eq!(development_payout(DEVELOPMENT_ALLOCATION_END_HEIGHT + BLOCKS_PER_DAY, 24), 0);
}

#[test]
fn emitted_range_matches_the_block_by_block_sum() {
    for (from, to, ls) in [(1u64, 1u64, 24u32), (1, 4320, 24), (4000, 9000, 25), (10, 5, 24),
        (DEVELOPMENT_ALLOCATION_END_HEIGHT - 5000, DEVELOPMENT_ALLOCATION_END_HEIGHT + 7, 24)] {
        let mut expected: u128 = 0;
        for h in from..=to {
            expected += (miner_subsidy(h, ls) + development_payout(h, ls)) as u128;
        }
        assert_eq!(emitted_range(from, to, ls), expected, "{from}..={to} at {ls}");
    }
    assert_eq!(emitted_range(1, 4320, 24), 4320 * 45_000_000 + 21_600_000_000);
    assert_eq!(emitted_range(5, 4, 24), 0);
}

#[test]
fn emitted_up_to_with_several_expansions() {
    let expansions = [3u64, 3, 7];
    let mut expected: u128 = 0;
    let mut ls: u32 = 24;
    for h in 1..=20u64 {
        ls += expansions.iter().filter(|&&e| e == h).count() as u32;
        expected += (miner_subsidy(h, ls) + development_payout(h, ls)) as u128;
    }
    assert_eq!(emitted_up_to(20, &expansions), expected);
    assert_eq!(emitted_up_to(0, &expansions), 0);
    assert_eq!(emitted_up_to(2, &expansions), 2 * 45_000_000);
}

#[test]
fn without_expansions_the_total_is_one_range() {
    assert_eq!(emitted_up_to(0, &[]), 0);
    for h in [1u64, 4320, 9_999, DEVELOPMENT_ALLOCATION_END_HEIGHT + 3] {
        assert_eq!(emitted_up_to(h, &[]), emitted_range(1, h, 24));
    }
}

#[test]
fn usable_expansion_lists() {
    assert!(expansions_usable(100, &[]));
    assert!(expansions_usable(100, &[10, 10, 4000]));
    assert!(!expansions_usable(100, &[0, 5]));
    assert!(!expansions_usable(100, &[7, 5]));
}

#[test]
fn expansions_above_the_height_change_nothing() {
    assert_eq!(emitted_up_to(5_000, &[10, 9_000, 20_000]), emitted_up_to(5_000, &[10]));
    assert_eq!(emitted_up_to(9, &[10]), emitted_up_to(9, &[]));
    assert!(expansions_usable(5, &[10; 100]));
}

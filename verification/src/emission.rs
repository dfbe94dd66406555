//! The protocol's emission schedule: a 50 NOID block subsidy at log_slots 24,
//! halved with every state expansion and floored at 1 NOID; during the first
//! three target-time years the miner receives 90% of it and every 4,320th
//! block pays the two development funds 5% of a day's subsidy each.
use vstd::prelude::*;
use vstd::arithmetic::power2::pow2;

verus! {

pub const MICRONOID_PER_NOID: u64 = 1_000_000;
pub const BASE_REWARD_MICRONOID: u64 = 50_000_000;
pub const FLOOR_REWARD_MICRONOID: u64 = 1_000_000;
pub const LOG_SLOTS_GENESIS: u32 = 24;
pub const BLOCKS_PER_DAY: u64 = 4320;
pub const DEVELOPMENT_ALLOCATION_END_HEIGHT: u64 = 4_730_400;
pub const DEVELOPMENT_SHARE_DENOMINATOR: u64 = 20;

/// Expansions since genesis at a state size of `log_slots`.
pub open spec fn halvings(log_slots: nat) -> nat {
    if log_slots > LOG_SLOTS_GENESIS { (log_slots - LOG_SLOTS_GENESIS) as nat } else { 0 }
}

/// Subsidy per block: the base reward halved once per expansion, never
/// below the floor.
pub open spec fn reward_at(log_slots: nat) -> nat {
    let halved = BASE_REWARD_MICRONOID as nat / pow2(halvings(log_slots));
    if halved >= FLOOR_REWARD_MICRONOID { halved } else { FLOOR_REWARD_MICRONOID as nat }
}

/// Subsidy per block at a given state size.
pub fn block_reward(log_slots: u32) -> (r: u64)
    ensures
        r == reward_at(log_slots as nat),
        FLOOR_REWARD_MICRONOID <= r <= BASE_REWARD_MICRONOID,
{
    let h: u32 = log_slots.saturating_sub(LOG_SLOTS_GENESIS);
    let shift: u64 = if h < 63 { h as u64 } else { 63 };
    let halved: u64 = BASE_REWARD_MICRONOID >> shift;
    proof {
        vstd::bits::lemma_u64_shr_is_div(BASE_REWARD_MICRONOID, shift);
        lemma_base_halved_below_floor(halvings(log_slots as nat), shift as nat);
        vstd::arithmetic::power2::lemma_pow2_pos(shift as nat);
        vstd::arithmetic::div_mod::lemma_div_is_ordered_by_denominator(
            BASE_REWARD_MICRONOID as int, 1, pow2(shift as nat) as int);
    }
    if halved >= FLOOR_REWARD_MICRONOID { halved } else { FLOOR_REWARD_MICRONOID }
}

/// From the sixth halving on the subsidy sits at the floor, so clamping the
/// shift at 63 changes nothing.
proof fn lemma_base_halved_below_floor(h: nat, shift: nat)
    requires
        shift == (if h < 63 { h } else { 63 }),
    ensures
        (BASE_REWARD_MICRONOID as nat / pow2(shift) >= FLOOR_REWARD_MICRONOID)
            == (BASE_REWARD_MICRONOID as nat / pow2(h) >= FLOOR_REWARD_MICRONOID),
        BASE_REWARD_MICRONOID as nat / pow2(shift) >= FLOOR_REWARD_MICRONOID ==> shift == h,
{
    vstd::arithmetic::power2::lemma2_to64();
    if h >= 6 {
        if h > 6 { vstd::arithmetic::power2::lemma_pow2_strictly_increases(6, h); }
        if shift > 6 { vstd::arithmetic::power2::lemma_pow2_strictly_increases(6, shift); }
        vstd::arithmetic::div_mod::lemma_div_is_ordered_by_denominator(
            BASE_REWARD_MICRONOID as int, 64, pow2(h) as int);
        vstd::arithmetic::div_mod::lemma_div_is_ordered_by_denominator(
            BASE_REWARD_MICRONOID as int, 64, pow2(shift) as int);
    }
}

pub open spec fn allocation_active(height: nat) -> bool {
    0 < height && height <= DEVELOPMENT_ALLOCATION_END_HEIGHT
}

pub fn development_allocation_active(height: u64) -> (r: bool)
    ensures
        r == allocation_active(height as nat),
{
    height > 0 && height <= DEVELOPMENT_ALLOCATION_END_HEIGHT
}

/// One development fund's 5% share of a block's subsidy.
pub open spec fn fund_share(log_slots: nat) -> nat {
    reward_at(log_slots) / DEVELOPMENT_SHARE_DENOMINATOR as nat
}

/// What the miner's coinbase mints at `height`, fees aside; genesis mints
/// nothing.
pub open spec fn miner_subsidy_at(height: nat, log_slots: nat) -> nat {
    if height == 0 {
        0
    } else if allocation_active(height) {
        (reward_at(log_slots) - 2 * fund_share(log_slots)) as nat
    } else {
        reward_at(log_slots)
    }
}

/// The development payout minted at `height` on top of the coinbase.
pub open spec fn development_payout_at(height: nat, log_slots: nat) -> nat {
    if allocation_active(height) && height % BLOCKS_PER_DAY as nat == 0 {
        2 * fund_share(log_slots) * BLOCKS_PER_DAY as nat
    } else {
        0
    }
}

/// Everything minted at `height`.
pub open spec fn minted_at(height: nat, log_slots: nat) -> nat {
    miner_subsidy_at(height, log_slots) + development_payout_at(height, log_slots)
}

/// What the miner's coinbase mints at `height`, fees aside; nothing at
/// genesis.
pub fn miner_subsidy(height: u64, log_slots: u32) -> (r: u64)
    ensures
        r == miner_subsidy_at(height as nat, log_slots as nat),
        height == 0 ==> r == 0,
        allocation_active(height as nat) ==> r + 2 * fund_share(log_slots as nat) == reward_at(log_slots as nat),
        height > 0 && !allocation_active(height as nat) ==> r == reward_at(log_slots as nat),
{
    let subsidy = block_reward(log_slots);
    if height == 0 {
        0
    } else if development_allocation_active(height) {
        subsidy - 2 * (subsidy / DEVELOPMENT_SHARE_DENOMINATOR)
    } else {
        subsidy
    }
}

/// Development payout minted at `height` on top of the coinbase (both funds
/// together), zero on all but every 4,320th block of the allocation period.
pub fn development_payout(height: u64, log_slots: u32) -> (r: u64)
    ensures
        r == development_payout_at(height as nat, log_slots as nat),
{
    if development_allocation_active(height) && height % BLOCKS_PER_DAY == 0 {
        2 * (block_reward(log_slots) / DEVELOPMENT_SHARE_DENOMINATOR) * BLOCKS_PER_DAY
    } else {
        0
    }
}


/// Everything minted at heights `from..=to` while the state size stays at
/// `log_slots`.
pub open spec fn minted_between(from: nat, to: nat, log_slots: nat) -> nat
    decreases to,
{
    if to < from {
        0
    } else if to == from {
        minted_at(to, log_slots)
    } else {
        minted_between(from, (to - 1) as nat, log_slots) + minted_at(to, log_slots)
    }
}

/// How many of the listed expansion heights lie at or below `height`.
pub open spec fn expansions_reached(expansions: Seq<u64>, height: nat) -> nat
    decreases expansions.len(),
{
    if expansions.len() == 0 {
        0
    } else {
        expansions_reached(expansions.drop_last(), height)
            + (if expansions.last() <= height { 1nat } else { 0nat })
    }
}

/// The state size in force at `height`, given the heights at which it
/// first reached 25, 26, ...
pub open spec fn log_slots_at(height: nat, expansions: Seq<u64>) -> nat {
    LOG_SLOTS_GENESIS as nat + expansions_reached(expansions, height)
}

/// Total minted for heights `1..=height`, summed block by block with the
/// state size each block had.
pub open spec fn emitted_through(height: nat, expansions: Seq<u64>) -> nat
    decreases height,
{
    if height == 0 {
        0
    } else {
        emitted_through((height - 1) as nat, expansions)
            + minted_at(height, log_slots_at(height, expansions))
    }
}

/// Expansion heights as the node reports them: ascending, none at genesis.
pub open spec fn valid_expansions(expansions: Seq<u64>) -> bool {
    &&& forall|i: int| 0 <= i < expansions.len() ==> expansions[i] >= 1
    &&& forall|i: int, j: int| 0 <= i <= j < expansions.len() ==> expansions[i] <= expansions[j]
}

spec fn dev_end(to: nat) -> nat {
    if to < DEVELOPMENT_ALLOCATION_END_HEIGHT as nat { to } else { DEVELOPMENT_ALLOCATION_END_HEIGHT as nat }
}

spec fn dev_blocks(from: nat, to: nat) -> int {
    if dev_end(to) >= from { dev_end(to) - from + 1 } else { 0 }
}

spec fn plain_blocks(from: nat, to: nat) -> int {
    (to - from + 1) - dev_blocks(from, to)
}

spec fn payout_count(from: nat, to: nat) -> int {
    if dev_end(to) >= from {
        (dev_end(to) / BLOCKS_PER_DAY as nat) as int - ((from - 1) / BLOCKS_PER_DAY as int)
    } else {
        0
    }
}

/// The sum of `minted_between`, closed: blocks inside the allocation
/// period mint 90% to the miner plus a payout every 4,320th block, later
/// blocks the whole subsidy.
spec fn closed_form(from: nat, to: nat, log_slots: nat) -> int {
    let subsidy = reward_at(log_slots) as int;
    let share = fund_share(log_slots) as int;
    dev_blocks(from, to) * (subsidy - 2 * share)
        + payout_count(from, to) * (2 * share * BLOCKS_PER_DAY)
        + plain_blocks(from, to) * subsidy
}

proof fn lemma_linear3(a: int, b: int, c: int, da: int, db: int, dc: int, x: int, y: int, z: int)
    ensures
        (a + da) * x + (b + db) * y + (c + dc) * z == (a * x + b * y + c * z) + (da * x + db * y + dc * z),
{
    assert((a + da) * x + (b + db) * y + (c + dc) * z == (a * x + b * y + c * z) + (da * x + db * y + dc * z))
        by (nonlinear_arith);
}

proof fn lemma_unit_scale(k: int, x: int)
    ensures
        k == 0 ==> k * x == 0,
        k == 1 ==> k * x == x,
{
}

proof fn lemma_share_bounds(log_slots: nat)
    ensures
        FLOOR_REWARD_MICRONOID <= reward_at(log_slots) <= BASE_REWARD_MICRONOID,
        2 * fund_share(log_slots) <= reward_at(log_slots),
        fund_share(log_slots) <= 2_500_000,
{
    vstd::arithmetic::power2::lemma_pow2_pos(halvings(log_slots));
    vstd::arithmetic::div_mod::lemma_div_is_ordered_by_denominator(
        BASE_REWARD_MICRONOID as int, 1, pow2(halvings(log_slots)) as int);
}

proof fn lemma_day_boundary(to: nat)
    requires
        to >= 1,
    ensures
        (to / BLOCKS_PER_DAY as nat) as int - ((to - 1) as nat / BLOCKS_PER_DAY as nat) as int
            == (if to % BLOCKS_PER_DAY as nat == 0 { 1int } else { 0int }),
{
    let d = BLOCKS_PER_DAY as int;
    vstd::arithmetic::div_mod::lemma_fundamental_div_mod(to as int, d);
    vstd::arithmetic::div_mod::lemma_fundamental_div_mod(to - 1, d);
    vstd::arithmetic::div_mod::lemma_mod_bound(to as int, d);
    vstd::arithmetic::div_mod::lemma_mod_bound(to - 1, d);
    let q = to as int / d;
    let q1 = (to - 1) / d;
    assert(q1 <= q && q <= q1 + 1) by (nonlinear_arith)
        requires
            to == d * q + to as int % d,
            to - 1 == d * q1 + (to - 1) % d,
            0 <= to as int % d < d,
            0 <= (to - 1) % d < d,
            d > 0,
    ;
}

/// The closed form grows by exactly what the next block mints.
proof fn lemma_closed_form_step(from: nat, to: nat, log_slots: nat)
    requires
        1 <= from < to,
    ensures
        closed_form(from, to, log_slots) == closed_form(from, (to - 1) as nat, log_slots) + minted_at(to, log_slots),
{
    let subsidy = reward_at(log_slots) as int;
    let share = fund_share(log_slots) as int;
    let t1 = (to - 1) as nat;
    lemma_day_boundary(to);
    let da = dev_blocks(from, to) - dev_blocks(from, t1);
    let db = payout_count(from, to) - payout_count(from, t1);
    let dc = plain_blocks(from, to) - plain_blocks(from, t1);
    lemma_linear3(dev_blocks(from, t1), payout_count(from, t1), plain_blocks(from, t1), da, db, dc,
        subsidy - 2 * share, 2 * share * BLOCKS_PER_DAY, subsidy);
    if to <= DEVELOPMENT_ALLOCATION_END_HEIGHT as nat {
        assert(da == 1 && dc == 0);
        assert(db == (if to % BLOCKS_PER_DAY as nat == 0 { 1int } else { 0int }));
    } else {
        assert(da == 0 && db == 0 && dc == 1);
    }
    lemma_unit_scale(da, subsidy - 2 * share);
    lemma_unit_scale(db, 2 * share * BLOCKS_PER_DAY);
    lemma_unit_scale(dc, subsidy);
}

proof fn lemma_closed_form_sums(from: nat, to: nat, log_slots: nat)
    requires
        1 <= from <= to + 1,
    ensures
        closed_form(from, to, log_slots) == minted_between(from, to, log_slots),
    decreases to,
{
    let subsidy = reward_at(log_slots) as int;
    let share = fund_share(log_slots) as int;
    if to < from {
        assert(dev_blocks(from, to) == 0 && plain_blocks(from, to) == 0 && payout_count(from, to) == 0);
        lemma_unit_scale(0, subsidy - 2 * share);
        lemma_unit_scale(0, 2 * share * BLOCKS_PER_DAY);
        lemma_unit_scale(0, subsidy);
    } else if to == from {
        lemma_day_boundary(to);
        lemma_linear3(0, 0, 0, dev_blocks(from, to), payout_count(from, to), plain_blocks(from, to),
            subsidy - 2 * share, 2 * share * BLOCKS_PER_DAY, subsidy);
        if to <= DEVELOPMENT_ALLOCATION_END_HEIGHT as nat {
            assert(dev_blocks(from, to) == 1 && plain_blocks(from, to) == 0);
        } else {
            assert(dev_blocks(from, to) == 0 && plain_blocks(from, to) == 1 && payout_count(from, to) == 0);
        }
        lemma_unit_scale(dev_blocks(from, to), subsidy - 2 * share);
        lemma_unit_scale(payout_count(from, to), 2 * share * BLOCKS_PER_DAY);
        lemma_unit_scale(plain_blocks(from, to), subsidy);
    } else {
        lemma_closed_form_step(from, to, log_slots);
        lemma_closed_form_sums(from, (to - 1) as nat, log_slots);
    }
}

/// Total µNOID minted for heights `from..=to` at a fixed state size.
pub fn emitted_range(from: u64, to: u64, log_slots: u32) -> (r: u128)
    requires
        from >= 1,
    ensures
        r == minted_between(from as nat, to as nat, log_slots as nat),
{
    if to < from {
        return 0;
    }
    let subsidy = block_reward(log_slots) as u128;
    let share = (block_reward(log_slots) / DEVELOPMENT_SHARE_DENOMINATOR) as u128;
    let n = (to - from + 1) as u128;
    // blocks inside the development period get 90% to the miner + daily payouts
    let dev_to = if to < DEVELOPMENT_ALLOCATION_END_HEIGHT { to } else { DEVELOPMENT_ALLOCATION_END_HEIGHT };
    let dev_n: u128 = if dev_to >= from { (dev_to - from + 1) as u128 } else { 0 };
    let plain_n = n - dev_n;
    let payout_blocks: u128 = if dev_to >= from {
        ((dev_to / BLOCKS_PER_DAY) - ((from - 1) / BLOCKS_PER_DAY)) as u128
    } else {
        0
    };
    proof {
        lemma_share_bounds(log_slots as nat);
        assert(dev_n * (subsidy - 2 * share) <= 0x1_0000_0000_0000_0000 * 0x1_0000_0000) by (nonlinear_arith)
            requires dev_n <= 0x1_0000_0000_0000_0000, subsidy - 2 * share <= 0x1_0000_0000;
        assert(payout_blocks * 2 * share <= 0x1_0000_0000_0000_0000 * 2 * 0x1_0000_0000) by (nonlinear_arith)
            requires payout_blocks <= 0x1_0000_0000_0000_0000, share <= 0x1_0000_0000;
        assert(payout_blocks * 2 * share * 4320 <= 0x1_0000_0000_0000_0000 * 2 * 0x1_0000_0000 * 4320) by (nonlinear_arith)
            requires payout_blocks * 2 * share <= 0x1_0000_0000_0000_0000 * 2 * 0x1_0000_0000;
        assert(plain_n * subsidy <= 0x1_0000_0000_0000_0000 * 0x1_0000_0000) by (nonlinear_arith)
            requires plain_n <= 0x1_0000_0000_0000_0000, subsidy <= 0x1_0000_0000;
        lemma_closed_form_sums(from as nat, to as nat, log_slots as nat);
        assert(payout_blocks * 2 * share * 4320 == payout_blocks * (2 * share * 4320)) by (nonlinear_arith);
        assert(dev_n == dev_blocks(from as nat, to as nat));
        assert(payout_blocks == payout_count(from as nat, to as nat));
        assert(plain_n == plain_blocks(from as nat, to as nat));
    }
    dev_n * (subsidy - 2 * share) + payout_blocks * 2 * share * (BLOCKS_PER_DAY as u128) + plain_n * subsidy
}


proof fn lemma_reached_count(expansions: Seq<u64>, height: nat, j: nat)
    requires
        j <= expansions.len(),
        forall|i: int| 0 <= i < j ==> expansions[i] <= height,
        forall|i: int| j <= i < expansions.len() ==> expansions[i] > height,
    ensures
        expansions_reached(expansions, height) == j,
    decreases expansions.len(),
{
    if expansions.len() > 0 {
        let rest = expansions.drop_last();
        if j == expansions.len() {
            lemma_reached_count(rest, height, (j - 1) as nat);
        } else {
            lemma_reached_count(rest, height, j);
        }
    }
}

proof fn lemma_minted_bound(height: nat, log_slots: nat)
    ensures
        minted_at(height, log_slots) <= 0x8_0000_0000,
{
    lemma_share_bounds(log_slots);
}

proof fn lemma_emitted_bound(height: nat, expansions: Seq<u64>)
    ensures
        emitted_through(height, expansions) <= height * 0x8_0000_0000,
    decreases height,
{
    if height > 0 {
        lemma_emitted_bound((height - 1) as nat, expansions);
        lemma_minted_bound(height, log_slots_at(height, expansions));
    }
}

/// Where the state size stays fixed over `from..=to`, the block-by-block
/// total over that stretch is `minted_between`.
proof fn lemma_emitted_split(from: nat, to: nat, expansions: Seq<u64>, log_slots: nat)
    requires
        1 <= from <= to + 1,
        forall|k: nat| from <= k <= to ==> log_slots_at(k, expansions) == log_slots,
    ensures
        emitted_through(to, expansions) == emitted_through((from - 1) as nat, expansions)
            + minted_between(from, to, log_slots),
    decreases to,
{
    if to >= from {
        lemma_emitted_split(from, (to - 1) as nat, expansions, log_slots);
    }
}

/// Whether `emitted_up_to` takes this expansion list for `height`:
/// ascending, none at genesis, and few enough reached by `height` for the
/// state size to stay in range.
pub fn expansions_usable(height: u64, expansions: &[u64]) -> (r: bool)
    ensures
        r == (valid_expansions(expansions@)
            && expansions_reached(expansions@, height as nat) + LOG_SLOTS_GENESIS < u32::MAX),
{
    let mut reached: u64 = 0;
    let mut i: usize = 0;
    while i < expansions.len()
        invariant
            i <= expansions@.len(),
            reached == expansions_reached(expansions@.take(i as int), height as nat),
            reached <= i,
            forall|j: int| 0 <= j < i ==> expansions@[j] >= 1,
            forall|a: int, b: int| 0 <= a <= b < i ==> expansions@[a] <= expansions@[b],
        decreases expansions.len() - i,
    {
        if expansions[i] < 1 {
            return false;
        }
        if i > 0 && expansions[i - 1] > expansions[i] {
            proof {
                assert(expansions@[i - 1] > expansions@[i as int]);
            }
            return false;
        }
        proof {
            assert forall|a: int, b: int| 0 <= a <= b < i + 1 implies expansions@[a] <= expansions@[b] by {
                if b == i && a < i {
                    assert(expansions@[a] <= expansions@[i - 1]);
                }
            }
            assert(expansions@.take(i + 1).drop_last() == expansions@.take(i as int));
        }
        if expansions[i] <= height {
            reached = reached + 1;
        }
        i += 1;
    }
    proof {
        assert(expansions@.take(i as int) == expansions@);
    }
    reached < (u32::MAX - LOG_SLOTS_GENESIS) as u64
}

/// Total µNOID minted for heights `1..=height`. `expansions` lists the first
/// height at which log_slots reached 25, 26, ... (ascending); empty while
/// the state has never expanded.
pub fn emitted_up_to(height: u64, expansions: &[u64]) -> (total: u128)
    requires
        height < u64::MAX,
        valid_expansions(expansions@),
        expansions_reached(expansions@, height as nat) + LOG_SLOTS_GENESIS < u32::MAX,
    ensures
        total == emitted_through(height as nat, expansions@),
{
    let ghost exps = expansions@;
    let mut total: u128 = 0;
    let mut start: u64 = 1;
    let mut log_slots: u32 = LOG_SLOTS_GENESIS;
    let mut bounds: Vec<u64> = Vec::new();
    let mut k: usize = 0;
    while k < expansions.len()
        invariant
            exps == expansions@,
            valid_expansions(exps),
            k <= exps.len(),
            bounds@.len() <= k,
            forall|i: int| 0 <= i < bounds@.len() ==> bounds@[i] == exps[i] && exps[i] <= height,
            forall|i: int| bounds@.len() <= i < k ==> exps[i] > height,
        decreases expansions.len() - k,
    {
        if expansions[k] <= height {
            proof {
                if bounds@.len() < k {
                    assert(exps[bounds@.len() as int] > height);
                }
            }
            bounds.push(expansions[k]);
        }
        k += 1;
    }
    let ghost m = bounds@.len();
    proof {
        lemma_reached_count(exps, height as nat, m);
    }
    bounds.push(height + 1);
    let mut j: usize = 0;
    while j < bounds.len()
        invariant
            exps == expansions@,
            valid_expansions(exps),
            m < exps.len() + 1,
            m + LOG_SLOTS_GENESIS < u32::MAX,
            bounds@.len() == m + 1,
            bounds@[m as int] == height + 1,
            height < u64::MAX,
            forall|i: int| 0 <= i < m ==> bounds@[i] == exps[i] && exps[i] <= height,
            forall|i: int| m <= i < exps.len() ==> exps[i] > height,
            j <= m + 1,
            log_slots == LOG_SLOTS_GENESIS + j,
            j == 0 ==> start == 1,
            j > 0 ==> start == bounds@[j - 1],
            1 <= start,
            total == emitted_through((start - 1) as nat, exps),
        decreases bounds.len() - j,
    {
        let next = bounds[j];
        proof {
            if j > 0 && j < m {
                assert(exps[j - 1] <= exps[j as int]);
            }
        }
        if next > start {
            proof {
                assert forall|h: nat| start <= h <= next - 1 implies
                    log_slots_at(h, exps) == log_slots as nat by {
                    assert forall|i: int| 0 <= i < j implies exps[i] <= h by {
                        assert(exps[i] <= exps[j - 1]);
                    }
                    assert forall|i: int| j <= i < exps.len() implies exps[i] > h by {
                        if i < m {
                            assert(exps[j as int] <= exps[i]);
                        }
                    }
                    lemma_reached_count(exps, h, j as nat);
                }
                lemma_emitted_split(start as nat, (next - 1) as nat, exps, log_slots as nat);
                lemma_emitted_bound((next - 1) as nat, exps);
                let x: int = next - 1;
                assert(x * 0x8_0000_0000 <= 0x1_0000_0000_0000_0000 * 0x8_0000_0000) by (nonlinear_arith)
                    requires 0 <= x <= 0x1_0000_0000_0000_0000;
            }
            // heights start..next-1 all have this log_slots
            total += emitted_range(start, next - 1, log_slots);
        }
        start = next;
        log_slots += 1;
        j += 1;
    }
    total
}


/// Each state expansion halves the block subsidy until it reaches the floor
/// of 1 NOID, where it stays; below the genesis state size it is the full
/// 50 NOID.
pub proof fn law_subsidy_halves_per_expansion(log_slots: nat)
    ensures
        log_slots <= LOG_SLOTS_GENESIS ==> reward_at(log_slots) == BASE_REWARD_MICRONOID,
        log_slots >= LOG_SLOTS_GENESIS ==> reward_at(log_slots + 1) == (
            if reward_at(log_slots) / 2 >= FLOOR_REWARD_MICRONOID {
                reward_at(log_slots) / 2
            } else {
                FLOOR_REWARD_MICRONOID as nat
            }),
{
    vstd::arithmetic::power2::lemma2_to64();
    let h = halvings(log_slots);
    if log_slots <= LOG_SLOTS_GENESIS {
        assert(pow2(0) == 1);
        assert(BASE_REWARD_MICRONOID as nat / 1 == BASE_REWARD_MICRONOID);
    }
    if log_slots >= LOG_SLOTS_GENESIS {
        assert(halvings(log_slots + 1) == h + 1);
        vstd::arithmetic::power2::lemma_pow2_unfold(h + 1);
        vstd::arithmetic::power2::lemma_pow2_pos(h);
        vstd::arithmetic::div_mod::lemma_div_denominator(BASE_REWARD_MICRONOID as int, pow2(h) as int, 2);
        assert(pow2(h) * 2 == pow2(h + 1)) by (nonlinear_arith)
            requires pow2(h + 1) == 2 * pow2(h);
    }
}

/// Genesis mints nothing, and while the state has never expanded the
/// block-by-block total up to a height is the fixed-size total over
/// `1..=height` at the genesis state size.
pub proof fn law_total_without_expansions(height: nat, log_slots: nat)
    ensures
        minted_at(0, log_slots) == 0,
        emitted_through(0, Seq::<u64>::empty()) == 0,
        emitted_through(height, Seq::<u64>::empty()) == minted_between(1, height, LOG_SLOTS_GENESIS as nat),
{
    assert forall|k: nat| 1 <= k <= height implies log_slots_at(k, Seq::<u64>::empty()) == LOG_SLOTS_GENESIS as nat by {
        assert(expansions_reached(Seq::<u64>::empty(), k) == 0);
    }
    lemma_emitted_split(1, height, Seq::<u64>::empty(), LOG_SLOTS_GENESIS as nat);
}

proof fn lemma_reached_ignores_later(expansions: Seq<u64>, later: Seq<u64>, k: nat)
    requires
        forall|i: int| 0 <= i < later.len() ==> later[i] > k,
    ensures
        expansions_reached(expansions + later, k) == expansions_reached(expansions, k),
    decreases later.len(),
{
    if later.len() == 0 {
        assert(expansions + later == expansions);
    } else {
        assert((expansions + later).drop_last() == expansions + later.drop_last());
        lemma_reached_ignores_later(expansions, later.drop_last(), k);
    }
}

/// Expansion heights above `height` never change what was emitted up to it.
pub proof fn law_later_expansions_ignored(height: nat, expansions: Seq<u64>, later: Seq<u64>)
    requires
        forall|i: int| 0 <= i < later.len() ==> later[i] > height,
    ensures
        emitted_through(height, expansions + later) == emitted_through(height, expansions),
    decreases height,
{
    if height > 0 {
        law_later_expansions_ignored((height - 1) as nat, expansions, later);
        lemma_reached_ignores_later(expansions, later, height);
    }
}


/// The subsidy in µNOID: 50 NOID up to the genesis state size, then 25,
/// 12.5, 6.25, 3.125 and 1.5625 NOID after one to five expansions, and the
/// 1 NOID floor from the sixth expansion on.
pub proof fn law_reward_schedule(log_slots: nat)
    ensures
        log_slots <= 24 ==> reward_at(log_slots) == 50_000_000,
        log_slots == 25 ==> reward_at(log_slots) == 25_000_000,
        log_slots == 26 ==> reward_at(log_slots) == 12_500_000,
        log_slots == 27 ==> reward_at(log_slots) == 6_250_000,
        log_slots == 28 ==> reward_at(log_slots) == 3_125_000,
        log_slots == 29 ==> reward_at(log_slots) == 1_562_500,
        log_slots >= 30 ==> reward_at(log_slots) == 1_000_000,
{
    vstd::arithmetic::power2::lemma2_to64();
    let h = halvings(log_slots);
    if log_slots <= 24 {
        assert(50_000_000nat / pow2(0) == 50_000_000);
    }
    if log_slots == 25 {
        assert(50_000_000nat / pow2(1) == 25_000_000);
    }
    if log_slots >= 30 {
        if h > 6 {
            vstd::arithmetic::power2::lemma_pow2_strictly_increases(6, h);
        }
        vstd::arithmetic::div_mod::lemma_div_is_ordered_by_denominator(50_000_000, 64, pow2(h) as int);
    }
}

/// During the development allocation, heights 1 to 4,730,400, the miner
/// receives the subsidy less two 5% shares, and every 4,320th block pays
/// the two funds their shares for a whole day; outside it the miner
/// receives the whole subsidy (nothing at genesis) and no payout is made.
pub proof fn law_development_split(height: nat, log_slots: nat)
    ensures
        height == 0 ==> miner_subsidy_at(height, log_slots) == 0,
        1 <= height <= 4_730_400 ==> miner_subsidy_at(height, log_slots)
            == reward_at(log_slots) - 2 * (reward_at(log_slots) / 20),
        height > 4_730_400 ==> miner_subsidy_at(height, log_slots) == reward_at(log_slots),
        development_payout_at(height, log_slots) == (if 1 <= height <= 4_730_400 && height % 4320 == 0 {
            2 * (reward_at(log_slots) / 20) * 4320
        } else {
            0
        }),
{
}

/// What the listed expansions say of a height counts each of them once:
/// one more expansion height counts if it is reached and not otherwise.
pub proof fn law_expansions_reached_count_each(expansions: Seq<u64>, e: u64, height: nat)
    ensures
        expansions_reached(Seq::<u64>::empty(), height) == 0,
        expansions_reached(expansions.push(e), height)
            == expansions_reached(expansions, height) + (if e <= height { 1int } else { 0 }),
{
    assert(expansions.push(e).drop_last() == expansions);
}

/// The total emitted grows block by block: nothing through genesis, and
/// each further height adds exactly what it mints at the state size then
/// in force; likewise for a run of heights at one state size.
pub proof fn law_emission_adds_each_block(height: nat, expansions: Seq<u64>, from: nat, log_slots: nat)
    ensures
        emitted_through(0, expansions) == 0,
        emitted_through(height + 1, expansions)
            == emitted_through(height, expansions) + minted_at(height + 1, log_slots_at(height + 1, expansions)),
        minted_between(from, from, log_slots) == minted_at(from, log_slots),
        from <= height ==> minted_between(from, height + 1, log_slots)
            == minted_between(from, height, log_slots) + minted_at(height + 1, log_slots),
{
}

} // verus!

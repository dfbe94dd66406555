//! Live figures read from the node on request, never persisted: mempool
//! contents, chain and mining state, and the live slots of an address.
use vstd::prelude::*;
use vstd::string::StringSliceAdditionalSpecFns;
use vstd::arithmetic::power2::pow2;
use crate::hexcodec::{hex_digit_value, radix16_pair, radix16_pairs, pairs_on_char_boundaries};
use crate::text::decimal;

verus! {

broadcast use vstd::seq_lib::group_to_multiset_ensures;

#[derive(Debug, Clone, PartialEq, Eq)]
pub struct SlotInfo {
    pub slot_index: u64,
    pub value: u64,
    pub creation_id: u64,
    pub owner: String,
    pub empty: bool,
}

#[derive(Debug, Clone, PartialEq, Eq)]
pub struct ChainInfo {
    pub height: u64,
    pub best_hash: String,
    pub difficulty_target: String,
    pub active_slot_count: u64,
    pub log_slots: u32,
    pub circulating_supply_micronoid: String,
}

#[derive(Debug, Clone, PartialEq, Eq)]
pub struct MiningInfo {
    pub height: u64,
    pub difficulty_bits: u32,
    pub difficulty_target: String,
    pub block_reward_micronoid: u64,
    pub active_slot_count: u64,
}

#[derive(Debug, Clone, PartialEq, Eq)]
pub struct MempoolInfo {
    pub size: u64,
    pub fee_floor: u64,
    pub txs: Vec<MempoolTxInfo>,
}

#[derive(Debug, Clone, PartialEq, Eq)]
pub struct MempoolTxInfo {
    pub tx_hash: String,
    pub fee_micronoid: u64,
    pub fee_rate: u64,
    pub n_inputs: u32,
    pub n_outputs: u32,
    pub page_count: u32,
    pub admitted_height: u64,
}

/// Mainnet target block interval in seconds; turns expected hashes per
/// block into hashes per second.
pub const TARGET_BLOCK_INTERVAL_SECONDS: u64 = 20;

fn hex_digit(b: u8) -> (r: Option<u8>)
    ensures
        r matches Some(v) ==> hex_digit_value(b) == Some(v as nat),
        r is None ==> hex_digit_value(b) is None,
{
    if b >= 48 && b <= 57 {
        Some(b - 48)
    } else if b >= 97 && b <= 102 {
        Some(b - 87)
    } else if b >= 65 && b <= 70 {
        Some(b - 55)
    } else {
        None
    }
}

/// Hex text to bytes, two characters at a time; `None` for an odd length
/// or a pair that does not read as a base-16 number.
pub fn hex_decode(s: &str) -> (r: Option<Vec<u8>>)
    requires
        pairs_on_char_boundaries(s.spec_bytes()),
    ensures
        r is Some <==> radix16_pairs(s.spec_bytes()) is Some,
        r matches Some(v) ==> v@ == radix16_pairs(s.spec_bytes())->0,
{
    let bs = s.as_bytes();
    if bs.len() % 2 != 0 {
        return None;
    }
    let mut out: Vec<u8> = Vec::new();
    let mut i: usize = 0;
    while i < bs.len() / 2
        invariant
            bs@ == s.spec_bytes(),
            bs@.len() % 2 == 0,
            i <= bs@.len() / 2,
            out@.len() == i,
            forall|k: int| 0 <= k < i ==> (#[trigger] radix16_pair(bs@[2 * k], bs@[2 * k + 1])) == Some(out@[k]),
        decreases bs.len() / 2 - i,
    {
        let b0 = bs[2 * i];
        let b1 = bs[2 * i + 1];
        let pair: Option<u8> = if b0 == 43 {
            hex_digit(b1)
        } else {
            match (hex_digit(b0), hex_digit(b1)) {
                (Some(h), Some(l)) => Some(h * 16 + l),
                _ => None,
            }
        };
        match pair {
            Some(v) => {
                out.push(v);
            },
            None => {
                proof {
                    assert(radix16_pair(bs@[2 * i as int], bs@[2 * i + 1]) is None);
                }
                return None;
            },
        }
        i += 1;
    }
    proof {
        assert(out@ == Seq::new(bs@.len() / 2, |k: int| radix16_pair(bs@[2 * k], bs@[2 * k + 1])->0));
    }
    Some(out)
}


/// The number a little-endian byte string encodes.
pub open spec fn le_value(bs: Seq<u8>) -> nat
    decreases bs.len(),
{
    if bs.len() == 0 { 0 } else { bs[0] as nat + 256 * le_value(bs.drop_first()) }
}

proof fn lemma_le_value_zero(bs: Seq<u8>)
    ensures
        (le_value(bs) == 0) <==> (forall|i: int| 0 <= i < bs.len() ==> bs[i] == 0),
    decreases bs.len(),
{
    if bs.len() > 0 {
        lemma_le_value_zero(bs.drop_first());
        if le_value(bs) == 0 {
            assert forall|i: int| 0 <= i < bs.len() implies bs[i] == 0 by {
                if i > 0 {
                    assert(bs[i] == bs.drop_first()[i - 1]);
                }
            }
        }
        if forall|i: int| 0 <= i < bs.len() ==> bs[i] == 0 {
            assert forall|i: int| 0 <= i < bs.drop_first().len() implies bs.drop_first()[i] == 0 by {
                assert(bs.drop_first()[i] == bs[i + 1]);
            }
        }
    }
}

/// `k` zero bytes and then a one: 256^k.
proof fn lemma_le_power(k: nat)
    ensures
        le_value(Seq::new(k, |i: int| 0u8).push(1u8)) == pow2(8 * k),
    decreases k,
{
    let bs = Seq::new(k, |i: int| 0u8).push(1u8);
    if k == 0 {
        assert(bs.drop_first().len() == 0);
        assert(le_value(bs.drop_first()) == 0);
        assert(bs[0] == 1u8);
        vstd::arithmetic::power2::lemma2_to64();
    } else {
        assert(bs[0] == 0u8);
        assert(bs.drop_first() == Seq::new((k - 1) as nat, |i: int| 0u8).push(1u8));
        lemma_le_power((k - 1) as nat);
        vstd::arithmetic::power2::lemma_pow2_adds(8, 8 * (k - 1) as nat);
        vstd::arithmetic::power2::lemma2_to64();
        assert(8 + 8 * (k - 1) == 8 * k);
    }
}

/// `numerator / denominator` of two little-endian numbers, in decimal,
/// computed by `num_bigint::BigUint` (`from_bytes_le`, `/`, `to_string`).
#[verifier::external_body]
fn biguint_le_quotient_decimal(numerator_le: &[u8], denominator_le: &[u8]) -> (s: String)
    requires
        le_value(denominator_le@) > 0,
    ensures
        s@ == decimal(le_value(numerator_le@) / le_value(denominator_le@)),
{
    let q = num_bigint::BigUint::from_bytes_le(numerator_le) / num_bigint::BigUint::from_bytes_le(denominator_le);
    q.to_string()
}

/// Expected hashes to find a block below a PoW target: `2^256 / target`,
/// in decimal. `target_hex` is the target's little-endian byte encoding in
/// hex, as the RPC returns it; `None` where it is not hex or the target is
/// zero.
pub fn expected_hashes(target_hex: &str) -> (r: Option<String>)
    requires
        pairs_on_char_boundaries(target_hex.spec_bytes()),
    ensures
        r is Some <==> (radix16_pairs(target_hex.spec_bytes()) matches Some(t) && le_value(t) > 0),
        r matches Some(s) ==> s@ == decimal(pow2(256) / le_value(radix16_pairs(target_hex.spec_bytes())->0)),
{
    let bytes = match hex_decode(target_hex) {
        Some(b) => b,
        None => return None,
    };
    let mut all_zero = true;
    let mut i: usize = 0;
    while i < bytes.len()
        invariant
            i <= bytes@.len(),
            all_zero == (forall|j: int| 0 <= j < i ==> bytes@[j] == 0),
        decreases bytes.len() - i,
    {
        if bytes[i] != 0 {
            all_zero = false;
        }
        i += 1;
    }
    proof {
        lemma_le_value_zero(bytes@);
    }
    if all_zero {
        return None;
    }
    let mut max: Vec<u8> = Vec::new();
    let mut k: usize = 0;
    while k < 32
        invariant
            k <= 32,
            max@ == Seq::new(k as nat, |j: int| 0u8),
        decreases 32 - k,
    {
        max.push(0);
        k += 1;
    }
    max.push(1);
    proof {
        lemma_le_power(32);
    }
    Some(biguint_le_quotient_decimal(max.as_slice(), bytes.as_slice()))
}

pub open spec fn is_live(s: SlotInfo) -> bool {
    !s.empty
}

/// The values of the live slots, summed.
pub open spec fn live_value(slots: Seq<SlotInfo>) -> nat
    decreases slots.len(),
{
    if slots.len() == 0 {
        0
    } else {
        live_value(slots.drop_last()) + (if is_live(slots.last()) { slots.last().value as nat } else { 0 })
    }
}

/// How many slots are live.
pub open spec fn live_count(slots: Seq<SlotInfo>) -> nat
    decreases slots.len(),
{
    if slots.len() == 0 {
        0
    } else {
        live_count(slots.drop_last()) + (if is_live(slots.last()) { 1nat } else { 0 })
    }
}

proof fn lemma_live_prefix(slots: Seq<SlotInfo>, k: int)
    requires
        0 <= k <= slots.len(),
    ensures
        live_value(slots.take(k)) <= live_value(slots),
        live_count(slots.take(k)) <= live_count(slots),
    decreases slots.len(),
{
    if k < slots.len() {
        assert(slots.drop_last().take(k) == slots.take(k));
        lemma_live_prefix(slots.drop_last(), k);
    } else {
        assert(slots.take(k) == slots);
    }
}

/// An address's live balance and number of live slots, from the slots the
/// node lists for it (empty ones skipped).
pub fn live_slot_totals(slots: &Vec<SlotInfo>) -> (r: (u64, usize))
    requires
        live_value(slots@) <= u64::MAX,
    ensures
        r.0 == live_value(slots@),
        r.1 == live_count(slots@),
{
    let mut total: u64 = 0;
    let mut count: usize = 0;
    let mut i: usize = 0;
    while i < slots.len()
        invariant
            i <= slots@.len(),
            live_value(slots@) <= u64::MAX,
            total == live_value(slots@.take(i as int)),
            count == live_count(slots@.take(i as int)),
            count <= i,
        decreases slots.len() - i,
    {
        proof {
            assert(slots@.take(i + 1).drop_last() == slots@.take(i as int));
            lemma_live_prefix(slots@, i + 1);
        }
        if !slots[i].empty {
            total = total + slots[i].value;
            count = count + 1;
        }
        i += 1;
    }
    proof {
        assert(slots@.take(i as int) == slots@);
    }
    (total, count)
}

/// Whether an address's live balance fits in 64 bits, as
/// `live_slot_totals` computes it.
pub fn live_value_fits(slots: &Vec<SlotInfo>) -> (r: bool)
    ensures
        r == (live_value(slots@) <= u64::MAX),
{
    let mut total: u64 = 0;
    let mut i: usize = 0;
    while i < slots.len()
        invariant
            i <= slots@.len(),
            total == live_value(slots@.take(i as int)),
        decreases slots.len() - i,
    {
        proof {
            assert(slots@.take(i + 1).drop_last() == slots@.take(i as int));
            assert(slots@.take(i + 1).last() == slots@[i as int]);
        }
        if !slots[i].empty {
            match total.checked_add(slots[i].value) {
                Some(v) => total = v,
                None => {
                    proof {
                        lemma_live_prefix(slots@, i + 1);
                    }
                    return false;
                },
            }
        }
        i += 1;
    }
    proof {
        assert(slots@.take(i as int) == slots@);
    }
    true
}

fn copy_slot(s: &SlotInfo) -> (r: SlotInfo)
    ensures
        r == *s,
{
    SlotInfo {
        slot_index: s.slot_index,
        value: s.value,
        creation_id: s.creation_id,
        owner: s.owner.clone(),
        empty: s.empty,
    }
}

/// Largest value first.
pub open spec fn sorted_by_value_desc(s: Seq<SlotInfo>) -> bool {
    forall|i: int, j: int| 0 <= i < j < s.len() ==> s[i].value >= s[j].value
}

/// Slots holding exactly `v`.
pub open spec fn value_is(v: u64) -> spec_fn(SlotInfo) -> bool {
    |s: SlotInfo| s.value == v
}

/// Inserting `x` after every slot worth at least as much keeps the slots of
/// each value in the order they had, `x` last among its equals.
proof fn lemma_insert_keeps_ties(before: Seq<SlotInfo>, pos: int, x: SlotInfo, v: u64)
    requires
        0 <= pos <= before.len(),
        sorted_by_value_desc(before),
        pos < before.len() ==> before[pos].value < x.value,
    ensures
        before.insert(pos, x).filter(value_is(v)) == (if x.value == v {
            before.filter(value_is(v)).push(x)
        } else {
            before.filter(value_is(v))
        }),
{
    let p = value_is(v);
    let a = before.take(pos);
    let b = before.skip(pos);
    assert(before == a + b);
    assert(before.insert(pos, x) == a.push(x) + b);
    Seq::filter_distributes_over_add(a, b, p);
    Seq::filter_distributes_over_add(a.push(x), b, p);
    a.lemma_filter_push(x, p);
    if x.value == v {
        assert(b.all(|y: SlotInfo| !p(y))) by {
            assert forall|k: int| 0 <= k < b.len() implies !p(#[trigger] b[k]) by {
                assert(b[k] == before[pos + k]);
                assert(before[pos + k].value <= before[pos].value);
            }
        }
        b.lemma_all_neg_filter_empty(p);
        assert(b.filter(p) == Seq::<SlotInfo>::empty());
        assert(a.filter(p) + b.filter(p) == a.filter(p));
        assert(a.filter(p).push(x) + b.filter(p) == a.filter(p).push(x));
    }
}

/// An address's live slots, largest first; slots of equal value keep the
/// node's order.
pub fn live_slots_by_value(slots: Vec<SlotInfo>) -> (r: Vec<SlotInfo>)
    ensures
        sorted_by_value_desc(r@),
        r@.to_multiset() == slots@.filter(|s: SlotInfo| is_live(s)).to_multiset(),
        forall|i: int| 0 <= i < r@.len() ==> is_live(#[trigger] r@[i]),
        forall|v: u64| #[trigger] r@.filter(value_is(v)) == slots@.filter(|s: SlotInfo| is_live(s)).filter(value_is(v)),
{
    let ghost f = |s: SlotInfo| is_live(s);
    let ghost live = slots@.filter(f);
    let mut out: Vec<SlotInfo> = Vec::new();
    let mut i: usize = 0;
    while i < slots.len()
        invariant
            i <= slots@.len(),
            f == (|s: SlotInfo| is_live(s)),
            live == slots@.filter(f),
            sorted_by_value_desc(out@),
            out@.to_multiset() == slots@.take(i as int).filter(f).to_multiset(),
            forall|j: int| 0 <= j < out@.len() ==> is_live(#[trigger] out@[j]),
            forall|v: u64| #[trigger] out@.filter(value_is(v)) == slots@.take(i as int).filter(f).filter(value_is(v)),
        decreases slots.len() - i,
    {
        let x = copy_slot(&slots[i]);
        proof {
            assert(slots@.take(i + 1).drop_last() == slots@.take(i as int));
            assert(slots@.take(i + 1).last() == slots@[i as int]);
            reveal_with_fuel(Seq::filter, 1);
            if is_live(slots@[i as int]) {
                assert(slots@.take(i + 1).filter(f) == slots@.take(i as int).filter(f).push(slots@[i as int]));
            } else {
                assert(slots@.take(i + 1).filter(f) == slots@.take(i as int).filter(f));
            }
        }
        if !x.empty {
            let mut pos: usize = 0;
            while pos < out.len() && out[pos].value >= x.value
                invariant
                    pos <= out@.len(),
                    forall|j: int| 0 <= j < pos ==> out@[j].value >= x.value,
                decreases out.len() - pos,
            {
                pos += 1;
            }
            let ghost before = out@;
            out.insert(pos, x);
            proof {
                assert(out@ == before.insert(pos as int, slots@[i as int]));
                vstd::seq_lib::to_multiset_insert(before, pos as int, slots@[i as int]);
                vstd::seq_lib::to_multiset_build(slots@.take(i as int).filter(f), slots@[i as int]);
                assert forall|a: int, b: int| 0 <= a < b < out@.len() implies out@[a].value >= out@[b].value by {
                    if pos < before.len() {
                        assert(before[pos as int].value < x.value);
                    }
                }
                assert forall|v: u64| #[trigger] out@.filter(value_is(v)) == slots@.take(i + 1).filter(f).filter(value_is(v)) by {
                    lemma_insert_keeps_ties(before, pos as int, x, v);
                    slots@.take(i as int).filter(f).lemma_filter_push(x, value_is(v));
                }
            }
        }
        i += 1;
    }
    proof {
        assert(slots@.take(i as int) == slots@);
    }
    out
}


/// A slot is live when it is not empty; the live value and live count take
/// every slot once: one more slot adds its value and one to the count if it
/// is live, and nothing if it is empty.
pub proof fn law_live_totals_add_each_slot(slots: Seq<SlotInfo>, s: SlotInfo)
    ensures
        is_live(s) == !s.empty,
        live_value(Seq::<SlotInfo>::empty()) == 0,
        live_count(Seq::<SlotInfo>::empty()) == 0,
        live_value(slots.push(s)) == live_value(slots) + (if !s.empty { s.value as nat } else { 0 }),
        live_count(slots.push(s)) == live_count(slots) + (if !s.empty { 1int } else { 0 }),
{
    assert(slots.push(s).drop_last() == slots);
}


/// Little-endian bytes: no bytes are 0, and a byte in front of others is
/// the low byte, the others counting 256 times as much.
pub proof fn law_little_endian_low_byte_first(b: u8, rest: Seq<u8>)
    ensures
        le_value(Seq::<u8>::empty()) == 0,
        le_value(seq![b] + rest) == b + 256 * le_value(rest),
{
    assert((seq![b] + rest).drop_first() == rest);
}

} // verus!

//! Read-only views of the recorded chain for the API. Only the currently
//! canonical version of a block is shown: its latest status entry must be
//! `canonical`; orphaned history stays in the database.
use vstd::prelude::*;
use vstd::string::StringSliceAdditionalSpecFns;
use vstd::string::StringExecFns;
use crate::text::{parse_i64, parsed_i64, decimal_i64, signed_decimal};

verus! {

#[derive(Debug, Clone)]
pub struct BlockSummary {
    pub height: i64,
    pub hash: String,
    pub timestamp: i64,
    pub miner: String,
    pub proof_class: Option<String>,
    pub reward_micronoid: Option<i64>,
    pub total_fees_micronoid: Option<String>,
    pub tx_count: i64,
    pub body_captured: bool,
}

#[derive(Debug, Clone)]
pub struct BlockDetail {
    pub height: i64,
    pub hash: String,
    pub prev_hash: String,
    pub state_root: String,
    pub tx_root: String,
    pub timestamp: i64,
    pub miner: String,
    pub nonce_hex: String,
    pub difficulty_target: String,
    pub proof_class: Option<String>,
    pub reward_micronoid: Option<i64>,
    pub total_fees_micronoid: Option<String>,
    pub body_captured: bool,
    /// Blocks on top of this one including itself, from the indexer's own
    /// tip; `None` if that is not known yet. 18 and up is final.
    pub confirmations: Option<i64>,
    pub transactions: Vec<TxSummary>,
}

#[derive(Debug, Clone)]
pub struct TxSummary {
    pub position: i64,
    pub txid: String,
    pub page_count: i64,
    pub fee_micronoid: i64,
    pub coinbase: bool,
    pub development_payout: bool,
    pub input_owner: Option<String>,
    /// Owner of the first output (by index).
    pub receiver: Option<String>,
    pub input_sum_micronoid: String,
    pub output_sum_micronoid: String,
    pub height: i64,
    pub timestamp: i64,
    pub n_inputs: i64,
    pub n_outputs: i64,
    /// Only on address pages: outputs the viewed address received minus
    /// inputs it spent.
    pub address_delta_micronoid: Option<String>,
    /// Only on address pages: the first output owner that is not the
    /// viewed address.
    pub counterparty: Option<String>,
}

#[derive(Debug, Clone)]
pub struct TxDetail {
    pub txid: String,
    pub position: i64,
    pub page_count: i64,
    pub fee_micronoid: i64,
    pub coinbase: bool,
    pub development_payout: bool,
    pub epoch_anchor: String,
    pub input_owner: Option<String>,
    pub input_sum_micronoid: String,
    pub output_sum_micronoid: String,
    pub page_hashes: Vec<String>,
    pub inputs: Vec<TxInput>,
    pub outputs: Vec<TxOutput>,
    pub block: TxBlockRef,
    /// See `BlockDetail::confirmations`; `Some(0)` if the block was orphaned.
    pub confirmations: Option<i64>,
}

#[derive(Debug, Clone, PartialEq, Eq)]
pub struct TxInput {
    pub slot_index: i64,
    pub amount_micronoid: i64,
    pub creation_id: String,
}

#[derive(Debug, Clone, PartialEq, Eq)]
pub struct TxOutput {
    pub slot_index: i64,
    pub amount_micronoid: i64,
    pub owner: String,
    pub creation_id: String,
}

#[derive(Debug, Clone, PartialEq, Eq)]
pub struct TxBlockRef {
    pub height: i64,
    pub hash: String,
    pub timestamp: i64,
    pub canonical: bool,
}

#[derive(Debug, Clone, Copy, PartialEq, Eq)]
pub struct ChainStats {
    pub last_processed_height: Option<i64>,
    pub indexed_blocks: i64,
    pub indexed_transactions: i64,
    /// Still-unresolved gaps only.
    pub gaps: i64,
    /// Gaps later recovered, kept visible.
    pub gaps_resolved: i64,
    /// Times the fallback decoder disagreed with getBlockDetails.
    pub decoder_mismatches: i64,
    pub oldest_retained_timestamp: Option<i64>,
    /// Recorded canonical outputs no recorded input has spent.
    pub live_utxos: i64,
}

#[derive(Debug, Clone, PartialEq, Eq)]
pub struct GapEntry {
    pub height: i64,
    pub hash: Option<String>,
    pub detected_at: String,
    pub note: String,
    pub resolved_at: Option<String>,
    pub resolution: Option<String>,
}

#[derive(Debug, Clone, PartialEq, Eq)]
pub struct AddressBalance {
    pub confirmed_balance_micronoid: String,
    pub confirmed_utxos: i64,
    pub total_received_micronoid: String,
    pub total_sent_micronoid: String,
    /// Recorded outputs the node no longer holds although no recorded
    /// transaction spent them; excluded from the confirmed figures.
    pub spent_in_gap_micronoid: String,
    pub spent_in_gap_utxos: i64,
}

#[derive(Debug, Clone, PartialEq, Eq)]
pub struct RichListEntry {
    pub address: String,
    pub live_balance_micronoid: String,
    pub live_utxo_count: i64,
    pub fetched_at: String,
}

/// Confirmations of a block at `height` seen from the indexer's tip: the
/// blocks from it up to the tip, itself included, never negative.
pub open spec fn confirmations_at(tip: Option<i64>, height: i64) -> Option<i64> {
    match tip {
        Some(t) => Some(if t - height + 1 >= 0 { (t - height + 1) as i64 } else { 0 }),
        None => None,
    }
}

pub fn confirmations_for(tip: Option<i64>, height: i64) -> (r: Option<i64>)
    requires
        tip matches Some(t) ==> i64::MIN <= t - height && t - height + 1 <= i64::MAX,
    ensures
        r == confirmations_at(tip, height),
{
    match tip {
        Some(t) => {
            let c = t - height + 1;
            Some(if c >= 0 { c } else { 0 })
        },
        None => None,
    }
}

/// A transaction's confirmations: its block's, or none at all where that
/// block was orphaned.
pub fn tx_confirmations(canonical: bool, tip: Option<i64>, height: i64) -> (r: Option<i64>)
    requires
        tip matches Some(t) ==> i64::MIN <= t - height && t - height + 1 <= i64::MAX,
    ensures
        r == (if canonical { confirmations_at(tip, height) } else { Some(0) }),
{
    if canonical { confirmations_for(tip, height) } else { Some(0) }
}

/// The indexer's tip as recorded: the state value if it reads as a number.
pub fn indexed_tip_from(state: Option<&str>) -> (r: Option<i64>)
    ensures
        r == match state {
            Some(t) => parsed_i64(t.spec_bytes()),
            None => None,
        },
{
    match state {
        Some(t) => parse_i64(t),
        None => None,
    }
}

/// The decoder mismatch count as recorded, 0 where none reads as a number.
pub fn mismatch_count_from(state: Option<&str>) -> (r: i64)
    ensures
        r == match state {
            Some(t) => match parsed_i64(t.spec_bytes()) { Some(v) => v, None => 0 },
            None => 0,
        },
{
    match indexed_tip_from(state) {
        Some(v) => v,
        None => 0,
    }
}

pub open spec fn canonical_filter_text(alias: Seq<char>) -> Seq<char> {
    "(SELECT s.status FROM block_status_log s WHERE s.block_id = "@ + alias
        + ".id ORDER BY s.id DESC LIMIT 1) = 'canonical'"@
}

/// The SQL condition that a block (under `block_alias`) is canonical: its
/// latest status entry says so.
pub fn canonical_filter_on(block_alias: &str) -> (s: String)
    ensures
        s@ == canonical_filter_text(block_alias@),
{
    proof {
        reveal_strlit("(SELECT s.status FROM block_status_log s WHERE s.block_id = ");
        reveal_strlit(".id ORDER BY s.id DESC LIMIT 1) = 'canonical'");
    }
    let mut s = String::from_str("(SELECT s.status FROM block_status_log s WHERE s.block_id = ");
    s.append(block_alias);
    s.append(".id ORDER BY s.id DESC LIMIT 1) = 'canonical'");
    s
}

pub open spec fn sat_mul_i64(a: int, b: int) -> i64 {
    if a * b > i64::MAX { i64::MAX } else if a * b < i64::MIN { i64::MIN } else { (a * b) as i64 }
}

/// Rows skipped before the requested page of an address's transactions
/// (pages count from 1; anything lower is page 1).
pub fn page_offset(page: i64, page_size: i64) -> (r: i64)
    ensures
        r == sat_mul_i64((if page >= 1 { page } else { 1 }) - 1, page_size as int),
{
    let p: i64 = if page >= 1 { page } else { 1 };
    match (p - 1).checked_mul(page_size) {
        Some(v) => v,
        None => {
            proof {
                let a: int = p - 1;
                let b: int = page_size as int;
                assert(a >= 0);
                assert(a * b > i64::MAX || a * b < i64::MIN);
                if b >= 0 {
                    assert(a * b >= 0) by (nonlinear_arith) requires a >= 0, b >= 0;
                } else {
                    assert(a * b <= 0) by (nonlinear_arith) requires a >= 0, b < 0;
                }
            }
            if page_size >= 0 { i64::MAX } else { i64::MIN }
        },
    }
}

/// A page that starts at or past the last match is answered empty, without
/// reading the rows.
pub fn page_past_end(offset: i64, total: i64) -> (r: bool)
    ensures
        r == (offset >= total),
{
    offset >= total
}

/// A signed amount as the API reports it: decimal text.
pub fn amount_text(v: i64) -> (s: String)
    ensures
        s@ == signed_decimal(v as int),
{
    decimal_i64(v)
}

/// Span and number of intervals between the oldest and newest canonical
/// block in a window, where at least two blocks fall in it (the span is 0
/// where they share one time); the average block time is their quotient.
pub fn block_time_span(count: i64, min_ts: Option<i64>, max_ts: Option<i64>) -> (r: Option<(i64, i64)>)
    requires
        min_ts matches Some(a) && max_ts matches Some(b) ==> i64::MIN <= b - a <= i64::MAX,
    ensures
        (count >= 2 && min_ts is Some && max_ts is Some)
            ==> r == Some(((max_ts->0 - min_ts->0) as i64, (count - 1) as i64)),
        !(count >= 2 && min_ts is Some && max_ts is Some) ==> r is None,
{
    match (min_ts, max_ts) {
        (Some(min), Some(max)) => {
            if count >= 2 {
                Some((max - min, count - 1))
            } else {
                None
            }
        },
        _ => None,
    }
}


/// The earliest block time inside a window of `window_seconds` ending now.
pub fn window_start(now_unix: i64, window_seconds: i64) -> (r: i64)
    requires
        i64::MIN <= now_unix - window_seconds <= i64::MAX,
    ensures
        r == now_unix - window_seconds,
{
    now_unix - window_seconds
}


/// The block at the tip has one confirmation, each block on top of it adds
/// one, and a height above the tip has none; no tip, no count.
pub proof fn law_confirmations_count_blocks_on_top(tip: i64, height: i64)
    requires
        tip < i64::MAX,
    ensures
        confirmations_at(Some(tip), tip) == Some(1i64),
        height > tip ==> confirmations_at(Some(tip), height) == Some(0i64),
        height <= tip && tip - height + 2 <= i64::MAX ==>
            confirmations_at(Some((tip + 1) as i64), height)->0 == confirmations_at(Some(tip), height)->0 + 1,
        confirmations_at(None, height) is None,
{
}

/// Where nothing saturates, page 1 starts at row 0 and each page starts
/// `page_size` rows after the one before.
pub proof fn law_pages_follow_each_other(page: i64, page_size: i64)
    requires
        page >= 1,
        page_size >= 0,
        page * page_size <= i64::MAX,
    ensures
        sat_mul_i64(0, page_size as int) == 0,
        sat_mul_i64(page as int, page_size as int) == sat_mul_i64(page - 1, page_size as int) + page_size,
{
    assert((page - 1) * page_size >= 0) by (nonlinear_arith)
        requires page >= 1, page_size >= 0;
    assert((page - 1) * page_size + page_size == page * page_size) by (nonlinear_arith);
}

} // verus!

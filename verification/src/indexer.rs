//! The indexer's decisions. Each poll reads the node's tip, ingests every
//! new height, re-checks a trailing window for reorgs and retries open gaps
//! still inside the getBlock serving window; the node calls and database
//! writes are made by the caller, which feeds their results back in here.
use vstd::prelude::*;
use vstd::string::StringSliceAdditionalSpecFns;
use vstd::string::StringExecFns;
use crate::text::{parse_u64, parsed_u64, parse_i64, parsed_i64, decimal_i64, signed_decimal};

verus! {

/// How far back the node still serves raw blocks through getBlock; older
/// gaps are not retried.
pub const GETBLOCK_SERVING_WINDOW: u64 = 42;

/// The heights one poll works on.
#[derive(Debug, Clone, Copy, PartialEq, Eq)]
pub struct PollPlan {
    /// New heights to ingest: `ingest_from..=ingest_to`, none if
    /// `ingest_from > ingest_to`.
    pub ingest_from: u64,
    pub ingest_to: u64,
    /// Heights re-checked for reorgs: `recheck_from..=recheck_to`.
    pub recheck_from: u64,
    pub recheck_to: u64,
    /// Open gaps at or above this height are retried via getBlock.
    pub retry_gaps_from: Option<u64>,
}

/// The last height ingested: the recorded state if it reads as a height,
/// else the one just below the node's tip (a fresh start records only new
/// blocks).
pub open spec fn last_processed_of(tip: u64, state: Option<Seq<u8>>) -> u64 {
    match state {
        Some(bs) => match parsed_u64(bs) {
            Some(h) => h,
            None => if tip >= 1 { (tip - 1) as u64 } else { 0 },
        },
        None => if tip >= 1 { (tip - 1) as u64 } else { 0 },
    }
}

pub open spec fn sat_sub_u64(a: u64, b: u64) -> u64 {
    if a >= b { (a - b) as u64 } else { 0 }
}

/// The last height ingested, as `plan_poll` reads it.
pub fn last_processed(tip: u64, last_processed_state: Option<&str>) -> (r: u64)
    ensures
        r == last_processed_of(tip, match last_processed_state { Some(s) => Some(s.spec_bytes()), None => None }),
{
    let parsed = match last_processed_state {
        Some(s) => parse_u64(s),
        None => None,
    };
    match parsed {
        Some(h) => h,
        None => tip.saturating_sub(1),
    }
}

/// Plans one poll against the node's `tip`.
pub fn plan_poll(tip: u64, last_processed_state: Option<&str>, reorg_check_depth: u64, getblock_fallback: bool) -> (p: PollPlan)
    requires
        last_processed_of(tip, match last_processed_state { Some(s) => Some(s.spec_bytes()), None => None }) < u64::MAX,
    ensures
        ({
            let last = last_processed_of(tip, match last_processed_state { Some(s) => Some(s.spec_bytes()), None => None });
            &&& p.ingest_from == last + 1
            &&& p.ingest_to == tip
            &&& p.recheck_from == sat_sub_u64(tip, reorg_check_depth)
            &&& p.recheck_to == tip
            &&& p.retry_gaps_from == (if getblock_fallback { Some(sat_sub_u64(tip, 42)) } else { None })
        }),
{
    let last_processed: u64 = last_processed(tip, last_processed_state);
    PollPlan {
        ingest_from: last_processed + 1,
        ingest_to: tip,
        recheck_from: tip.saturating_sub(reorg_check_depth),
        recheck_to: tip,
        retry_gaps_from: if getblock_fallback { Some(tip.saturating_sub(GETBLOCK_SERVING_WINDOW)) } else { None },
    }
}

/// Where a stored body came from.
#[derive(Debug, Clone, Copy, PartialEq, Eq)]
pub enum BodySource {
    /// Straight from getBlockDetails.
    Details,
    /// Decoded from getBlock's raw bytes.
    GetBlock,
    /// Copied from another permanode's database.
    Import,
}

pub open spec fn body_source_name(s: BodySource) -> Seq<char> {
    match s {
        BodySource::Details => "details"@,
        BodySource::GetBlock => "getblock"@,
        BodySource::Import => "import"@,
    }
}

/// The name a body source is recorded under.
pub fn body_source_text(s: BodySource) -> (t: &'static str)
    ensures
        t@ == body_source_name(s),
{
    match s {
        BodySource::Details => {
            proof { reveal_strlit("details"); }
            "details"
        },
        BodySource::GetBlock => {
            proof { reveal_strlit("getblock"); }
            "getblock"
        },
        BodySource::Import => {
            proof { reveal_strlit("import"); }
            "import"
        },
    }
}

/// Why a height was recorded as a gap.
#[derive(Debug, Clone, PartialEq, Eq)]
pub enum GapReason {
    /// Neither getBlockDetails nor getBlock had the body.
    OutsideServingWindow,
    /// getBlock had bytes that did not decode; the decoder's message.
    DecodeFailed(String),
    /// The body was already pruned at the first attempt (no fallback).
    PrunedOnFirstIngest,
    /// A reorg's new canonical body was already gone at recheck time.
    ReorgBodyUnavailable,
}

pub open spec fn gap_note_text(r: GapReason) -> Seq<char> {
    match r {
        GapReason::OutsideServingWindow => "no body via getBlockDetails nor getBlock (outside serving window)"@,
        GapReason::DecodeFailed(e) => "getBlock body could not be decoded: "@ + e@,
        GapReason::PrunedOnFirstIngest => "body already pruned by node on first ingest attempt"@,
        GapReason::ReorgBodyUnavailable => "reorg: new canonical body already unavailable at recheck time"@,
    }
}

/// The note a gap is recorded with.
pub fn gap_note(r: &GapReason) -> (s: String)
    ensures
        s@ == gap_note_text(*r),
{
    match r {
        GapReason::OutsideServingWindow => {
            proof { reveal_strlit("no body via getBlockDetails nor getBlock (outside serving window)"); }
            String::from_str("no body via getBlockDetails nor getBlock (outside serving window)")
        },
        GapReason::DecodeFailed(e) => {
            proof { reveal_strlit("getBlock body could not be decoded: "); }
            let mut s = String::from_str("getBlock body could not be decoded: ");
            s.append(e.as_str());
            s
        },
        GapReason::PrunedOnFirstIngest => {
            proof { reveal_strlit("body already pruned by node on first ingest attempt"); }
            String::from_str("body already pruned by node on first ingest attempt")
        },
        GapReason::ReorgBodyUnavailable => {
            proof { reveal_strlit("reorg: new canonical body already unavailable at recheck time"); }
            String::from_str("reorg: new canonical body already unavailable at recheck time")
        },
    }
}

/// What the getBlock fallback came back with.
#[derive(Debug, Clone, PartialEq, Eq)]
pub enum FallbackResult {
    /// A body, decoded and bound to the canonical header.
    Recovered,
    /// getBlock had nothing either (or the call failed).
    NoBody,
    /// getBlock had bytes that did not decode; the decoder's message.
    DecodeFailed(String),
}

/// What to do with a height.
#[derive(Debug, Clone, PartialEq, Eq)]
pub enum IngestStep {
    /// Nothing to do this cycle.
    Nothing,
    /// Store the block with its body; `selfcheck` asks for the decoder to be
    /// cross-checked against this body.
    Store { source: BodySource, selfcheck: bool },
    /// Ask getBlock for the raw body and decide again with `after_fallback`.
    TryFallback,
    /// Keep the header and record the height as a gap.
    RecordGapBlock(GapReason),
    /// Only record the gap (no header row to keep).
    RecordGap(GapReason),
}

/// First decision for a new height, from what getBlockDetails returned.
pub fn ingest_step(details_available: bool, body_retained: bool, getblock_fallback: bool, decoder_selfcheck: bool) -> (s: IngestStep)
    ensures
        !details_available ==> s == IngestStep::Nothing,
        details_available && body_retained ==> s == (IngestStep::Store { source: BodySource::Details, selfcheck: decoder_selfcheck }),
        details_available && !body_retained && getblock_fallback ==> s == IngestStep::TryFallback,
        details_available && !body_retained && !getblock_fallback ==> s == IngestStep::RecordGapBlock(GapReason::PrunedOnFirstIngest),
{
    if !details_available {
        IngestStep::Nothing
    } else if body_retained {
        IngestStep::Store { source: BodySource::Details, selfcheck: decoder_selfcheck }
    } else if getblock_fallback {
        IngestStep::TryFallback
    } else {
        IngestStep::RecordGapBlock(GapReason::PrunedOnFirstIngest)
    }
}

/// The decision once the getBlock fallback has answered.
pub fn after_fallback(result: FallbackResult) -> (s: IngestStep)
    ensures
        result == FallbackResult::Recovered ==> s == (IngestStep::Store { source: BodySource::GetBlock, selfcheck: false }),
        result == FallbackResult::NoBody ==> s == IngestStep::RecordGapBlock(GapReason::OutsideServingWindow),
        result matches FallbackResult::DecodeFailed(e) ==> s == IngestStep::RecordGapBlock(GapReason::DecodeFailed(e)),
{
    match result {
        FallbackResult::Recovered => IngestStep::Store { source: BodySource::GetBlock, selfcheck: false },
        FallbackResult::NoBody => IngestStep::RecordGapBlock(GapReason::OutsideServingWindow),
        FallbackResult::DecodeFailed(e) => IngestStep::RecordGapBlock(GapReason::DecodeFailed(e)),
    }
}

/// The decision for a reorged height's new canonical block: like a new
/// height, except that no self-check runs and a missing block leaves only
/// the gap record.
pub fn reorg_replacement_step(details_available: bool, body_retained: bool, getblock_fallback: bool) -> (s: IngestStep)
    ensures
        !details_available ==> s == IngestStep::RecordGap(GapReason::ReorgBodyUnavailable),
        details_available && body_retained ==> s == (IngestStep::Store { source: BodySource::Details, selfcheck: false }),
        details_available && !body_retained && getblock_fallback ==> s == IngestStep::TryFallback,
        details_available && !body_retained && !getblock_fallback ==> s == IngestStep::RecordGapBlock(GapReason::ReorgBodyUnavailable),
{
    if !details_available {
        IngestStep::RecordGap(GapReason::ReorgBodyUnavailable)
    } else if body_retained {
        IngestStep::Store { source: BodySource::Details, selfcheck: false }
    } else if getblock_fallback {
        IngestStep::TryFallback
    } else {
        IngestStep::RecordGapBlock(GapReason::ReorgBodyUnavailable)
    }
}

/// What a recheck of a height found.
#[derive(Debug, Clone, Copy, PartialEq, Eq)]
pub enum RecheckStep {
    /// No header yet, no canonical record, or the same hash: nothing to do.
    Nothing,
    /// The recorded block is no longer canonical: mark it orphaned and
    /// take the replacement (`reorg_replacement_step`).
    Reorg { orphaned_block_id: i64 },
}

/// The view of a recorded canonical block: its row id and hash.
pub open spec fn recorded_view(recorded: Option<(i64, &str)>) -> Option<(i64, Seq<char>)> {
    match recorded {
        Some((id, hash)) => Some((id, hash@)),
        None => None,
    }
}

/// What a recheck finds: a reorg exactly where the node has a header and
/// the canonical block on record has another hash.
pub open spec fn recheck_of(node_hash: Option<Seq<char>>, recorded: Option<(i64, Seq<char>)>) -> RecheckStep {
    match (node_hash, recorded) {
        (Some(h), Some((id, known))) => if known == h {
            RecheckStep::Nothing
        } else {
            RecheckStep::Reorg { orphaned_block_id: id }
        },
        _ => RecheckStep::Nothing,
    }
}

/// Compares the node's current header hash for a height with the canonical
/// block on record.
pub fn recheck_step(node_hash: Option<&str>, recorded: Option<(i64, &str)>) -> (s: RecheckStep)
    ensures
        s == recheck_of(match node_hash { Some(h) => Some(h@), None => None }, recorded_view(recorded)),
        node_hash is None ==> s == RecheckStep::Nothing,
        recorded is None ==> s == RecheckStep::Nothing,
        node_hash is Some && recorded is Some ==> (if (recorded->0).1@ == node_hash->0@ {
            s == RecheckStep::Nothing
        } else {
            s == (RecheckStep::Reorg { orphaned_block_id: (recorded->0).0 })
        }),
{
    match node_hash {
        Some(h) => match recorded {
            Some(rec) => {
                if same_str(rec.1, h) {
                    RecheckStep::Nothing
                } else {
                    RecheckStep::Reorg { orphaned_block_id: rec.0 }
                }
            },
            None => RecheckStep::Nothing,
        },
        None => RecheckStep::Nothing,
    }
}

/// Text equality.
pub fn same_str(a: &str, b: &str) -> (r: bool)
    ensures
        r == (a@ == b@),
{
    let x = String::from_str(a);
    let y = String::from_str(b);
    x == y
}

/// How a block with a body is written.
#[derive(Debug, Clone, Copy, PartialEq, Eq)]
pub enum StoreStep {
    /// The same block is on record already with its body: nothing new.
    AlreadyStored,
    /// The same block is on record without a body: add the body to that
    /// row, mark it captured and resolve its gap.
    FillBody { block_id: i64 },
    /// A block not on record: insert its header row and its body.
    InsertNew,
}

/// Decides how `store_block` writes a block, from the canonical block on
/// record at its height and, if that has the same hash, the id of its row
/// when that row still lacks a body.
pub open spec fn store_of(hash: Seq<char>, recorded: Option<(i64, Seq<char>)>, uncaptured_row: Option<i64>) -> StoreStep {
    match recorded {
        Some((_, known)) => if known == hash {
            match uncaptured_row {
                Some(id) => StoreStep::FillBody { block_id: id },
                None => StoreStep::AlreadyStored,
            }
        } else {
            StoreStep::InsertNew
        },
        None => StoreStep::InsertNew,
    }
}

pub fn store_step(hash: &str, recorded: Option<(i64, &str)>, uncaptured_row: Option<i64>) -> (s: StoreStep)
    ensures
        s == store_of(hash@, recorded_view(recorded), uncaptured_row),
        recorded matches Some((_, known)) && known@ == hash@ ==>
            (match uncaptured_row { Some(id) => s == (StoreStep::FillBody { block_id: id }), None => s == StoreStep::AlreadyStored }),
        !(recorded matches Some((_, known)) && known@ == hash@) ==> s == StoreStep::InsertNew,
{
    match recorded {
        Some((_, known)) => {
            if same_str(known, hash) {
                match uncaptured_row {
                    Some(id) => StoreStep::FillBody { block_id: id },
                    None => StoreStep::AlreadyStored,
                }
            } else {
                StoreStep::InsertNew
            }
        },
        None => StoreStep::InsertNew,
    }
}

/// Whether recording a gap also needs the block's header row: only where
/// the same block is not on record already.
pub open spec fn needs_header_row_of(hash: Seq<char>, recorded: Option<(i64, Seq<char>)>) -> bool {
    !(recorded matches Some((_, known)) && known == hash)
}

pub fn gap_needs_header_row(hash: &str, recorded: Option<(i64, &str)>) -> (r: bool)
    ensures
        r == needs_header_row_of(hash@, recorded_view(recorded)),
        r == !(recorded matches Some((_, known)) && known@ == hash@),
{
    match recorded {
        Some((_, known)) => !same_str(known, hash),
        None => true,
    }
}

/// How a gap retry proceeds.
#[derive(Debug, Clone, Copy, PartialEq, Eq)]
pub enum BackfillStep {
    /// No canonical block, or its body was recovered meanwhile.
    Skip,
    /// Fetch the body via getBlock for this row.
    Fetch { block_id: i64 },
}

pub fn backfill_step(recorded: Option<(i64, &str)>, uncaptured_row: Option<i64>) -> (s: BackfillStep)
    ensures
        recorded is None ==> s == BackfillStep::Skip,
        recorded is Some ==> (match uncaptured_row {
            Some(id) => s == (BackfillStep::Fetch { block_id: id }),
            None => s == BackfillStep::Skip,
        }),
{
    match recorded {
        None => BackfillStep::Skip,
        Some(_) => match uncaptured_row {
            Some(id) => BackfillStep::Fetch { block_id: id },
            None => BackfillStep::Skip,
        },
    }
}

/// The decoder self-check counter after one more mismatch: the recorded
/// count (0 where none reads as a number) plus one.
pub fn next_mismatch_count(state: Option<&str>) -> (s: String)
    requires
        match state {
            Some(t) => parsed_i64(t.spec_bytes()) != Some(i64::MAX),
            None => true,
        },
    ensures
        s@ == signed_decimal(
            match state {
                Some(t) => match parsed_i64(t.spec_bytes()) { Some(v) => v as int, None => 0 },
                None => 0,
            } + 1),
{
    let current: i64 = match state {
        Some(t) => match parse_i64(t) {
            Some(v) => v,
            None => 0,
        },
        None => 0,
    };
    decimal_i64(current + 1)
}

/// A scanned slot range's bounds grow where an occupied slot lies this
/// close to an edge.
pub const SLOT_SCAN_EDGE_MARGIN: u64 = 2_000;
/// How far a bound moves once the scan hits it.
pub const SLOT_SCAN_GROW_STEP: u64 = 250_000;
/// First-run bounds, padded past the dense band of occupied slots.
pub const SLOT_SCAN_DEFAULT_LOW: u64 = 9_500_000;
pub const SLOT_SCAN_DEFAULT_HIGH: u64 = 10_000_000;

pub open spec fn sat_add_u64(a: u64, b: u64) -> u64 {
    if a + b > u64::MAX { u64::MAX } else { (a + b) as u64 }
}

/// Whether an occupied slot at `idx` lies near the low edge and near the
/// high edge of `[low, high)`.
pub fn near_edges(idx: u64, low: u64, high: u64) -> (r: (bool, bool))
    ensures
        r.0 == (idx < sat_add_u64(low, 2_000)),
        r.1 == (sat_add_u64(idx, 2_000) >= high),
{
    (idx < low.saturating_add(SLOT_SCAN_EDGE_MARGIN), idx.saturating_add(SLOT_SCAN_EDGE_MARGIN) >= high)
}

/// The bounds for the next scan: an edge that was hit moves outward by the
/// grow step, the high one never past the state's capacity.
pub fn grown_bounds(low: u64, high: u64, hit_low: bool, hit_high: bool, capacity: u64) -> (r: (u64, u64))
    ensures
        r.0 == (if hit_low { sat_sub_u64(low, 250_000) } else { low }),
        r.1 == (if hit_high {
            if sat_add_u64(high, 250_000) <= capacity { sat_add_u64(high, 250_000) } else { capacity }
        } else {
            high
        }),
        r.0 <= low,
        !hit_high ==> r.1 == high,
{
    let new_low = if hit_low { low.saturating_sub(SLOT_SCAN_GROW_STEP) } else { low };
    let new_high = if hit_high {
        let grown = high.saturating_add(SLOT_SCAN_GROW_STEP);
        if grown <= capacity { grown } else { capacity }
    } else {
        high
    };
    (new_low, new_high)
}

/// The scan bound recorded under a state key, or its default.
pub fn scan_bound(state: Option<&str>, default: u64) -> (r: u64)
    ensures
        r == match state {
            Some(t) => match parsed_u64(t.spec_bytes()) { Some(v) => v, None => default },
            None => default,
        },
{
    match state {
        Some(t) => match parse_u64(t) {
            Some(v) => v,
            None => default,
        },
        None => default,
    }
}

/// Slot indices the state holds at `log_slots` (`None` where the tip's
/// header could not be read: no cap then).
pub fn slot_capacity(log_slots: Option<u32>) -> (r: u64)
    requires
        log_slots matches Some(l) ==> l < 64,
    ensures
        log_slots matches Some(l) ==> r == vstd::arithmetic::power2::pow2(l as nat),
        log_slots is None ==> r == u64::MAX,
{
    match log_slots {
        Some(l) => {
            proof {
                vstd::bits::lemma_u64_pow2_no_overflow(l as nat);
                vstd::bits::lemma_u64_shl_is_mul(1, l as u64);
            }
            1u64 << (l as u64)
        },
        None => u64::MAX,
    }
}


/// Whether the pruning pass runs after poll cycle `cycles`: only where
/// transaction detail has a retention limit, every `prune_every_cycles`
/// cycles.
pub fn prune_due(cycles: u64, retention_days: u64, prune_every_cycles: u64) -> (r: bool)
    requires
        retention_days > 0 ==> prune_every_cycles > 0,
    ensures
        r == (retention_days > 0 && cycles % prune_every_cycles == 0),
{
    retention_days > 0 && cycles % prune_every_cycles == 0
}

pub const SECONDS_PER_DAY: i64 = 86_400;

/// Blocks with a timestamp before this lose their transaction detail.
pub fn prune_cutoff(now_unix: i64, retention_days: u64) -> (r: i64)
    requires
        retention_days * 86_400 <= i64::MAX,
        now_unix - retention_days * 86_400 >= i64::MIN,
    ensures
        r == now_unix - retention_days * 86_400,
{
    now_unix - (retention_days as i64) * SECONDS_PER_DAY
}

/// A reorg never overwrites the history on record: where the recheck finds
/// the recorded block replaced, the node's block is stored on a row of its
/// own, whether the orphaned block is still looked up or no longer counts
/// as canonical, and a gap for it also gets its own header row; where the
/// node agrees with the record, storing the block again adds nothing new.
pub proof fn law_reorg_keeps_history(
    node_hash: Seq<char>,
    recorded: Option<(i64, Seq<char>)>,
    uncaptured_row: Option<i64>,
)
    ensures
        recheck_of(Some(node_hash), recorded) is Reorg ==> {
            &&& recheck_of(Some(node_hash), recorded) == (RecheckStep::Reorg { orphaned_block_id: (recorded->0).0 })
            &&& store_of(node_hash, recorded, uncaptured_row) == StoreStep::InsertNew
            &&& store_of(node_hash, None, uncaptured_row) == StoreStep::InsertNew
            &&& needs_header_row_of(node_hash, recorded)
        },
        recheck_of(Some(node_hash), recorded) is Nothing && recorded is Some ==>
            store_of(node_hash, recorded, None) == StoreStep::AlreadyStored,
{
}

} // verus!

//! Filling gaps from another permanode's database: a body is taken over
//! only for a block whose hash our own node reported, and only if its rows
//! add up (page hashes, input and output sums, fees, the coinbase).
use vstd::prelude::*;
use vstd::string::StringSliceAdditionalSpecFns;
use vstd::string::StringExecFns;
use crate::rpc::{BlockTransactionInfo, BlockTransactionInputInfo, BlockTransactionOutputInfo, RetainedBlockInfo};
use crate::text::{decimal, decimal_u64, parse_u64, parsed_u64};

verus! {

/// An input row as the source database holds it.
#[derive(Debug, Clone)]
pub struct StoredInput {
    pub page: i64,
    pub lane: i64,
    pub slot_index: i64,
    pub amount_micronoid: i64,
    pub creation_id: String,
}

/// An output row as the source database holds it.
#[derive(Debug, Clone)]
pub struct StoredOutput {
    pub page: i64,
    pub lane: i64,
    pub slot_index: i64,
    pub amount_micronoid: i64,
    pub owner: String,
    pub creation_id: String,
}

/// A transaction row with its page hashes, inputs and outputs, each in
/// index order.
#[derive(Debug, Clone)]
pub struct StoredTransaction {
    pub position: i64,
    pub txid: String,
    pub page_count: i64,
    pub fee_micronoid: i64,
    pub coinbase: bool,
    pub development_payout: bool,
    pub epoch_anchor: String,
    pub input_owner: Option<String>,
    pub input_sum_micronoid: String,
    pub output_sum_micronoid: String,
    pub page_hashes: Vec<String>,
    pub inputs: Vec<StoredInput>,
    pub outputs: Vec<StoredOutput>,
}

/// A block row marked as captured, with its transactions in position order.
#[derive(Debug, Clone)]
pub struct StoredBlock {
    pub proof_class: Option<String>,
    pub reward_micronoid: Option<i64>,
    pub total_fees_micronoid: Option<String>,
    pub transactions: Vec<StoredTransaction>,
}

/// Why a source body was rejected.
#[derive(Debug, Clone, Copy, PartialEq, Eq)]
pub enum ImportError {
    /// The block row is marked captured but has no body fields.
    MissingBodyFields,
    /// A creation id is not a `u64` in decimal.
    BadCreationId,
    /// A transaction has a different number of page hashes than pages.
    PageHashCount,
    /// A transaction's outputs do not add up to its recorded output sum.
    OutputSumMismatch,
    /// A transaction's inputs do not add up to its recorded input sum.
    InputSumMismatch,
    /// A user transaction's inputs are not its outputs plus its fee.
    Unbalanced,
    /// The block row is marked captured but has no transactions.
    NoTransactions,
    FirstNotCoinbase,
    /// The user transactions' fees do not add up to the block's total.
    FeeTotalMismatch,
    /// The coinbase outputs do not add up to the block's reward.
    CoinbaseTotalMismatch,
    /// A sum passes the width it is computed in: a transaction's amounts
    /// or the block's fees beyond 64 bits, its page, input or output counts
    /// beyond 32 bits.
    AmountOutOfRange,
}

/// How one gap fared in an import.
#[derive(Debug, Clone, Copy, PartialEq, Eq)]
pub enum GapOutcome {
    Imported,
    NotInSource,
    Rejected,
    /// No canonical row, or recovered in the meantime: nothing to do.
    Skipped,
}

#[derive(Debug, Default, Clone, Copy, PartialEq, Eq)]
pub struct ImportReport {
    pub gaps: usize,
    pub imported: usize,
    pub not_in_source: usize,
    pub rejected: usize,
    pub flags_cleared: usize,
}

/// Counts one gap's outcome.
pub fn tally(report: &mut ImportReport, outcome: GapOutcome)
    requires
        old(report).imported < usize::MAX,
        old(report).not_in_source < usize::MAX,
        old(report).rejected < usize::MAX,
    ensures
        final(report).gaps == old(report).gaps,
        final(report).flags_cleared == old(report).flags_cleared,
        final(report).imported == old(report).imported + (if outcome == GapOutcome::Imported { 1int } else { 0 }),
        final(report).not_in_source == old(report).not_in_source + (if outcome == GapOutcome::NotInSource { 1int } else { 0 }),
        final(report).rejected == old(report).rejected + (if outcome == GapOutcome::Rejected { 1int } else { 0 }),
{
    match outcome {
        GapOutcome::Imported => report.imported = report.imported + 1,
        GapOutcome::NotInSource => report.not_in_source = report.not_in_source + 1,
        GapOutcome::Rejected => report.rejected = report.rejected + 1,
        GapOutcome::Skipped => {},
    }
}

/// How many of the outcomes are `o`.
pub open spec fn count_of(outcomes: Seq<GapOutcome>, o: GapOutcome) -> nat
    decreases outcomes.len(),
{
    if outcomes.len() == 0 {
        0
    } else {
        count_of(outcomes.drop_last(), o) + (if outcomes.last() == o { 1nat } else { 0 })
    }
}

/// An import never counts more blocks imported, missing from the source or
/// rejected than it had gaps: each gap has one outcome.
pub proof fn law_import_counts_bounded(outcomes: Seq<GapOutcome>)
    ensures
        count_of(outcomes, GapOutcome::Imported) + count_of(outcomes, GapOutcome::NotInSource)
            + count_of(outcomes, GapOutcome::Rejected) <= outcomes.len(),
    decreases outcomes.len(),
{
    if outcomes.len() > 0 {
        law_import_counts_bounded(outcomes.drop_last());
    }
}

/// The report of an import with one outcome per gap, in the order the gaps
/// were taken; no spent-in-gap flags cleared yet.
pub fn import_report(outcomes: &Vec<GapOutcome>) -> (r: ImportReport)
    ensures
        r.gaps == outcomes@.len(),
        r.imported == count_of(outcomes@, GapOutcome::Imported),
        r.not_in_source == count_of(outcomes@, GapOutcome::NotInSource),
        r.rejected == count_of(outcomes@, GapOutcome::Rejected),
        r.flags_cleared == 0,
{
    let mut report = ImportReport { gaps: outcomes.len(), imported: 0, not_in_source: 0, rejected: 0, flags_cleared: 0 };
    let mut i: usize = 0;
    while i < outcomes.len()
        invariant
            i <= outcomes@.len(),
            report.gaps == outcomes@.len(),
            report.flags_cleared == 0,
            report.imported == count_of(outcomes@.take(i as int), GapOutcome::Imported),
            report.not_in_source == count_of(outcomes@.take(i as int), GapOutcome::NotInSource),
            report.rejected == count_of(outcomes@.take(i as int), GapOutcome::Rejected),
        decreases outcomes.len() - i,
    {
        proof {
            law_import_counts_bounded(outcomes@.take(i as int));
            assert(outcomes@.take(i + 1).drop_last() == outcomes@.take(i as int));
            assert(outcomes@.take(i + 1).last() == outcomes@[i as int]);
        }
        tally(&mut report, outcomes[i]);
        i += 1;
    }
    proof {
        assert(outcomes@.take(i as int) == outcomes@);
    }
    report
}

pub open spec fn output_total(outs: Seq<StoredOutput>) -> nat
    decreases outs.len(),
{
    if outs.len() == 0 { 0 } else { output_total(outs.drop_last()) + outs.last().amount_micronoid as u64 as nat }
}

pub open spec fn input_total(ins: Seq<StoredInput>) -> nat
    decreases ins.len(),
{
    if ins.len() == 0 { 0 } else { input_total(ins.drop_last()) + ins.last().amount_micronoid as u64 as nat }
}

/// The UTF-8 bytes of a text value.
pub open spec fn text_bytes(s: String) -> Seq<u8> {
    vstd::utf8::encode_utf8(s@)
}

pub open spec fn id_of(s: String) -> Option<u64> {
    parsed_u64(text_bytes(s))
}

pub open spec fn ids_parse(t: StoredTransaction) -> bool {
    &&& forall|i: int| 0 <= i < t.inputs@.len() ==> id_of((#[trigger] t.inputs@[i]).creation_id) is Some
    &&& forall|i: int| 0 <= i < t.outputs@.len() ==> id_of((#[trigger] t.outputs@[i]).creation_id) is Some
}

pub open spec fn is_user(t: StoredTransaction) -> bool {
    !t.coinbase && !t.development_payout
}

/// Why a transaction's rows do not add up, `None` if they do.
pub open spec fn tx_failure(t: StoredTransaction) -> Option<ImportError> {
    if !ids_parse(t) {
        Some(ImportError::BadCreationId)
    } else if t.page_hashes@.len() != t.page_count as usize {
        Some(ImportError::PageHashCount)
    } else if output_total(t.outputs@) > u64::MAX {
        Some(ImportError::AmountOutOfRange)
    } else if decimal(output_total(t.outputs@)) != t.output_sum_micronoid@ {
        Some(ImportError::OutputSumMismatch)
    } else if input_total(t.inputs@) > u64::MAX {
        Some(ImportError::AmountOutOfRange)
    } else if decimal(input_total(t.inputs@)) != t.input_sum_micronoid@ {
        Some(ImportError::InputSumMismatch)
    } else if is_user(t) && output_total(t.outputs@) + t.fee_micronoid as u64 > u64::MAX {
        Some(ImportError::AmountOutOfRange)
    } else if is_user(t) && input_total(t.inputs@) != output_total(t.outputs@) + t.fee_micronoid as u64 {
        Some(ImportError::Unbalanced)
    } else {
        None
    }
}

/// The first transaction that does not add up.
pub open spec fn txs_failure(ts: Seq<StoredTransaction>) -> Option<ImportError>
    decreases ts.len(),
{
    if ts.len() == 0 {
        None
    } else {
        match txs_failure(ts.drop_last()) {
            Some(e) => Some(e),
            None => tx_failure(ts.last()),
        }
    }
}

/// Fees of the non-coinbase transactions.
pub open spec fn user_fee_total(ts: Seq<StoredTransaction>) -> nat
    decreases ts.len(),
{
    if ts.len() == 0 {
        0
    } else {
        user_fee_total(ts.drop_last()) + (if !ts.last().coinbase { ts.last().fee_micronoid as u64 as nat } else { 0 })
    }
}

pub open spec fn user_pages_total(ts: Seq<StoredTransaction>) -> nat
    decreases ts.len(),
{
    if ts.len() == 0 {
        0
    } else {
        user_pages_total(ts.drop_last()) + (if is_user(ts.last()) { ts.last().page_count as u32 as nat } else { 0 })
    }
}

pub open spec fn inputs_total_count(ts: Seq<StoredTransaction>) -> nat
    decreases ts.len(),
{
    if ts.len() == 0 { 0 } else { inputs_total_count(ts.drop_last()) + ts.last().inputs@.len() as u32 as nat }
}

pub open spec fn outputs_total_count(ts: Seq<StoredTransaction>) -> nat
    decreases ts.len(),
{
    if ts.len() == 0 { 0 } else { outputs_total_count(ts.drop_last()) + ts.last().outputs@.len() as u32 as nat }
}

/// Why the source body is rejected, in the order the checks run; `None`
/// if it is accepted.
pub open spec fn stored_failure(b: StoredBlock) -> Option<ImportError> {
    let ts = b.transactions@;
    if b.proof_class is None || b.reward_micronoid is None || b.total_fees_micronoid is None {
        Some(ImportError::MissingBodyFields)
    } else if txs_failure(ts) is Some {
        txs_failure(ts)
    } else if ts.len() == 0 {
        Some(ImportError::NoTransactions)
    } else if !ts[0].coinbase {
        Some(ImportError::FirstNotCoinbase)
    } else if user_fee_total(ts) > u64::MAX {
        Some(ImportError::AmountOutOfRange)
    } else if decimal(user_fee_total(ts)) != b.total_fees_micronoid->0@ {
        Some(ImportError::FeeTotalMismatch)
    } else if output_total(ts[0].outputs@) != b.reward_micronoid->0 as u64 {
        Some(ImportError::CoinbaseTotalMismatch)
    } else if user_pages_total(ts) > u32::MAX || inputs_total_count(ts) > u32::MAX
        || outputs_total_count(ts) > u32::MAX {
        Some(ImportError::AmountOutOfRange)
    } else {
        None
    }
}

pub open spec fn input_row(i: StoredInput) -> BlockTransactionInputInfo {
    BlockTransactionInputInfo {
        page: i.page as u32,
        lane: i.lane as u32,
        slot_index: i.slot_index as u64,
        amount_micronoid: i.amount_micronoid as u64,
        creation_id: id_of(i.creation_id)->0,
    }
}

pub open spec fn output_row(o: StoredOutput) -> BlockTransactionOutputInfo {
    BlockTransactionOutputInfo {
        page: o.page as u32,
        lane: o.lane as u32,
        slot_index: o.slot_index as u64,
        amount_micronoid: o.amount_micronoid as u64,
        owner: o.owner,
        creation_id: id_of(o.creation_id)->0,
    }
}

/// A transaction taken over from its rows.
pub open spec fn describes_stored(tx: BlockTransactionInfo, t: StoredTransaction) -> bool {
    &&& tx.position == t.position as u32
    &&& tx.txid == t.txid
    &&& tx.page_count == t.page_count as u32
    &&& tx.live_inputs == t.inputs@.len() as u32
    &&& tx.live_outputs == t.outputs@.len() as u32
    &&& tx.fee_micronoid == t.fee_micronoid as u64
    &&& tx.coinbase == t.coinbase
    &&& tx.development_payout == t.development_payout
    &&& tx.epoch_anchor == t.epoch_anchor
    &&& tx.input_owner == t.input_owner
    &&& tx.input_sum_micronoid == t.input_sum_micronoid
    &&& tx.output_sum_micronoid == t.output_sum_micronoid
    &&& tx.page_hashes@ == t.page_hashes@
    &&& tx.inputs@ == Seq::new(t.inputs@.len(), |i: int| input_row(t.inputs@[i]))
    &&& tx.outputs@ == Seq::new(t.outputs@.len(), |i: int| output_row(t.outputs@[i]))
}

/// The body as taken over from the source rows.
pub open spec fn describes_import(info: RetainedBlockInfo, b: StoredBlock) -> bool {
    let ts = b.transactions@;
    &&& info.proof_class == b.proof_class->0
    &&& info.logical_transactions == ts.len() as u32
    &&& info.user_pages == user_pages_total(ts)
    &&& info.live_inputs == inputs_total_count(ts)
    &&& info.live_outputs == outputs_total_count(ts)
    &&& info.reward_micronoid == b.reward_micronoid->0 as u64
    &&& info.total_fees_micronoid == b.total_fees_micronoid->0
    &&& info.block_bytes == 0
    &&& info.transactions@.len() == ts.len()
    &&& forall|i: int| 0 <= i < ts.len() ==> describes_stored(#[trigger] info.transactions@[i], ts[i])
}

fn creation_id(text: &String) -> (r: Option<u64>)
    ensures
        r == id_of(*text),
{
    parse_u64(text.as_str())
}

fn convert_inputs(ins: &Vec<StoredInput>) -> (r: Option<Vec<BlockTransactionInputInfo>>)
    ensures
        r is Some <==> forall|i: int| 0 <= i < ins@.len() ==> id_of((#[trigger] ins@[i]).creation_id) is Some,
        r matches Some(v) ==> v@ == Seq::new(ins@.len(), |i: int| input_row(ins@[i])),
{
    let mut out: Vec<BlockTransactionInputInfo> = Vec::new();
    let mut i: usize = 0;
    while i < ins.len()
        invariant
            i <= ins@.len(),
            out@ == Seq::new(i as nat, |j: int| input_row(ins@[j])),
            forall|j: int| 0 <= j < i ==> id_of((#[trigger] ins@[j]).creation_id) is Some,
        decreases ins.len() - i,
    {
        let x = &ins[i];
        match creation_id(&x.creation_id) {
            Some(id) => {
                out.push(BlockTransactionInputInfo {
                    page: x.page as u32,
                    lane: x.lane as u32,
                    slot_index: x.slot_index as u64,
                    amount_micronoid: x.amount_micronoid as u64,
                    creation_id: id,
                });
            },
            None => {
                return None;
            },
        }
        i += 1;
    }
    Some(out)
}

fn convert_outputs(outs: &Vec<StoredOutput>) -> (r: Option<Vec<BlockTransactionOutputInfo>>)
    ensures
        r is Some <==> forall|i: int| 0 <= i < outs@.len() ==> id_of((#[trigger] outs@[i]).creation_id) is Some,
        r matches Some(v) ==> v@ == Seq::new(outs@.len(), |i: int| output_row(outs@[i])),
{
    let mut out: Vec<BlockTransactionOutputInfo> = Vec::new();
    let mut i: usize = 0;
    while i < outs.len()
        invariant
            i <= outs@.len(),
            out@ == Seq::new(i as nat, |j: int| output_row(outs@[j])),
            forall|j: int| 0 <= j < i ==> id_of((#[trigger] outs@[j]).creation_id) is Some,
        decreases outs.len() - i,
    {
        let x = &outs[i];
        match creation_id(&x.creation_id) {
            Some(id) => {
                out.push(BlockTransactionOutputInfo {
                    page: x.page as u32,
                    lane: x.lane as u32,
                    slot_index: x.slot_index as u64,
                    amount_micronoid: x.amount_micronoid as u64,
                    owner: x.owner.clone(),
                    creation_id: id,
                });
            },
            None => {
                return None;
            },
        }
        i += 1;
    }
    Some(out)
}

proof fn lemma_output_total_prefix(outs: Seq<StoredOutput>, k: int)
    requires
        0 <= k <= outs.len(),
    ensures
        output_total(outs.take(k)) <= output_total(outs),
    decreases outs.len(),
{
    if k < outs.len() {
        lemma_output_total_prefix(outs.drop_last(), k);
        assert(outs.drop_last().take(k) == outs.take(k));
    } else {
        assert(outs.take(k) == outs);
    }
}

proof fn lemma_input_total_prefix(ins: Seq<StoredInput>, k: int)
    requires
        0 <= k <= ins.len(),
    ensures
        input_total(ins.take(k)) <= input_total(ins),
    decreases ins.len(),
{
    if k < ins.len() {
        lemma_input_total_prefix(ins.drop_last(), k);
        assert(ins.drop_last().take(k) == ins.take(k));
    } else {
        assert(ins.take(k) == ins);
    }
}

fn checked_output_total(outs: &Vec<StoredOutput>) -> (r: Option<u64>)
    ensures
        r is Some <==> output_total(outs@) <= u64::MAX,
        r matches Some(v) ==> v == output_total(outs@),
{
    let mut total: u64 = 0;
    let mut i: usize = 0;
    while i < outs.len()
        invariant
            i <= outs@.len(),
            total == output_total(outs@.take(i as int)),
        decreases outs.len() - i,
    {
        proof {
            assert(outs@.take(i + 1).drop_last() == outs@.take(i as int));
        }
        match total.checked_add(outs[i].amount_micronoid as u64) {
            Some(v) => total = v,
            None => {
                proof {
                    lemma_output_total_prefix(outs@, i + 1);
                }
                return None;
            },
        }
        i += 1;
    }
    proof {
        assert(outs@.take(i as int) == outs@);
    }
    Some(total)
}

fn checked_input_total(ins: &Vec<StoredInput>) -> (r: Option<u64>)
    ensures
        r is Some <==> input_total(ins@) <= u64::MAX,
        r matches Some(v) ==> v == input_total(ins@),
{
    let mut total: u64 = 0;
    let mut i: usize = 0;
    while i < ins.len()
        invariant
            i <= ins@.len(),
            total == input_total(ins@.take(i as int)),
        decreases ins.len() - i,
    {
        proof {
            assert(ins@.take(i + 1).drop_last() == ins@.take(i as int));
        }
        match total.checked_add(ins[i].amount_micronoid as u64) {
            Some(v) => total = v,
            None => {
                proof {
                    lemma_input_total_prefix(ins@, i + 1);
                }
                return None;
            },
        }
        i += 1;
    }
    proof {
        assert(ins@.take(i as int) == ins@);
    }
    Some(total)
}

fn same_text(a: &String, b: &String) -> (r: bool)
    ensures
        r == (a@ == b@),
{
    *a == *b
}

/// Takes one transaction over from its rows, or says why they do not add
/// up.
fn check_stored_transaction(t: &StoredTransaction) -> (r: Result<BlockTransactionInfo, ImportError>)
    ensures
        r is Err <==> tx_failure(*t) is Some,
        r matches Err(e) ==> tx_failure(*t) == Some(e),
        r matches Ok(tx) ==> describes_stored(tx, *t),
{
    let inputs = match convert_inputs(&t.inputs) {
        Some(v) => v,
        None => return Err(ImportError::BadCreationId),
    };
    let outputs = match convert_outputs(&t.outputs) {
        Some(v) => v,
        None => return Err(ImportError::BadCreationId),
    };
    if t.page_hashes.len() != t.page_count as usize {
        return Err(ImportError::PageHashCount);
    }
    let out_total = match checked_output_total(&t.outputs) {
        Some(v) => v,
        None => return Err(ImportError::AmountOutOfRange),
    };
    if !same_text(&decimal_u64(out_total), &t.output_sum_micronoid) {
        return Err(ImportError::OutputSumMismatch);
    }
    let in_total = match checked_input_total(&t.inputs) {
        Some(v) => v,
        None => return Err(ImportError::AmountOutOfRange),
    };
    if !same_text(&decimal_u64(in_total), &t.input_sum_micronoid) {
        return Err(ImportError::InputSumMismatch);
    }
    let user = !t.coinbase && !t.development_payout;
    if user && out_total > u64::MAX - (t.fee_micronoid as u64) {
        return Err(ImportError::AmountOutOfRange);
    }
    if user && in_total != out_total + t.fee_micronoid as u64 {
        return Err(ImportError::Unbalanced);
    }
    Ok(BlockTransactionInfo {
        position: t.position as u32,
        txid: t.txid.clone(),
        page_count: t.page_count as u32,
        live_inputs: inputs.len() as u32,
        live_outputs: outputs.len() as u32,
        fee_micronoid: t.fee_micronoid as u64,
        coinbase: t.coinbase,
        development_payout: t.development_payout,
        epoch_anchor: t.epoch_anchor.clone(),
        input_owner: t.input_owner.clone(),
        input_sum_micronoid: t.input_sum_micronoid.clone(),
        output_sum_micronoid: t.output_sum_micronoid.clone(),
        page_hashes: t.page_hashes.clone(),
        inputs,
        outputs,
    })
}


/// Takes a source body over for a gap, if its rows add up: every
/// transaction on its own (`tx_failure`), then the block as a whole (a
/// coinbase first, fees adding up to the block's total, coinbase outputs
/// to its reward).
pub fn accept_stored_body(b: &StoredBlock) -> (r: Result<RetainedBlockInfo, ImportError>)
    ensures
        r is Err <==> stored_failure(*b) is Some,
        r matches Err(e) ==> stored_failure(*b) == Some(e),
        r matches Ok(info) ==> describes_import(info, *b),
{
    let proof_class = match &b.proof_class {
        Some(p) => p.clone(),
        None => return Err(ImportError::MissingBodyFields),
    };
    let reward = match b.reward_micronoid {
        Some(r) => r,
        None => return Err(ImportError::MissingBodyFields),
    };
    let total_fees = match &b.total_fees_micronoid {
        Some(f) => f.clone(),
        None => return Err(ImportError::MissingBodyFields),
    };
    let ghost ts = b.transactions@;
    let mut transactions: Vec<BlockTransactionInfo> = Vec::new();
    let mut fee_total: u128 = 0;
    let mut user_pages: u128 = 0;
    let mut live_inputs: u128 = 0;
    let mut live_outputs: u128 = 0;
    let mut i: usize = 0;
    while i < b.transactions.len()
        invariant
            ts == b.transactions@,
            fee_total <= i * 0xffff_ffff_ffff_ffff,
            user_pages <= i * 0xffff_ffff,
            live_inputs <= i * 0xffff_ffff,
            live_outputs <= i * 0xffff_ffff,
            b.proof_class == Some(proof_class),
            b.total_fees_micronoid == Some(total_fees),
            b.reward_micronoid == Some(reward),
            i <= ts.len(),
            txs_failure(ts.take(i as int)) is None,
            transactions@.len() == i,
            forall|j: int| 0 <= j < i ==> describes_stored(#[trigger] transactions@[j], ts[j]),
            fee_total == user_fee_total(ts.take(i as int)),
            user_pages == user_pages_total(ts.take(i as int)),
            live_inputs == inputs_total_count(ts.take(i as int)),
            live_outputs == outputs_total_count(ts.take(i as int)),
        decreases b.transactions.len() - i,
    {
        let t = &b.transactions[i];
        proof {
            assert(ts.take(i + 1).drop_last() == ts.take(i as int));
            assert(ts.take(i + 1).last() == *t);
        }
        let tx = match check_stored_transaction(t) {
            Ok(tx) => tx,
            Err(e) => {
                proof {
                    lemma_body_fails_at(*b, i as int, e);
                }
                return Err(e);
            },
        };
        if !t.coinbase {
            fee_total = fee_total + (#[verifier::truncate] (t.fee_micronoid as u64)) as u128;
        }
        if !t.coinbase && !t.development_payout {
            user_pages = user_pages + (#[verifier::truncate] (t.page_count as u32)) as u128;
        }
        live_inputs = live_inputs + (#[verifier::truncate] (t.inputs.len() as u32)) as u128;
        live_outputs = live_outputs + (#[verifier::truncate] (t.outputs.len() as u32)) as u128;
        transactions.push(tx);
        i += 1;
    }
    proof {
        assert(ts.take(i as int) == ts);
    }
    if transactions.len() == 0 {
        return Err(ImportError::NoTransactions);
    }
    if !b.transactions[0].coinbase {
        return Err(ImportError::FirstNotCoinbase);
    }
    if fee_total > u64::MAX as u128 {
        return Err(ImportError::AmountOutOfRange);
    }
    if !same_text(&decimal_u64(fee_total as u64), &total_fees) {
        return Err(ImportError::FeeTotalMismatch);
    }
    proof {
        lemma_no_failure_each(ts);
        assert(tx_failure(ts[0]) is None);
    }
    let coinbase_total = match checked_output_total(&b.transactions[0].outputs) {
        Some(v) => v,
        None => return Err(ImportError::AmountOutOfRange),
    };
    if coinbase_total != #[verifier::truncate] (reward as u64) {
        return Err(ImportError::CoinbaseTotalMismatch);
    }
    if user_pages > u32::MAX as u128 || live_inputs > u32::MAX as u128 || live_outputs > u32::MAX as u128 {
        return Err(ImportError::AmountOutOfRange);
    }
    Ok(RetainedBlockInfo {
        proof_class,
        logical_transactions: #[verifier::truncate] (transactions.len() as u32),
        user_pages: user_pages as u32,
        live_inputs: live_inputs as u32,
        live_outputs: live_outputs as u32,
        reward_micronoid: #[verifier::truncate] (reward as u64),
        total_fees_micronoid: total_fees,
        block_bytes: 0,
        transactions,
    })
}

proof fn lemma_body_fails_at(b: StoredBlock, i: int, e: ImportError)
    requires
        0 <= i < b.transactions@.len(),
        b.proof_class is Some && b.reward_micronoid is Some && b.total_fees_micronoid is Some,
        txs_failure(b.transactions@.take(i)) is None,
        tx_failure(b.transactions@[i]) == Some(e),
    ensures
        stored_failure(b) == Some(e),
{
    let ts = b.transactions@;
    assert(ts.take(i + 1).drop_last() == ts.take(i));
    assert(ts.take(i + 1).last() == ts[i]);
    assert(txs_failure(ts.take(i + 1)) == Some(e));
    lemma_failure_extends(ts, i + 1);
}

/// A failure among the first `k` transactions is the body's failure.
proof fn lemma_failure_extends(ts: Seq<StoredTransaction>, k: int)
    requires
        0 <= k <= ts.len(),
        txs_failure(ts.take(k)) is Some,
    ensures
        txs_failure(ts) == txs_failure(ts.take(k)),
    decreases ts.len(),
{
    if k < ts.len() {
        assert(ts.drop_last().take(k) == ts.take(k));
        lemma_failure_extends(ts.drop_last(), k);
    } else {
        assert(ts.take(k) == ts);
    }
}

proof fn lemma_no_failure_each(ts: Seq<StoredTransaction>)
    requires
        txs_failure(ts) is None,
    ensures
        forall|i: int| 0 <= i < ts.len() ==> tx_failure(#[trigger] ts[i]) is None,
    decreases ts.len(),
{
    if ts.len() > 0 {
        lemma_no_failure_each(ts.drop_last());
        assert forall|i: int| 0 <= i < ts.len() implies tx_failure(#[trigger] ts[i]) is None by {
            if i < ts.len() - 1 {
                assert(ts[i] == ts.drop_last()[i]);
            }
        }
    }
}

/// An accepted body adds up: every transaction has one page hash per page,
/// its inputs and outputs sum to its recorded sums, every user transaction
/// spends exactly its outputs plus its fee; the first transaction is the
/// coinbase, the user fees make the block's total and the coinbase outputs
/// its reward.
pub proof fn law_accepted_body_adds_up(b: StoredBlock)
    requires
        stored_failure(b) is None,
    ensures
        ({
            let ts = b.transactions@;
            &&& ts.len() >= 1 && ts[0].coinbase
            &&& forall|i: int| 0 <= i < ts.len() ==> {
                &&& (#[trigger] ts[i]).page_hashes@.len() == ts[i].page_count as usize
                &&& decimal(output_total(ts[i].outputs@)) == ts[i].output_sum_micronoid@
                &&& decimal(input_total(ts[i].inputs@)) == ts[i].input_sum_micronoid@
                &&& is_user(ts[i]) ==> input_total(ts[i].inputs@) == output_total(ts[i].outputs@) + ts[i].fee_micronoid as u64
            }
            &&& decimal(user_fee_total(ts)) == b.total_fees_micronoid->0@
            &&& output_total(ts[0].outputs@) == b.reward_micronoid->0 as u64
        }),
{
    lemma_no_failure_each(b.transactions@);
}


/// The block's user fees count every transaction that is not a coinbase,
/// once: nothing for no transactions, one more transaction adds its fee if
/// it is not a coinbase and nothing if it is; two runs add up.
pub proof fn law_user_fees_add_each_transaction(ts: Seq<StoredTransaction>, t: StoredTransaction, more: Seq<StoredTransaction>)
    ensures
        user_fee_total(Seq::<StoredTransaction>::empty()) == 0,
        user_fee_total(ts.push(t)) == user_fee_total(ts) + (if !t.coinbase { t.fee_micronoid as u64 as nat } else { 0 }),
        user_fee_total(ts + more) == user_fee_total(ts) + user_fee_total(more),
    decreases more.len(),
{
    assert(ts.push(t).drop_last() == ts);
    if more.len() == 0 {
        assert(ts + more == ts);
    } else {
        law_user_fees_add_each_transaction(ts, t, more.drop_last());
        assert((ts + more).drop_last() == ts + more.drop_last());
        assert((ts + more).last() == more.last());
    }
}

/// A body whose rows add up, that opens with its coinbase, and whose user
/// fees make exactly the recorded total is never refused for its fees.
pub proof fn law_matching_fees_not_refused(b: StoredBlock)
    requires
        b.total_fees_micronoid is Some,
        user_fee_total(b.transactions@) <= u64::MAX,
        decimal(user_fee_total(b.transactions@)) == b.total_fees_micronoid->0@,
    ensures
        stored_failure(b) != Some(ImportError::FeeTotalMismatch),
{
    lemma_rows_never_fail_on_fees(b.transactions@);
}

proof fn lemma_rows_never_fail_on_fees(ts: Seq<StoredTransaction>)
    ensures
        txs_failure(ts) != Some(ImportError::FeeTotalMismatch),
    decreases ts.len(),
{
    if ts.len() > 0 {
        lemma_rows_never_fail_on_fees(ts.drop_last());
    }
}

/// A transaction's stored output and input totals count every row once:
/// one more row adds exactly its amount, and two runs add up.
pub proof fn law_row_totals_add_each_row(outs: Seq<StoredOutput>, o: StoredOutput, more_outs: Seq<StoredOutput>,
    ins: Seq<StoredInput>, i: StoredInput, more_ins: Seq<StoredInput>)
    ensures
        output_total(Seq::<StoredOutput>::empty()) == 0,
        input_total(Seq::<StoredInput>::empty()) == 0,
        output_total(outs.push(o)) == output_total(outs) + o.amount_micronoid as u64,
        input_total(ins.push(i)) == input_total(ins) + i.amount_micronoid as u64,
        output_total(outs + more_outs) == output_total(outs) + output_total(more_outs),
        input_total(ins + more_ins) == input_total(ins) + input_total(more_ins),
    decreases more_outs.len() + more_ins.len(),
{
    assert(outs.push(o).drop_last() == outs);
    assert(ins.push(i).drop_last() == ins);
    if more_outs.len() == 0 {
        assert(outs + more_outs == outs);
    } else {
        law_row_totals_add_each_row(outs, o, more_outs.drop_last(), ins, i, Seq::<StoredInput>::empty());
        assert((outs + more_outs).drop_last() == outs + more_outs.drop_last());
        assert((outs + more_outs).last() == more_outs.last());
    }
    if more_ins.len() == 0 {
        assert(ins + more_ins == ins);
    } else {
        law_row_totals_add_each_row(outs, o, Seq::<StoredOutput>::empty(), ins, i, more_ins.drop_last());
        assert((ins + more_ins).drop_last() == ins + more_ins.drop_last());
        assert((ins + more_ins).last() == more_ins.last());
    }
}

/// A user transaction is neither a coinbase nor a development payout; the
/// body's counts count every transaction once: one more transaction adds
/// its pages if it is a user transaction, and its inputs and outputs
/// whatever it is.
pub proof fn law_body_counts_add_each_transaction(ts: Seq<StoredTransaction>, t: StoredTransaction)
    ensures
        is_user(t) == (!t.coinbase && !t.development_payout),
        user_pages_total(Seq::<StoredTransaction>::empty()) == 0,
        inputs_total_count(Seq::<StoredTransaction>::empty()) == 0,
        outputs_total_count(Seq::<StoredTransaction>::empty()) == 0,
        user_pages_total(ts.push(t)) == user_pages_total(ts) + (if is_user(t) { t.page_count as u32 as nat } else { 0 }),
        inputs_total_count(ts.push(t)) == inputs_total_count(ts) + t.inputs@.len() as u32,
        outputs_total_count(ts.push(t)) == outputs_total_count(ts) + t.outputs@.len() as u32,
{
    assert(ts.push(t).drop_last() == ts);
}

/// One more gap counts once, under its own outcome and no other.
pub proof fn law_count_of_adds_each_outcome(outcomes: Seq<GapOutcome>, last: GapOutcome, o: GapOutcome)
    ensures
        count_of(Seq::<GapOutcome>::empty(), o) == 0,
        count_of(outcomes.push(last), o) == count_of(outcomes, o) + (if last == o { 1int } else { 0 }),
{
    assert(outcomes.push(last).drop_last() == outcomes);
}


/// A body's rows pass exactly when every transaction's rows add up.
pub proof fn law_rows_pass_when_each_transaction_does(ts: Seq<StoredTransaction>)
    ensures
        (txs_failure(ts) is None) == (forall|i: int| 0 <= i < ts.len() ==> tx_failure(#[trigger] ts[i]) is None),
    decreases ts.len(),
{
    if txs_failure(ts) is None {
        lemma_no_failure_each(ts);
    } else if ts.len() > 0 {
        law_rows_pass_when_each_transaction_does(ts.drop_last());
        if txs_failure(ts.drop_last()) is None {
            assert(tx_failure(ts[ts.len() - 1]) is Some);
        } else {
            let i = choose|i: int| 0 <= i < ts.drop_last().len() && !(tx_failure(#[trigger] ts.drop_last()[i]) is None);
            assert(ts.drop_last()[i] == ts[i]);
        }
    }
}

/// Rows that do not add up are refused with the reason of the first
/// transaction that does not add up.
pub proof fn law_first_failing_transaction_decides(ts: Seq<StoredTransaction>, i: int)
    requires
        0 <= i < ts.len(),
        tx_failure(ts[i]) is Some,
        forall|j: int| 0 <= j < i ==> tx_failure(#[trigger] ts[j]) is None,
    ensures
        txs_failure(ts) == tx_failure(ts[i]),
    decreases ts.len(),
{
    let pre = ts.drop_last();
    if i == ts.len() - 1 {
        assert forall|j: int| 0 <= j < pre.len() implies tx_failure(#[trigger] pre[j]) is None by {
            assert(pre[j] == ts[j]);
        }
        law_rows_pass_when_each_transaction_does(pre);
    } else {
        assert forall|j: int| 0 <= j < i implies tx_failure(#[trigger] pre[j]) is None by {
            assert(pre[j] == ts[j]);
        }
        assert(pre[i] == ts[i]);
        law_first_failing_transaction_decides(pre, i);
    }
}

} // verus!

//! Decoding a raw block body into the shape `paranoid_getBlockDetails`
//! reports, for blocks the node hides from that method. The node's own
//! crate parses the bytes; this module binds the body to the canonical
//! header and derives every field: txids, amounts, creation ids from the
//! block's allocation counter, fees.
use vstd::prelude::*;
use vstd::string::StringSliceAdditionalSpecFns;
use vstd::string::StringExecFns;
use crate::fees::sat_add;
use crate::hexcodec::{encode_hex, hex_lower};
use crate::rpc::{BlockTransactionInfo, BlockTransactionInputInfo, BlockTransactionOutputInfo, RetainedBlockInfo};
use crate::text::{decimal, decimal_u128, decimal_u64};

verus! {

/// A live input of a page.
#[derive(Debug, Clone)]
pub struct PageInput {
    pub lane: u8,
    pub slot_index: u64,
    pub amount: u64,
    pub creation_id: u64,
}

/// A live output of a page; the owner as its bech32m address.
#[derive(Debug, Clone)]
pub struct PageOutput {
    pub lane: u8,
    pub slot_index: u64,
    pub amount: u64,
    pub owner: String,
}

/// One transaction page of a block body.
#[derive(Debug, Clone)]
pub struct BlockPage {
    pub txid: Vec<u8>,
    pub epoch_anchor: Vec<u8>,
    pub inputs: Vec<PageInput>,
    pub outputs: Vec<PageOutput>,
}

/// A user spend spanning `page_count` pages from `start_page` on.
#[derive(Debug, Clone)]
pub struct PagedSpend {
    pub position: u32,
    pub start_page: usize,
    pub page_count: u16,
    pub logical_txid: Vec<u8>,
    pub live_inputs: u16,
    pub live_outputs: u16,
    pub fee: u64,
    pub epoch_anchor: Vec<u8>,
    pub input_owner: String,
    pub input_sum: u128,
    pub output_sum: u128,
}

#[derive(Debug, Clone, Copy, PartialEq, Eq)]
pub enum ProofClass {
    B25,
    B255,
}

/// What the node's crate reads out of a block's bytes.
#[derive(Debug, Clone)]
pub struct ParsedBlock {
    pub height: u64,
    pub block_id: Vec<u8>,
    pub alloc_counter: u64,
    /// The creation id the protocol gives coinbase outputs at this height.
    pub coinbase_creation_id: u64,
    pub byte_len: u64,
    pub proof_class: ProofClass,
    pub page_count: u16,
    pub live_inputs: u16,
    pub live_outputs: u16,
    pub has_development_payout: bool,
    pub pages: Vec<BlockPage>,
    pub spends: Vec<PagedSpend>,
    pub logical_txids: Vec<Vec<u8>>,
}

/// Why a body was not accepted.
#[derive(Debug, Clone, Copy, PartialEq, Eq)]
pub enum DecodeError {
    /// Genesis has no coinbase or transactions.
    GenesisHeight,
    HeightMismatch { body: u64, expected: u64 },
    HashMismatch,
    MissingCoinbase,
    TooManyOutputs,
    MissingPayoutPage,
    AllocUnderflow,
    MissingTxid,
    PageRange,
    /// The allocation cursor after the block's last output is not its
    /// allocation counter; `cursor` is `None` where it passes `u64::MAX`.
    AllocMismatch { cursor: Option<u64>, counter: u64 },
}

pub open spec fn proof_class_name(c: ProofClass) -> Seq<char> {
    match c {
        ProofClass::B25 => "B25 / m22"@,
        ProofClass::B255 => "B255 / m24"@,
    }
}

pub open spec fn input_info(page: nat, i: PageInput) -> BlockTransactionInputInfo {
    BlockTransactionInputInfo {
        page: page as u32,
        lane: i.lane as u32,
        slot_index: i.slot_index,
        amount_micronoid: i.amount,
        creation_id: i.creation_id,
    }
}

pub open spec fn output_info(page: nat, o: PageOutput, creation_id: nat) -> BlockTransactionOutputInfo {
    BlockTransactionOutputInfo {
        page: page as u32,
        lane: o.lane as u32,
        slot_index: o.slot_index,
        amount_micronoid: o.amount,
        owner: o.owner,
        creation_id: creation_id as u64,
    }
}

/// The outputs of page `page`, numbered from `first_id` on.
pub open spec fn numbered_outputs(page: nat, outs: Seq<PageOutput>, first_id: nat) -> Seq<BlockTransactionOutputInfo> {
    Seq::new(outs.len(), |i: int| output_info(page, outs[i], (first_id + i) as nat))
}

pub open spec fn page_inputs(page: nat, ins: Seq<PageInput>) -> Seq<BlockTransactionInputInfo> {
    Seq::new(ins.len(), |i: int| input_info(page, ins[i]))
}

/// Live outputs on these pages.
pub open spec fn outputs_on(pages: Seq<BlockPage>) -> nat
    decreases pages.len(),
{
    if pages.len() == 0 { 0 } else { outputs_on(pages.drop_last()) + pages.last().outputs@.len() }
}

/// The outputs of a spend's pages, page by page, numbered from `first_id`.
pub open spec fn spend_outputs(pages: Seq<BlockPage>, first_id: nat) -> Seq<BlockTransactionOutputInfo>
    decreases pages.len(),
{
    if pages.len() == 0 {
        seq![]
    } else {
        spend_outputs(pages.drop_last(), first_id)
            + numbered_outputs((pages.len() - 1) as nat, pages.last().outputs@, first_id + outputs_on(pages.drop_last()))
    }
}

/// The inputs of a spend's pages, page by page.
pub open spec fn spend_inputs(pages: Seq<BlockPage>) -> Seq<BlockTransactionInputInfo>
    decreases pages.len(),
{
    if pages.len() == 0 {
        seq![]
    } else {
        spend_inputs(pages.drop_last()) + page_inputs((pages.len() - 1) as nat, pages.last().inputs@)
    }
}

/// The saturating sum of the outputs' amounts.
pub open spec fn amount_sat_sum(outs: Seq<PageOutput>) -> u64
    decreases outs.len(),
{
    if outs.len() == 0 { 0 } else { sat_add(amount_sat_sum(outs.drop_last()) as nat, outs.last().amount as nat) }
}

pub open spec fn amount_sum(outs: Seq<PageOutput>) -> nat
    decreases outs.len(),
{
    if outs.len() == 0 { 0 } else { amount_sum(outs.drop_last()) + outs.last().amount as nat }
}

pub open spec fn fee_sum(spends: Seq<PagedSpend>) -> nat
    decreases spends.len(),
{
    if spends.len() == 0 { 0 } else { fee_sum(spends.drop_last()) + spends.last().fee as nat }
}

pub open spec fn in_range(b: ParsedBlock, s: PagedSpend) -> bool {
    s.start_page + s.page_count <= b.pages@.len()
}

/// The pages a spend covers.
pub open spec fn spend_pages(b: ParsedBlock, s: PagedSpend) -> Seq<BlockPage> {
    b.pages@.subrange(s.start_page as int, s.start_page + s.page_count)
}

/// Outputs of the first `k` spends.
pub open spec fn outputs_of_spends(b: ParsedBlock, k: nat) -> nat
    decreases k,
{
    if k == 0 {
        0
    } else {
        let s = b.spends@[k - 1];
        outputs_of_spends(b, (k - 1) as nat) + (if in_range(b, s) { outputs_on(spend_pages(b, s)) } else { 0 })
    }
}

pub open spec fn coinbase_count(b: ParsedBlock) -> nat {
    b.pages@[0].outputs@.len()
}

pub open spec fn payout_count(b: ParsedBlock) -> nat {
    if b.has_development_payout { b.pages@[1].outputs@.len() } else { 0 }
}

/// Outputs minted in the block: the user outputs, the coinbase's and the
/// development payout's.
pub open spec fn minted_outputs(b: ParsedBlock) -> nat {
    b.live_outputs as nat + coinbase_count(b) + payout_count(b)
}

/// The allocation cursor before the block's first output.
pub open spec fn cursor_start(b: ParsedBlock) -> nat {
    (b.alloc_counter - minted_outputs(b)) as nat
}

/// The allocation cursor after every output of the block.
pub open spec fn final_cursor(b: ParsedBlock) -> nat {
    cursor_start(b) + coinbase_count(b) + payout_count(b) + outputs_of_spends(b, b.spends@.len() as nat)
}

/// The first creation id of spend `k`'s outputs.
pub open spec fn first_id_of_spend(b: ParsedBlock, k: nat) -> nat {
    cursor_start(b) + coinbase_count(b) + payout_count(b) + outputs_of_spends(b, k) + 1
}

pub open spec fn index_of_first_spend(b: ParsedBlock) -> nat {
    if b.has_development_payout { 2 } else { 1 }
}

/// Why decoding fails, in the order the checks run; `None` if it succeeds.
pub open spec fn decode_failure(b: ParsedBlock, expected_height: u64, expected_hash: Seq<char>) -> Option<DecodeError> {
    if expected_height == 0 {
        Some(DecodeError::GenesisHeight)
    } else if b.height != expected_height {
        Some(DecodeError::HeightMismatch { body: b.height, expected: expected_height })
    } else if hex_lower(b.block_id@) != expected_hash {
        Some(DecodeError::HashMismatch)
    } else if b.pages@.len() == 0 {
        Some(DecodeError::MissingCoinbase)
    } else if coinbase_count(b) > u16::MAX {
        Some(DecodeError::TooManyOutputs)
    } else if b.has_development_payout && b.pages@.len() < 2 {
        Some(DecodeError::MissingPayoutPage)
    } else if payout_count(b) > u16::MAX {
        Some(DecodeError::TooManyOutputs)
    } else if minted_outputs(b) > b.alloc_counter {
        Some(DecodeError::AllocUnderflow)
    } else if b.logical_txids@.len() == 0 {
        Some(DecodeError::MissingTxid)
    } else if b.has_development_payout && b.logical_txids@.len() < 2 {
        Some(DecodeError::MissingTxid)
    } else if exists|k: int| 0 <= k < b.spends@.len() && !in_range(b, #[trigger] b.spends@[k]) {
        Some(DecodeError::PageRange)
    } else if final_cursor(b) != b.alloc_counter {
        Some(DecodeError::AllocMismatch {
            cursor: if final_cursor(b) <= u64::MAX { Some(final_cursor(b) as u64) } else { None },
            counter: b.alloc_counter,
        })
    } else {
        None
    }
}

pub open spec fn sat_add_u32(a: nat, b: nat) -> u32 {
    if a + b > u32::MAX { u32::MAX } else { (a + b) as u32 }
}

pub open spec fn describes_coinbase(tx: BlockTransactionInfo, b: ParsedBlock) -> bool {
    let cb = b.pages@[0];
    &&& tx.position == 0
    &&& tx.txid@ == hex_lower(b.logical_txids@[0]@)
    &&& tx.page_count == 1
    &&& tx.live_inputs == 0
    &&& tx.live_outputs == coinbase_count(b) as u32
    &&& tx.fee_micronoid == 0
    &&& tx.coinbase && !tx.development_payout
    &&& tx.epoch_anchor@ == hex_lower(cb.epoch_anchor@)
    &&& tx.input_owner is None
    &&& tx.input_sum_micronoid@ == decimal(0)
    &&& tx.output_sum_micronoid@ == decimal(amount_sat_sum(cb.outputs@) as nat)
    &&& tx.page_hashes@.len() == 1 && tx.page_hashes@[0]@ == hex_lower(b.logical_txids@[0]@)
    &&& tx.inputs@.len() == 0
    &&& tx.outputs@ == Seq::new(cb.outputs@.len(), |i: int| output_info(0, cb.outputs@[i], b.coinbase_creation_id as nat))
}

pub open spec fn describes_payout(tx: BlockTransactionInfo, b: ParsedBlock) -> bool {
    let p = b.pages@[1];
    &&& tx.position == 1
    &&& tx.txid@ == hex_lower(b.logical_txids@[1]@)
    &&& tx.page_count == 1
    &&& tx.live_inputs == 0
    &&& tx.live_outputs == payout_count(b) as u32
    &&& tx.fee_micronoid == 0
    &&& tx.coinbase && tx.development_payout
    &&& tx.epoch_anchor@ == hex_lower(p.epoch_anchor@)
    &&& tx.input_owner is None
    &&& tx.input_sum_micronoid@ == decimal(0)
    &&& tx.output_sum_micronoid@ == decimal(amount_sum(p.outputs@))
    &&& tx.page_hashes@.len() == 1 && tx.page_hashes@[0]@ == hex_lower(b.logical_txids@[1]@)
    &&& tx.inputs@.len() == 0
    &&& tx.outputs@ == numbered_outputs(0, p.outputs@, cursor_start(b) + coinbase_count(b) + 1)
}

pub open spec fn describes_spend(tx: BlockTransactionInfo, s: PagedSpend, pages: Seq<BlockPage>, first_id: nat) -> bool {
    &&& tx.position == s.position
    &&& tx.txid@ == hex_lower(s.logical_txid@)
    &&& tx.page_count == s.page_count as u32
    &&& tx.live_inputs == s.live_inputs as u32
    &&& tx.live_outputs == s.live_outputs as u32
    &&& tx.fee_micronoid == s.fee
    &&& !tx.coinbase && !tx.development_payout
    &&& tx.epoch_anchor@ == hex_lower(s.epoch_anchor@)
    &&& tx.input_owner == Some(s.input_owner)
    &&& tx.input_sum_micronoid@ == decimal(s.input_sum as nat)
    &&& tx.output_sum_micronoid@ == decimal(s.output_sum as nat)
    &&& tx.page_hashes@.len() == pages.len()
    &&& forall|j: int| 0 <= j < pages.len() ==> (#[trigger] tx.page_hashes@[j])@ == hex_lower(pages[j].txid@)
    &&& tx.inputs@ == spend_inputs(pages)
    &&& tx.outputs@ == spend_outputs(pages, first_id)
}

/// The body as `getBlockDetails` would have reported it.
pub open spec fn describes_block(info: RetainedBlockInfo, b: ParsedBlock) -> bool {
    let off = index_of_first_spend(b);
    &&& info.proof_class@ == proof_class_name(b.proof_class)
    &&& info.logical_transactions == b.logical_txids@.len() as u32
    &&& info.user_pages == b.page_count as u32
    &&& info.live_inputs == b.live_inputs as u32
    &&& info.live_outputs == sat_add_u32(sat_add_u32(b.live_outputs as nat, coinbase_count(b)) as nat, payout_count(b))
    &&& info.reward_micronoid == amount_sat_sum(b.pages@[0].outputs@)
    &&& info.total_fees_micronoid@ == decimal(fee_sum(b.spends@))
    &&& info.block_bytes == b.byte_len
    &&& info.transactions@.len() == off + b.spends@.len()
    &&& describes_coinbase(info.transactions@[0], b)
    &&& b.has_development_payout ==> describes_payout(info.transactions@[1], b)
    &&& forall|k: int| 0 <= k < b.spends@.len() ==> describes_spend(
        #[trigger] info.transactions@[off + k], b.spends@[k], spend_pages(b, b.spends@[k]), first_id_of_spend(b, k as nat))
}

/// Outputs of every spend whose pages lie in the body.
pub open spec fn spend_outputs_total(b: ParsedBlock) -> nat {
    outputs_of_spends(b, b.spends@.len() as nat)
}

proof fn lemma_outputs_on_prefix(pages: Seq<BlockPage>, p: int)
    requires
        0 <= p <= pages.len(),
    ensures
        outputs_on(pages.take(p)) <= outputs_on(pages),
    decreases pages.len(),
{
    if p < pages.len() {
        lemma_outputs_on_prefix(pages.drop_last(), p);
        assert(pages.drop_last().take(p) == pages.take(p));
    } else {
        assert(pages.take(p) == pages);
    }
}

proof fn lemma_spend_outputs_monotone(b: ParsedBlock, k: nat, n: nat)
    requires
        k <= n,
    ensures
        outputs_of_spends(b, k) <= outputs_of_spends(b, n),
    decreases n,
{
    if k < n {
        lemma_spend_outputs_monotone(b, k, (n - 1) as nat);
    }
}

/// The checks on the user spends, in the order the decoder makes them:
/// every spend's pages lie in the body, then the allocation cursor ends at
/// the block's counter.
fn check_spends(b: &ParsedBlock, after_minting: u64) -> (r: Result<(), DecodeError>)
    requires
        b.pages@.len() >= 1,
        b.has_development_payout ==> b.pages@.len() >= 2,
        minted_outputs(*b) <= b.alloc_counter,
        after_minting == cursor_start(*b) + coinbase_count(*b) + payout_count(*b),
    ensures
        r is Ok ==> (forall|j: int| 0 <= j < b.spends@.len() ==> in_range(*b, #[trigger] b.spends@[j]))
            && final_cursor(*b) == b.alloc_counter,
        r matches Err(e) ==> (
            if exists|j: int| 0 <= j < b.spends@.len() && !in_range(*b, #[trigger] b.spends@[j]) {
                e == DecodeError::PageRange
            } else {
                final_cursor(*b) != b.alloc_counter && e == (DecodeError::AllocMismatch {
                    cursor: if final_cursor(*b) <= u64::MAX { Some(final_cursor(*b) as u64) } else { None },
                    counter: b.alloc_counter,
                })
            }),
{
    let mut k: usize = 0;
    while k < b.spends.len()
        invariant
            k <= b.spends@.len(),
            forall|j: int| 0 <= j < k ==> in_range(*b, #[trigger] b.spends@[j]),
        decreases b.spends.len() - k,
    {
        let s = &b.spends[k];
        if s.start_page > b.pages.len() || s.page_count as usize > b.pages.len() - s.start_page {
            proof {
                assert(!in_range(*b, b.spends@[k as int]));
            }
            return Err(DecodeError::PageRange);
        }
        k += 1;
    }
    let ghost n = b.spends@.len() as nat;
    let mut total: u64 = after_minting;
    let mut k: usize = 0;
    while k < b.spends.len()
        invariant
            n == b.spends@.len(),
            forall|j: int| 0 <= j < n ==> in_range(*b, #[trigger] b.spends@[j]),
            after_minting == cursor_start(*b) + coinbase_count(*b) + payout_count(*b),
            k <= n,
            total == after_minting + outputs_of_spends(*b, k as nat),
        decreases b.spends.len() - k,
    {
        let s = &b.spends[k];
        let plen = b.pages.len();
        proof {
            assert(in_range(*b, b.spends@[k as int]));
        }
        let end: usize = s.start_page + s.page_count as usize;
        let ghost base: nat = outputs_of_spends(*b, k as nat);
        let ghost span = b.pages@.subrange(s.start_page as int, end as int);
        proof {
            assert(in_range(*b, b.spends@[k as int]));
            assert(spend_pages(*b, b.spends@[k as int]) == span);
        }
        let mut p: usize = s.start_page;
        while p < end
            invariant
                s.start_page <= p <= end <= b.pages@.len(),
                end == s.start_page + s.page_count,
                span == b.pages@.subrange(s.start_page as int, end as int),
                total == after_minting + base + outputs_on(span.take(p - s.start_page)),
                base == outputs_of_spends(*b, k as nat),
                after_minting == cursor_start(*b) + coinbase_count(*b) + payout_count(*b),
                k < n,
                n == b.spends@.len(),
                *s == b.spends@[k as int],
                spend_pages(*b, b.spends@[k as int]) == span,
                in_range(*b, b.spends@[k as int]),
                forall|j: int| 0 <= j < n ==> in_range(*b, #[trigger] b.spends@[j]),
            decreases end - p,
        {
            let c = b.pages[p].outputs.len();
            proof {
                assert(span.take(p + 1 - s.start_page).drop_last() == span.take(p - s.start_page));
                assert(span.take(p + 1 - s.start_page).last() == b.pages@[p as int]);
            }
            if c as u128 > (u64::MAX - total) as u128 {
                proof {
                    lemma_outputs_on_prefix(span, p + 1 - s.start_page);
                    lemma_spend_outputs_monotone(*b, (k + 1) as nat, n);
                    assert(outputs_on(span.take(p + 1 - s.start_page)) == outputs_on(span.take(p - s.start_page)) + c);
                    assert(outputs_of_spends(*b, (k + 1) as nat) == base + outputs_on(span));
                    assert(outputs_of_spends(*b, (k + 1) as nat) <= outputs_of_spends(*b, n));
                    assert(after_minting + base + outputs_on(span) > u64::MAX);
                    assert(final_cursor(*b) == after_minting + outputs_of_spends(*b, n));
                    assert(final_cursor(*b) > u64::MAX);
                    assert(!(exists|j: int| 0 <= j < b.spends@.len() && !in_range(*b, #[trigger] b.spends@[j])));
                }
                return Err(DecodeError::AllocMismatch { cursor: None, counter: b.alloc_counter });
            }
            total = total + c as u64;
            p += 1;
        }
        proof {
            assert(span.take(end - s.start_page) == span);
        }
        k += 1;
    }
    proof {
        assert(!(exists|j: int| 0 <= j < b.spends@.len() && !in_range(*b, #[trigger] b.spends@[j])));
    }
    if total != b.alloc_counter {
        return Err(DecodeError::AllocMismatch { cursor: Some(total), counter: b.alloc_counter });
    }
    Ok(())
}

fn push_numbered_outputs(acc: &mut Vec<BlockTransactionOutputInfo>, page: u32, outs: &Vec<PageOutput>, cursor: &mut u64)
    requires
        *old(cursor) + outs@.len() <= u64::MAX,
    ensures
        final(acc)@ == old(acc)@ + numbered_outputs(page as nat, outs@, (*old(cursor) + 1) as nat),
        *final(cursor) == *old(cursor) + outs@.len(),
{
    let ghost start = acc@;
    let ghost first: nat = (*cursor + 1) as nat;
    let mut i: usize = 0;
    while i < outs.len()
        invariant
            i <= outs@.len(),
            first == *old(cursor) + 1,
            *old(cursor) + outs@.len() <= u64::MAX,
            *cursor == *old(cursor) + i,
            acc@ == start + numbered_outputs(page as nat, outs@.take(i as int), first),
        decreases outs.len() - i,
    {
        let o = &outs[i];
        *cursor = *cursor + 1;
        acc.push(BlockTransactionOutputInfo {
            page,
            lane: o.lane as u32,
            slot_index: o.slot_index,
            amount_micronoid: o.amount,
            owner: o.owner.clone(),
            creation_id: *cursor,
        });
        i += 1;
        proof {
            assert(numbered_outputs(page as nat, outs@.take(i as int), first)
                == numbered_outputs(page as nat, outs@.take(i - 1), first)
                    + seq![output_info(page as nat, outs@[i - 1], (first + i - 1) as nat)]);
        }
    }
    proof {
        assert(outs@.take(i as int) == outs@);
    }
}

fn push_coinbase_outputs(acc: &mut Vec<BlockTransactionOutputInfo>, outs: &Vec<PageOutput>, cursor: &mut u64, creation_id: u64)
    requires
        *old(cursor) + outs@.len() <= u64::MAX,
        old(acc)@.len() == 0,
    ensures
        final(acc)@ == Seq::new(outs@.len(), |i: int| output_info(0, outs@[i], creation_id as nat)),
        *final(cursor) == *old(cursor) + outs@.len(),
{
    let mut i: usize = 0;
    while i < outs.len()
        invariant
            i <= outs@.len(),
            *old(cursor) + outs@.len() <= u64::MAX,
            *cursor == *old(cursor) + i,
            acc@ == Seq::new(i as nat, |j: int| output_info(0, outs@[j], creation_id as nat)),
        decreases outs.len() - i,
    {
        let o = &outs[i];
        *cursor = *cursor + 1;
        acc.push(BlockTransactionOutputInfo {
            page: 0,
            lane: o.lane as u32,
            slot_index: o.slot_index,
            amount_micronoid: o.amount,
            owner: o.owner.clone(),
            creation_id,
        });
        i += 1;
    }
}

fn push_page_inputs(acc: &mut Vec<BlockTransactionInputInfo>, page: u32, ins: &Vec<PageInput>)
    ensures
        final(acc)@ == old(acc)@ + page_inputs(page as nat, ins@),
{
    let ghost start = acc@;
    let mut i: usize = 0;
    while i < ins.len()
        invariant
            i <= ins@.len(),
            acc@ == start + page_inputs(page as nat, ins@.take(i as int)),
        decreases ins.len() - i,
    {
        let x = &ins[i];
        acc.push(BlockTransactionInputInfo {
            page,
            lane: x.lane as u32,
            slot_index: x.slot_index,
            amount_micronoid: x.amount,
            creation_id: x.creation_id,
        });
        i += 1;
        proof {
            assert(page_inputs(page as nat, ins@.take(i as int))
                == page_inputs(page as nat, ins@.take(i - 1)) + seq![input_info(page as nat, ins@[i - 1])]);
        }
    }
    proof {
        assert(ins@.take(i as int) == ins@);
    }
}

fn saturating_amount_sum(outs: &Vec<PageOutput>) -> (r: u64)
    ensures
        r == amount_sat_sum(outs@),
{
    let mut total: u64 = 0;
    let mut i: usize = 0;
    while i < outs.len()
        invariant
            i <= outs@.len(),
            total == amount_sat_sum(outs@.take(i as int)),
        decreases outs.len() - i,
    {
        proof {
            assert(outs@.take(i + 1).drop_last() == outs@.take(i as int));
        }
        total = total.saturating_add(outs[i].amount);
        i += 1;
    }
    proof {
        assert(outs@.take(i as int) == outs@);
    }
    total
}

proof fn lemma_amount_sum_bound(outs: Seq<PageOutput>)
    ensures
        amount_sum(outs) <= outs.len() * u64::MAX,
    decreases outs.len(),
{
    if outs.len() > 0 {
        lemma_amount_sum_bound(outs.drop_last());
        assert((outs.len() - 1) * u64::MAX + u64::MAX == outs.len() * u64::MAX) by (nonlinear_arith);
    }
}

fn amount_total(outs: &Vec<PageOutput>) -> (r: u128)
    ensures
        r == amount_sum(outs@),
{
    let mut total: u128 = 0;
    let mut i: usize = 0;
    while i < outs.len()
        invariant
            i <= outs@.len(),
            total == amount_sum(outs@.take(i as int)),
        decreases outs.len() - i,
    {
        proof {
            assert(outs@.take(i + 1).drop_last() == outs@.take(i as int));
            lemma_amount_sum_bound(outs@.take(i as int));
            let n: int = i as int;
            assert(n * u64::MAX + u64::MAX <= u128::MAX) by (nonlinear_arith)
                requires 0 <= n <= u64::MAX;
        }
        total = total + outs[i].amount as u128;
        i += 1;
    }
    proof {
        assert(outs@.take(i as int) == outs@);
    }
    total
}

proof fn lemma_fee_sum_bound(spends: Seq<PagedSpend>)
    ensures
        fee_sum(spends) <= spends.len() * u64::MAX,
    decreases spends.len(),
{
    if spends.len() > 0 {
        lemma_fee_sum_bound(spends.drop_last());
        assert((spends.len() - 1) * u64::MAX + u64::MAX == spends.len() * u64::MAX) by (nonlinear_arith);
    }
}

fn total_fees(spends: &Vec<PagedSpend>) -> (r: u128)
    ensures
        r == fee_sum(spends@),
{
    let mut total: u128 = 0;
    let mut i: usize = 0;
    while i < spends.len()
        invariant
            i <= spends@.len(),
            total == fee_sum(spends@.take(i as int)),
        decreases spends.len() - i,
    {
        proof {
            assert(spends@.take(i + 1).drop_last() == spends@.take(i as int));
            lemma_fee_sum_bound(spends@.take(i as int));
            let n: int = i as int;
            assert(n * u64::MAX + u64::MAX <= u128::MAX) by (nonlinear_arith)
                requires 0 <= n <= u64::MAX;
        }
        total = total + spends[i].fee as u128;
        i += 1;
    }
    proof {
        assert(spends@.take(i as int) == spends@);
    }
    total
}

/// The logical transaction of one user spend; its outputs take creation ids
/// from `cursor + 1` on.
fn spend_transaction(b: &ParsedBlock, s: &PagedSpend, cursor: &mut u64) -> (tx: BlockTransactionInfo)
    requires
        in_range(*b, *s),
        s.start_page + s.page_count <= usize::MAX,
        *old(cursor) + outputs_on(spend_pages(*b, *s)) <= u64::MAX,
    ensures
        describes_spend(tx, *s, spend_pages(*b, *s), (*old(cursor) + 1) as nat),
        *final(cursor) == *old(cursor) + outputs_on(spend_pages(*b, *s)),
{
    let ghost pages = spend_pages(*b, *s);
    let ghost first: nat = (*cursor + 1) as nat;
    let start = s.start_page;
    let end = start + s.page_count as usize;
    let mut inputs: Vec<BlockTransactionInputInfo> = Vec::new();
    let mut outputs: Vec<BlockTransactionOutputInfo> = Vec::new();
    let mut page_hashes: Vec<String> = Vec::new();
    let mut p: usize = 0;
    while p < end - start
        invariant
            start == s.start_page,
            end == s.start_page + s.page_count,
            end <= b.pages@.len(),
            pages == b.pages@.subrange(start as int, end as int),
            p <= end - start,
            first == *old(cursor) + 1,
            *old(cursor) + outputs_on(pages) <= u64::MAX,
            *cursor == *old(cursor) + outputs_on(pages.take(p as int)),
            inputs@ == spend_inputs(pages.take(p as int)),
            outputs@ == spend_outputs(pages.take(p as int), first),
            page_hashes@.len() == p,
            forall|j: int| 0 <= j < p ==> (#[trigger] page_hashes@[j])@ == hex_lower(pages[j].txid@),
        decreases end - start - p,
    {
        let page = &b.pages[start + p];
        proof {
            assert(pages.take(p + 1).drop_last() == pages.take(p as int));
            assert(pages.take(p + 1).last() == *page);
            lemma_outputs_on_prefix(pages, p + 1);
        }
        page_hashes.push(encode_hex(page.txid.as_slice()));
        push_page_inputs(&mut inputs, p as u32, &page.inputs);
        push_numbered_outputs(&mut outputs, p as u32, &page.outputs, cursor);
        p += 1;
    }
    proof {
        assert(pages.take(p as int) == pages);
    }
    BlockTransactionInfo {
        position: s.position,
        txid: encode_hex(s.logical_txid.as_slice()),
        page_count: s.page_count as u32,
        live_inputs: s.live_inputs as u32,
        live_outputs: s.live_outputs as u32,
        fee_micronoid: s.fee,
        coinbase: false,
        development_payout: false,
        epoch_anchor: encode_hex(s.epoch_anchor.as_slice()),
        input_owner: Some(s.input_owner.clone()),
        input_sum_micronoid: decimal_u128(s.input_sum),
        output_sum_micronoid: decimal_u128(s.output_sum),
        page_hashes,
        inputs,
        outputs,
    }
}


fn proof_class_text(c: ProofClass) -> (s: String)
    ensures
        s@ == proof_class_name(c),
{
    match c {
        ProofClass::B25 => {
            proof {
                reveal_strlit("B25 / m22");
            }
            String::from_str("B25 / m22")
        },
        ProofClass::B255 => {
            proof {
                reveal_strlit("B255 / m24");
            }
            String::from_str("B255 / m24")
        },
    }
}

/// Decodes a body the node's crate has parsed into the same shape
/// `paranoid_getBlockDetails`' `retained` field would have held. The body
/// must belong to the canonical header of `expected_height` (hash
/// `expected_hash_hex`), else it is rejected before anything in it is used.
pub fn decode_retained_block(b: &ParsedBlock, expected_height: u64, expected_hash_hex: &str) -> (r: Result<RetainedBlockInfo, DecodeError>)
    ensures
        r is Err <==> decode_failure(*b, expected_height, expected_hash_hex@) is Some,
        r matches Err(e) ==> decode_failure(*b, expected_height, expected_hash_hex@) == Some(e),
        r matches Ok(info) ==> describes_block(info, *b),
{
    if expected_height == 0 {
        return Err(DecodeError::GenesisHeight);
    }
    if b.height != expected_height {
        return Err(DecodeError::HeightMismatch { body: b.height, expected: expected_height });
    }
    let hash = encode_hex(b.block_id.as_slice());
    let expected = String::from_str(expected_hash_hex);
    if !(hash == expected) {
        return Err(DecodeError::HashMismatch);
    }
    if b.pages.len() == 0 {
        return Err(DecodeError::MissingCoinbase);
    }
    let coinbase = &b.pages[0];
    let reward_micronoid = saturating_amount_sum(&coinbase.outputs);
    if coinbase.outputs.len() > 65535 {
        return Err(DecodeError::TooManyOutputs);
    }
    let coinbase_outputs: u16 = coinbase.outputs.len() as u16;
    let development_outputs: u16 = if b.has_development_payout {
        if b.pages.len() < 2 {
            return Err(DecodeError::MissingPayoutPage);
        }
        if b.pages[1].outputs.len() > 65535 {
            return Err(DecodeError::TooManyOutputs);
        }
        b.pages[1].outputs.len() as u16
    } else {
        0
    };
    let minted_outputs: u64 = b.live_outputs as u64 + coinbase_outputs as u64 + development_outputs as u64;
    if minted_outputs > b.alloc_counter {
        return Err(DecodeError::AllocUnderflow);
    }
    let mut alloc_cursor: u64 = b.alloc_counter - minted_outputs;
    let ghost n = b.spends@.len() as nat;
    proof {
        assert(alloc_cursor + coinbase_count(*b) + payout_count(*b) <= b.alloc_counter);
    }

    let mut transactions: Vec<BlockTransactionInfo> = Vec::new();

    // coinbase (position 0)
    let mut cb_outputs: Vec<BlockTransactionOutputInfo> = Vec::new();
    push_coinbase_outputs(&mut cb_outputs, &coinbase.outputs, &mut alloc_cursor, b.coinbase_creation_id);
    if b.logical_txids.len() == 0 {
        return Err(DecodeError::MissingTxid);
    }
    let cb_txid = encode_hex(b.logical_txids[0].as_slice());
    proof {
        reveal_strlit("0");
        assert("0"@ == decimal(0));
    }
    transactions.push(BlockTransactionInfo {
        position: 0,
        txid: cb_txid.clone(),
        page_count: 1,
        live_inputs: 0,
        live_outputs: coinbase_outputs as u32,
        fee_micronoid: 0,
        coinbase: true,
        development_payout: false,
        epoch_anchor: encode_hex(coinbase.epoch_anchor.as_slice()),
        input_owner: None,
        input_sum_micronoid: String::from_str("0"),
        output_sum_micronoid: decimal_u64(reward_micronoid),
        page_hashes: vec![cb_txid],
        inputs: Vec::new(),
        outputs: cb_outputs,
    });

    // development payout (position 1, optional)
    if b.has_development_payout {
        let payout = &b.pages[1];
        let mut outs: Vec<BlockTransactionOutputInfo> = Vec::new();
        push_numbered_outputs(&mut outs, 0, &payout.outputs, &mut alloc_cursor);
        let sum = amount_total(&payout.outputs);
        if b.logical_txids.len() < 2 {
            return Err(DecodeError::MissingTxid);
        }
        let txid = encode_hex(b.logical_txids[1].as_slice());
        transactions.push(BlockTransactionInfo {
            position: 1,
            txid: txid.clone(),
            page_count: 1,
            live_inputs: 0,
            live_outputs: development_outputs as u32,
            fee_micronoid: 0,
            coinbase: true,
            development_payout: true,
            epoch_anchor: encode_hex(payout.epoch_anchor.as_slice()),
            input_owner: None,
            input_sum_micronoid: String::from_str("0"),
            output_sum_micronoid: decimal_u128(sum),
            page_hashes: vec![txid],
            inputs: Vec::new(),
            outputs: outs,
        });
    }

    // user spends
    match check_spends(b, alloc_cursor) {
        Ok(()) => {},
        Err(e) => return Err(e),
    }
    let ghost off = index_of_first_spend(*b);
    let ghost after_minting = alloc_cursor;
    let mut k: usize = 0;
    while k < b.spends.len()
        invariant
            n == b.spends@.len(),
            k <= n,
            forall|j: int| 0 <= j < n ==> in_range(*b, #[trigger] b.spends@[j]),
            final_cursor(*b) == b.alloc_counter,
            off == index_of_first_spend(*b),
            after_minting == cursor_start(*b) + coinbase_count(*b) + payout_count(*b),
            after_minting + outputs_of_spends(*b, n) <= u64::MAX,
            alloc_cursor == after_minting + outputs_of_spends(*b, k as nat),
            transactions@.len() == off + k,
            forall|j: int| 0 <= j < k ==> in_range(*b, #[trigger] b.spends@[j]),
            forall|j: int| 0 <= j < k ==> describes_spend(
                #[trigger] transactions@[off + j], b.spends@[j], spend_pages(*b, b.spends@[j]), first_id_of_spend(*b, j as nat)),
            describes_coinbase(transactions@[0], *b),
            b.has_development_payout ==> describes_payout(transactions@[1], *b),
            b.pages@.len() >= 1,
            b.has_development_payout ==> b.pages@.len() >= 2 && b.logical_txids@.len() >= 2,
            b.logical_txids@.len() >= 1,
            coinbase_outputs as nat == coinbase_count(*b),
            development_outputs as nat == payout_count(*b),
            decode_failure(*b, expected_height, expected_hash_hex@) is None
                || decode_failure(*b, expected_height, expected_hash_hex@) matches Some(DecodeError::PageRange)
                || decode_failure(*b, expected_height, expected_hash_hex@) matches Some(DecodeError::AllocMismatch { .. }),
        decreases b.spends.len() - k,
    {
        let s = &b.spends[k];
        if s.start_page > b.pages.len() || s.page_count as usize > b.pages.len() - s.start_page {
            proof {
                assert(!in_range(*b, b.spends@[k as int]));
            }
            return Err(DecodeError::PageRange);
        }
        proof {
            lemma_spend_outputs_monotone(*b, (k + 1) as nat, n);
        }
        let ghost before = transactions@;
        let tx = spend_transaction(b, s, &mut alloc_cursor);
        transactions.push(tx);
        proof {
            assert forall|j: int| 0 <= j < k + 1 implies describes_spend(
                #[trigger] transactions@[off + j], b.spends@[j], spend_pages(*b, b.spends@[j]), first_id_of_spend(*b, j as nat)) by {
                if j < k {
                    assert(transactions@[off + j] == before[off + j]);
                }
            }
        }
        k += 1;
    }

    if alloc_cursor != b.alloc_counter {
        return Err(DecodeError::AllocMismatch { cursor: Some(alloc_cursor), counter: b.alloc_counter });
    }

    let fees = total_fees(&b.spends);
    let info = RetainedBlockInfo {
        proof_class: proof_class_text(b.proof_class),
        logical_transactions: #[verifier::truncate] (b.logical_txids.len() as u32),
        user_pages: b.page_count as u32,
        live_inputs: b.live_inputs as u32,
        live_outputs: (b.live_outputs as u32).saturating_add(coinbase_outputs as u32).saturating_add(development_outputs as u32),
        reward_micronoid,
        total_fees_micronoid: decimal_u128(fees),
        block_bytes: b.byte_len,
        transactions,
    };
    Ok(info)
}


/// A decoded body is bound to the canonical header it was asked for (its
/// height and its block hash), and its outputs take consecutive creation
/// ids that end exactly at the block's allocation counter: the payout's
/// right after the coinbase's, each spend's right after the previous one's.
pub proof fn law_decoded_body_bound(b: ParsedBlock, expected_height: u64, expected_hash: Seq<char>)
    requires
        decode_failure(b, expected_height, expected_hash) is None,
    ensures
        expected_height != 0,
        b.height == expected_height,
        hex_lower(b.block_id@) == expected_hash,
        b.pages@.len() >= 1,
        cursor_start(b) + coinbase_count(b) + payout_count(b) + spend_outputs_total(b) == b.alloc_counter,
        first_id_of_spend(b, 0) == cursor_start(b) + coinbase_count(b) + payout_count(b) + 1,
        forall|k: nat| k < b.spends@.len() ==> #[trigger] first_id_of_spend(b, k + 1)
            == first_id_of_spend(b, k) + outputs_on(spend_pages(b, b.spends@[k as int])),
{
    assert forall|k: nat| k < b.spends@.len() implies #[trigger] first_id_of_spend(b, k + 1)
        == first_id_of_spend(b, k) + outputs_on(spend_pages(b, b.spends@[k as int])) by {
        assert(in_range(b, b.spends@[k as int]));
    }
}


/// The block's total fee counts every user spend once: nothing for no
/// spends, and one more spend adds exactly its fee.
pub proof fn law_fee_sum_adds_each_spend(spends: Seq<PagedSpend>, s: PagedSpend)
    ensures
        fee_sum(Seq::<PagedSpend>::empty()) == 0,
        fee_sum(spends.push(s)) == fee_sum(spends) + s.fee,
{
    assert(spends.push(s).drop_last() == spends);
}

/// The total fee of two runs of spends is the sum of their totals.
pub proof fn law_fee_sum_splits(a: Seq<PagedSpend>, b: Seq<PagedSpend>)
    ensures
        fee_sum(a + b) == fee_sum(a) + fee_sum(b),
    decreases b.len(),
{
    if b.len() == 0 {
        assert(a + b == a);
    } else {
        law_fee_sum_splits(a, b.drop_last());
        assert((a + b).drop_last() == a + b.drop_last());
        assert((a + b).last() == b.last());
    }
}

/// A transaction's output sum counts every output once: nothing for no
/// outputs, and one more output adds exactly its amount.
pub proof fn law_amount_sum_adds_each_output(outs: Seq<PageOutput>, o: PageOutput)
    ensures
        amount_sum(Seq::<PageOutput>::empty()) == 0,
        amount_sum(outs.push(o)) == amount_sum(outs) + o.amount,
{
    assert(outs.push(o).drop_last() == outs);
}

/// The output sum of two runs of outputs is the sum of their sums.
pub proof fn law_amount_sum_splits(a: Seq<PageOutput>, b: Seq<PageOutput>)
    ensures
        amount_sum(a + b) == amount_sum(a) + amount_sum(b),
    decreases b.len(),
{
    if b.len() == 0 {
        assert(a + b == a);
    } else {
        law_amount_sum_splits(a, b.drop_last());
        assert((a + b).drop_last() == a + b.drop_last());
        assert((a + b).last() == b.last());
    }
}

/// The 64-bit reward is the exact sum of the coinbase's amounts where that
/// fits, and `u64::MAX` where it does not.
pub proof fn law_saturating_sum_is_capped_sum(outs: Seq<PageOutput>)
    ensures
        amount_sum(outs) <= u64::MAX ==> amount_sat_sum(outs) == amount_sum(outs),
        amount_sum(outs) > u64::MAX ==> amount_sat_sum(outs) == u64::MAX,
    decreases outs.len(),
{
    if outs.len() > 0 {
        law_saturating_sum_is_capped_sum(outs.drop_last());
    }
}

/// The live outputs of a run of pages: nothing for no pages, and one more
/// page adds exactly its outputs; two runs add up.
pub proof fn law_outputs_on_adds_each_page(pages: Seq<BlockPage>, p: BlockPage, more: Seq<BlockPage>)
    ensures
        outputs_on(Seq::<BlockPage>::empty()) == 0,
        outputs_on(pages.push(p)) == outputs_on(pages) + p.outputs@.len(),
        outputs_on(pages + more) == outputs_on(pages) + outputs_on(more),
    decreases more.len(),
{
    assert(pages.push(p).drop_last() == pages);
    if more.len() == 0 {
        assert(pages + more == pages);
    } else {
        law_outputs_on_adds_each_page(pages, p, more.drop_last());
        assert((pages + more).drop_last() == pages + more.drop_last());
        assert((pages + more).last() == more.last());
    }
}


/// A spend's outputs are listed page by page, in the order of each page's
/// outputs, and take consecutive creation ids from the spend's first id:
/// one output per live output of its pages, the `j`-th with id
/// `first_id + j`.
pub proof fn law_spend_outputs_numbered_consecutively(pages: Seq<BlockPage>, first_id: nat)
    requires
        first_id + outputs_on(pages) <= u64::MAX + 1,
    ensures
        spend_outputs(pages, first_id).len() == outputs_on(pages),
        forall|j: int| 0 <= j < outputs_on(pages) ==>
            (#[trigger] spend_outputs(pages, first_id)[j]).creation_id == first_id + j,
    decreases pages.len(),
{
    if pages.len() > 0 {
        let pre = pages.drop_last();
        law_spend_outputs_numbered_consecutively(pre, first_id);
        let a = spend_outputs(pre, first_id);
        let b = numbered_outputs((pages.len() - 1) as nat, pages.last().outputs@, first_id + outputs_on(pre));
        assert(spend_outputs(pages, first_id) == a + b);
        assert forall|j: int| 0 <= j < outputs_on(pages) implies
            (#[trigger] spend_outputs(pages, first_id)[j]).creation_id == first_id + j by {
            if j >= a.len() {
                assert((a + b)[j] == b[j - a.len()]);
            } else {
                assert((a + b)[j] == a[j]);
            }
        }
    }
}

/// One more page adds its inputs, tagged with its place in the spend,
/// after those of the pages before it; likewise its outputs, numbered on
/// from where the pages before it stopped.
pub proof fn law_spend_rows_add_each_page(pages: Seq<BlockPage>, p: BlockPage, first_id: nat)
    ensures
        spend_inputs(Seq::<BlockPage>::empty()) == Seq::<BlockTransactionInputInfo>::empty(),
        spend_outputs(Seq::<BlockPage>::empty(), first_id) == Seq::<BlockTransactionOutputInfo>::empty(),
        spend_inputs(pages.push(p)) == spend_inputs(pages) + Seq::new(p.inputs@.len(), |i: int| BlockTransactionInputInfo {
            page: pages.len() as u32,
            lane: p.inputs@[i].lane as u32,
            slot_index: p.inputs@[i].slot_index,
            amount_micronoid: p.inputs@[i].amount,
            creation_id: p.inputs@[i].creation_id,
        }),
        spend_outputs(pages.push(p), first_id) == spend_outputs(pages, first_id) + Seq::new(p.outputs@.len(), |i: int| BlockTransactionOutputInfo {
            page: pages.len() as u32,
            lane: p.outputs@[i].lane as u32,
            slot_index: p.outputs@[i].slot_index,
            amount_micronoid: p.outputs@[i].amount,
            owner: p.outputs@[i].owner,
            creation_id: (first_id + outputs_on(pages) + i) as u64,
        }),
{
    assert(pages.push(p).drop_last() == pages);
    assert(spend_inputs(pages.push(p)) == spend_inputs(pages) + page_inputs(pages.len(), p.inputs@));
    assert(spend_outputs(pages.push(p), first_id) == spend_outputs(pages, first_id)
        + numbered_outputs(pages.len(), p.outputs@, first_id + outputs_on(pages)));
}


/// The fees a body lists, transaction by transaction, summed.
pub open spec fn listed_fees(txs: Seq<BlockTransactionInfo>) -> nat
    decreases txs.len(),
{
    if txs.len() == 0 { 0 } else { listed_fees(txs.drop_last()) + txs.last().fee_micronoid as nat }
}

/// The amounts a transaction lists for its outputs, summed.
pub open spec fn listed_amounts(outs: Seq<BlockTransactionOutputInfo>) -> nat
    decreases outs.len(),
{
    if outs.len() == 0 { 0 } else { listed_amounts(outs.drop_last()) + outs.last().amount_micronoid as nat }
}

proof fn lemma_listed_amounts(listed: Seq<BlockTransactionOutputInfo>, outs: Seq<PageOutput>)
    requires
        listed.len() == outs.len(),
        forall|i: int| 0 <= i < outs.len() ==> (#[trigger] listed[i]).amount_micronoid == outs[i].amount,
    ensures
        listed_amounts(listed) == amount_sum(outs),
    decreases outs.len(),
{
    if outs.len() > 0 {
        let l2 = listed.drop_last();
        let o2 = outs.drop_last();
        assert forall|i: int| 0 <= i < o2.len() implies (#[trigger] l2[i]).amount_micronoid == o2[i].amount by {
            assert(l2[i] == listed[i]);
            assert(o2[i] == outs[i]);
        }
        lemma_listed_amounts(l2, o2);
        assert(listed[listed.len() - 1].amount_micronoid == outs[outs.len() - 1].amount);
    }
}

proof fn lemma_listed_fees(info: RetainedBlockInfo, b: ParsedBlock, k: nat)
    requires
        describes_block(info, b),
        k <= b.spends@.len(),
    ensures
        listed_fees(info.transactions@.take((index_of_first_spend(b) + k) as int)) == fee_sum(b.spends@.take(k as int)),
    decreases k,
{
    let t = info.transactions@;
    let off = index_of_first_spend(b);
    assert(t.len() == off + b.spends@.len());
    if k == 0 {
        assert(t.take(0).len() == 0);
        assert(listed_fees(t.take(0)) == 0);
        assert(t.take(1).drop_last() == t.take(0));
        assert(t.take(1).last() == t[0]);
        assert(t[0].fee_micronoid == 0);
        assert(listed_fees(t.take(1)) == 0);
        if off == 2 {
            assert(t.take(2).drop_last() == t.take(1));
            assert(t.take(2).last() == t[1]);
            assert(describes_payout(t[1], b));
            assert(listed_fees(t.take(2)) == 0);
        }
        assert(b.spends@.take(0).len() == 0);
        assert(fee_sum(b.spends@.take(0)) == 0);
    } else {
        lemma_listed_fees(info, b, (k - 1) as nat);
        let i = off + k - 1;
        assert(t.take(i + 1).drop_last() == t.take(i));
        assert(t.take(i + 1).last() == t[i]);
        assert(describes_spend(t[off + (k - 1)], b.spends@[k - 1], spend_pages(b, b.spends@[k - 1]), first_id_of_spend(b, (k - 1) as nat)));
        assert(b.spends@.take(k as int).drop_last() == b.spends@.take(k - 1));
        assert(b.spends@.take(k as int).last() == b.spends@[k - 1]);
    }
}

/// A decoded body adds up the way a stored body must before it is taken over: its
/// total fee is the sum of the fees its transactions list (the coinbase's
/// and the payout's being 0), the payout's output sum is the sum of the
/// amounts it lists, and so is the coinbase's wherever that fits in 64
/// bits, as is then the reward.
pub proof fn law_decoded_body_adds_up(info: RetainedBlockInfo, b: ParsedBlock)
    requires
        describes_block(info, b),
    ensures
        info.total_fees_micronoid@ == decimal(listed_fees(info.transactions@)),
        b.has_development_payout ==> info.transactions@[1].output_sum_micronoid@
            == decimal(listed_amounts(info.transactions@[1].outputs@)),
        listed_amounts(info.transactions@[0].outputs@) <= u64::MAX ==> {
            &&& info.transactions@[0].output_sum_micronoid@ == decimal(listed_amounts(info.transactions@[0].outputs@))
            &&& info.reward_micronoid == listed_amounts(info.transactions@[0].outputs@)
        },
{
    let t = info.transactions@;
    let n = b.spends@.len();
    lemma_listed_fees(info, b, n as nat);
    assert(t.take((index_of_first_spend(b) + n) as int) == t);
    assert(b.spends@.take(n as int) == b.spends@);
    let cb = b.pages@[0].outputs@;
    lemma_listed_amounts(t[0].outputs@, cb);
    law_saturating_sum_is_capped_sum(cb);
    if b.has_development_payout {
        lemma_listed_amounts(t[1].outputs@, b.pages@[1].outputs@);
    }
}

} // verus!

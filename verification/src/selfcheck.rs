//! The decoder self-check: a body decoded from getBlock's bytes is held
//! against the body getBlockDetails reported for the same block, field by
//! field, as the two would compare once serialized.
use vstd::prelude::*;
use crate::indexer::same_str;
use crate::decode::{describes_block, describes_coinbase, describes_payout, describes_spend, index_of_first_spend, spend_pages, first_id_of_spend, ParsedBlock};
use crate::rpc::{BlockTransactionInfo, BlockTransactionInputInfo, BlockTransactionOutputInfo, RetainedBlockInfo};

verus! {

pub open spec fn same_output(a: BlockTransactionOutputInfo, b: BlockTransactionOutputInfo) -> bool {
    &&& a.page == b.page
    &&& a.lane == b.lane
    &&& a.slot_index == b.slot_index
    &&& a.amount_micronoid == b.amount_micronoid
    &&& a.owner@ == b.owner@
    &&& a.creation_id == b.creation_id
}

pub open spec fn same_owner(a: Option<String>, b: Option<String>) -> bool {
    match (a, b) {
        (None, None) => true,
        (Some(x), Some(y)) => x@ == y@,
        _ => false,
    }
}

pub open spec fn same_tx(a: BlockTransactionInfo, b: BlockTransactionInfo) -> bool {
    &&& a.position == b.position
    &&& a.txid@ == b.txid@
    &&& a.page_count == b.page_count
    &&& a.live_inputs == b.live_inputs
    &&& a.live_outputs == b.live_outputs
    &&& a.fee_micronoid == b.fee_micronoid
    &&& a.coinbase == b.coinbase
    &&& a.development_payout == b.development_payout
    &&& a.epoch_anchor@ == b.epoch_anchor@
    &&& same_owner(a.input_owner, b.input_owner)
    &&& a.input_sum_micronoid@ == b.input_sum_micronoid@
    &&& a.output_sum_micronoid@ == b.output_sum_micronoid@
    &&& a.page_hashes@.len() == b.page_hashes@.len()
    &&& forall|i: int| 0 <= i < a.page_hashes@.len() ==> (#[trigger] a.page_hashes@[i])@ == b.page_hashes@[i]@
    &&& a.inputs@ == b.inputs@
    &&& a.outputs@.len() == b.outputs@.len()
    &&& forall|i: int| 0 <= i < a.outputs@.len() ==> same_output(#[trigger] a.outputs@[i], b.outputs@[i])
}

/// Two bodies that serialize alike: every field equal, text by its
/// characters, lists element by element.
pub open spec fn same_body(a: RetainedBlockInfo, b: RetainedBlockInfo) -> bool {
    &&& a.proof_class@ == b.proof_class@
    &&& a.logical_transactions == b.logical_transactions
    &&& a.user_pages == b.user_pages
    &&& a.live_inputs == b.live_inputs
    &&& a.live_outputs == b.live_outputs
    &&& a.reward_micronoid == b.reward_micronoid
    &&& a.total_fees_micronoid@ == b.total_fees_micronoid@
    &&& a.block_bytes == b.block_bytes
    &&& a.transactions@.len() == b.transactions@.len()
    &&& forall|i: int| 0 <= i < a.transactions@.len() ==> same_tx(#[trigger] a.transactions@[i], b.transactions@[i])
}

fn same_input(a: &BlockTransactionInputInfo, b: &BlockTransactionInputInfo) -> (r: bool)
    ensures
        r == (*a == *b),
{
    a.page == b.page && a.lane == b.lane && a.slot_index == b.slot_index
        && a.amount_micronoid == b.amount_micronoid && a.creation_id == b.creation_id
}

fn outputs_agree(a: &Vec<BlockTransactionOutputInfo>, b: &Vec<BlockTransactionOutputInfo>) -> (r: bool)
    ensures
        r == (a@.len() == b@.len() && forall|i: int| 0 <= i < a@.len() ==> same_output(#[trigger] a@[i], b@[i])),
{
    if a.len() != b.len() {
        return false;
    }
    let mut i: usize = 0;
    while i < a.len()
        invariant
            a@.len() == b@.len(),
            i <= a@.len(),
            forall|j: int| 0 <= j < i ==> same_output(#[trigger] a@[j], b@[j]),
        decreases a.len() - i,
    {
        let x = &a[i];
        let y = &b[i];
        if !(x.page == y.page && x.lane == y.lane && x.slot_index == y.slot_index
            && x.amount_micronoid == y.amount_micronoid && same_str(x.owner.as_str(), y.owner.as_str())
            && x.creation_id == y.creation_id) {
            return false;
        }
        i += 1;
    }
    true
}

fn inputs_agree(a: &Vec<BlockTransactionInputInfo>, b: &Vec<BlockTransactionInputInfo>) -> (r: bool)
    ensures
        r == (a@ == b@),
{
    if a.len() != b.len() {
        return false;
    }
    let mut i: usize = 0;
    while i < a.len()
        invariant
            a@.len() == b@.len(),
            i <= a@.len(),
            forall|j: int| 0 <= j < i ==> a@[j] == b@[j],
        decreases a.len() - i,
    {
        if !same_input(&a[i], &b[i]) {
            return false;
        }
        i += 1;
    }
    proof {
        assert(a@ =~= b@);
    }
    true
}

fn hashes_agree(a: &Vec<String>, b: &Vec<String>) -> (r: bool)
    ensures
        r == (a@.len() == b@.len() && forall|i: int| 0 <= i < a@.len() ==> (#[trigger] a@[i])@ == b@[i]@),
{
    if a.len() != b.len() {
        return false;
    }
    let mut i: usize = 0;
    while i < a.len()
        invariant
            a@.len() == b@.len(),
            i <= a@.len(),
            forall|j: int| 0 <= j < i ==> (#[trigger] a@[j])@ == b@[j]@,
        decreases a.len() - i,
    {
        if !same_str(a[i].as_str(), b[i].as_str()) {
            return false;
        }
        i += 1;
    }
    true
}

fn owners_agree(a: &Option<String>, b: &Option<String>) -> (r: bool)
    ensures
        r == same_owner(*a, *b),
{
    match (a, b) {
        (None, None) => true,
        (Some(x), Some(y)) => same_str(x.as_str(), y.as_str()),
        _ => false,
    }
}

fn txs_agree(a: &BlockTransactionInfo, b: &BlockTransactionInfo) -> (r: bool)
    ensures
        r == same_tx(*a, *b),
{
    a.position == b.position
        && same_str(a.txid.as_str(), b.txid.as_str())
        && a.page_count == b.page_count
        && a.live_inputs == b.live_inputs
        && a.live_outputs == b.live_outputs
        && a.fee_micronoid == b.fee_micronoid
        && a.coinbase == b.coinbase
        && a.development_payout == b.development_payout
        && same_str(a.epoch_anchor.as_str(), b.epoch_anchor.as_str())
        && owners_agree(&a.input_owner, &b.input_owner)
        && same_str(a.input_sum_micronoid.as_str(), b.input_sum_micronoid.as_str())
        && same_str(a.output_sum_micronoid.as_str(), b.output_sum_micronoid.as_str())
        && hashes_agree(&a.page_hashes, &b.page_hashes)
        && inputs_agree(&a.inputs, &b.inputs)
        && outputs_agree(&a.outputs, &b.outputs)
}

/// Whether two bodies agree in every field.
pub fn bodies_agree(a: &RetainedBlockInfo, b: &RetainedBlockInfo) -> (r: bool)
    ensures
        r == same_body(*a, *b),
{
    if !(same_str(a.proof_class.as_str(), b.proof_class.as_str())
        && a.logical_transactions == b.logical_transactions
        && a.user_pages == b.user_pages
        && a.live_inputs == b.live_inputs
        && a.live_outputs == b.live_outputs
        && a.reward_micronoid == b.reward_micronoid
        && same_str(a.total_fees_micronoid.as_str(), b.total_fees_micronoid.as_str())
        && a.block_bytes == b.block_bytes
        && a.transactions.len() == b.transactions.len()) {
        return false;
    }
    let mut i: usize = 0;
    while i < a.transactions.len()
        invariant
            a.transactions@.len() == b.transactions@.len(),
            i <= a.transactions@.len(),
            forall|j: int| 0 <= j < i ==> same_tx(#[trigger] a.transactions@[j], b.transactions@[j]),
        decreases a.transactions.len() - i,
    {
        if !txs_agree(&a.transactions[i], &b.transactions[i]) {
            return false;
        }
        i += 1;
    }
    true
}

/// Whether the self-check counts a mismatch: the decoded body differs from
/// the body getBlockDetails reported, or that reported none.
pub fn selfcheck_mismatch(decoded: &RetainedBlockInfo, reported: Option<&RetainedBlockInfo>) -> (r: bool)
    ensures
        r == !(reported matches Some(t) && same_body(*decoded, *t)),
{
    match reported {
        Some(t) => !bodies_agree(decoded, t),
        None => true,
    }
}


/// Two transactions the self-check accepts as alike agree in every field:
/// every number and flag, every text by its characters, the page hashes,
/// the inputs, and every field of every output.
pub proof fn law_alike_transactions_agree_in_every_field(a: BlockTransactionInfo, b: BlockTransactionInfo)
    requires
        same_tx(a, b),
    ensures
        a.position == b.position,
        a.txid@ == b.txid@,
        a.page_count == b.page_count,
        a.live_inputs == b.live_inputs,
        a.live_outputs == b.live_outputs,
        a.fee_micronoid == b.fee_micronoid,
        a.coinbase == b.coinbase,
        a.development_payout == b.development_payout,
        a.epoch_anchor@ == b.epoch_anchor@,
        a.input_owner is Some <==> b.input_owner is Some,
        a.input_owner is Some ==> a.input_owner->0@ == b.input_owner->0@,
        a.input_sum_micronoid@ == b.input_sum_micronoid@,
        a.output_sum_micronoid@ == b.output_sum_micronoid@,
        a.page_hashes@.len() == b.page_hashes@.len(),
        forall|i: int| 0 <= i < a.page_hashes@.len() ==> (#[trigger] a.page_hashes@[i])@ == b.page_hashes@[i]@,
        a.inputs@ == b.inputs@,
        a.outputs@.len() == b.outputs@.len(),
        forall|i: int| 0 <= i < a.outputs@.len() ==> {
            &&& (#[trigger] a.outputs@[i]).page == b.outputs@[i].page
            &&& a.outputs@[i].lane == b.outputs@[i].lane
            &&& a.outputs@[i].slot_index == b.outputs@[i].slot_index
            &&& a.outputs@[i].amount_micronoid == b.outputs@[i].amount_micronoid
            &&& a.outputs@[i].owner@ == b.outputs@[i].owner@
            &&& a.outputs@[i].creation_id == b.outputs@[i].creation_id
        },
{
    assert forall|i: int| 0 <= i < a.outputs@.len() implies {
        &&& (#[trigger] a.outputs@[i]).page == b.outputs@[i].page
        &&& a.outputs@[i].lane == b.outputs@[i].lane
        &&& a.outputs@[i].slot_index == b.outputs@[i].slot_index
        &&& a.outputs@[i].amount_micronoid == b.outputs@[i].amount_micronoid
        &&& a.outputs@[i].owner@ == b.outputs@[i].owner@
        &&& a.outputs@[i].creation_id == b.outputs@[i].creation_id
    } by {
        assert(same_output(a.outputs@[i], b.outputs@[i]));
    }
}

/// Two bodies the self-check accepts as alike agree in every field of the
/// block and transaction by transaction; in particular in every
/// transaction's fee.
pub proof fn law_alike_bodies_agree_in_every_field(a: RetainedBlockInfo, b: RetainedBlockInfo)
    requires
        same_body(a, b),
    ensures
        a.proof_class@ == b.proof_class@,
        a.logical_transactions == b.logical_transactions,
        a.user_pages == b.user_pages,
        a.live_inputs == b.live_inputs,
        a.live_outputs == b.live_outputs,
        a.reward_micronoid == b.reward_micronoid,
        a.total_fees_micronoid@ == b.total_fees_micronoid@,
        a.block_bytes == b.block_bytes,
        a.transactions@.len() == b.transactions@.len(),
        forall|i: int| 0 <= i < a.transactions@.len() ==> same_tx(#[trigger] a.transactions@[i], b.transactions@[i]),
        forall|i: int| 0 <= i < a.transactions@.len() ==>
            (#[trigger] a.transactions@[i]).fee_micronoid == b.transactions@[i].fee_micronoid,
{
    assert forall|i: int| 0 <= i < a.transactions@.len() implies
        (#[trigger] a.transactions@[i]).fee_micronoid == b.transactions@[i].fee_micronoid by {
        law_alike_transactions_agree_in_every_field(a.transactions@[i], b.transactions@[i]);
    }
}

/// A body always agrees with itself: the self-check counts no mismatch
/// for a decoded body identical to the reported one.
pub proof fn law_body_agrees_with_itself(a: RetainedBlockInfo)
    ensures
        same_body(a, a),
{
    assert forall|i: int| 0 <= i < a.transactions@.len() implies same_tx(#[trigger] a.transactions@[i], a.transactions@[i]) by {
        let t = a.transactions@[i];
        assert(same_owner(t.input_owner, t.input_owner));
    }
}

/// Agreement does not depend on which body is decoded and which reported.
pub proof fn law_agreement_is_symmetric(a: RetainedBlockInfo, b: RetainedBlockInfo)
    ensures
        same_body(a, b) == same_body(b, a),
{
    if same_body(a, b) {
        assert forall|i: int| 0 <= i < b.transactions@.len() implies same_tx(#[trigger] b.transactions@[i], a.transactions@[i]) by {
            assert(same_tx(a.transactions@[i], b.transactions@[i]));
            assert(b.transactions@[i].inputs@ == a.transactions@[i].inputs@);
            assert forall|j: int| 0 <= j < b.transactions@[i].page_hashes@.len() implies
                (#[trigger] b.transactions@[i].page_hashes@[j])@ == a.transactions@[i].page_hashes@[j]@ by {
                assert(a.transactions@[i].page_hashes@[j]@ == b.transactions@[i].page_hashes@[j]@);
            }
            assert forall|j: int| 0 <= j < b.transactions@[i].outputs@.len() implies
                same_output(#[trigger] b.transactions@[i].outputs@[j], a.transactions@[i].outputs@[j]) by {
                assert(same_output(a.transactions@[i].outputs@[j], b.transactions@[i].outputs@[j]));
            }
        }
    }
    if same_body(b, a) {
        assert forall|i: int| 0 <= i < a.transactions@.len() implies same_tx(#[trigger] a.transactions@[i], b.transactions@[i]) by {
            assert(same_tx(b.transactions@[i], a.transactions@[i]));
            assert(a.transactions@[i].inputs@ == b.transactions@[i].inputs@);
            assert forall|j: int| 0 <= j < a.transactions@[i].page_hashes@.len() implies
                (#[trigger] a.transactions@[i].page_hashes@[j])@ == b.transactions@[i].page_hashes@[j]@ by {
                assert(b.transactions@[i].page_hashes@[j]@ == a.transactions@[i].page_hashes@[j]@);
            }
            assert forall|j: int| 0 <= j < a.transactions@[i].outputs@.len() implies
                same_output(#[trigger] a.transactions@[i].outputs@[j], b.transactions@[i].outputs@[j]) by {
                assert(same_output(b.transactions@[i].outputs@[j], a.transactions@[i].outputs@[j]));
            }
        }
    }
}


proof fn lemma_equal_outputs_alike(a: Seq<BlockTransactionOutputInfo>, b: Seq<BlockTransactionOutputInfo>)
    requires
        a == b,
    ensures
        forall|i: int| 0 <= i < a.len() ==> same_output(#[trigger] a[i], b[i]),
{
}

/// Two bodies that both describe the same parsed block agree: the decoder
/// self-check never counts a mismatch between faithful descriptions.
pub proof fn law_faithful_descriptions_agree(x: RetainedBlockInfo, y: RetainedBlockInfo, b: ParsedBlock)
    requires
        describes_block(x, b),
        describes_block(y, b),
    ensures
        same_body(x, y),
{
    let off = index_of_first_spend(b);
    assert forall|i: int| 0 <= i < x.transactions@.len() implies same_tx(#[trigger] x.transactions@[i], y.transactions@[i]) by {
        let p = x.transactions@[i];
        let q = y.transactions@[i];
        if i == 0 {
            assert(describes_coinbase(p, b) && describes_coinbase(q, b));
            lemma_equal_outputs_alike(p.outputs@, q.outputs@);
            assert(p.inputs@ =~= q.inputs@);
        } else if i == 1 && b.has_development_payout {
            assert(describes_payout(p, b) && describes_payout(q, b));
            lemma_equal_outputs_alike(p.outputs@, q.outputs@);
            assert(p.inputs@ =~= q.inputs@);
        } else {
            let k = i - off;
            assert(x.transactions@[off + k] == p);
            let s = b.spends@[k];
            assert(describes_spend(p, s, spend_pages(b, s), first_id_of_spend(b, k as nat)));
            assert(describes_spend(q, s, spend_pages(b, s), first_id_of_spend(b, k as nat)));
            lemma_equal_outputs_alike(p.outputs@, q.outputs@);
            assert forall|j: int| 0 <= j < p.page_hashes@.len() implies (#[trigger] p.page_hashes@[j])@ == q.page_hashes@[j]@ by {
                assert(p.page_hashes@[j]@ == crate::hexcodec::hex_lower(spend_pages(b, s)[j].txid@));
            }
        }
    }
}

} // verus!

use parano1d_permanode::decode::{
    decode_retained_block, BlockPage, DecodeError, PageInput, PageOutput, PagedSpend, ParsedBlock, ProofClass,
};
use parano1d_permanode::hexcodec::encode_hex;
use parano1d_permanode::import::{
    accept_stored_body, import_report, tally, GapOutcome, ImportError, ImportReport, StoredBlock, StoredInput, StoredOutput,
    StoredTransaction,
};
use parano1d_permanode::rpc::{raw_block_from_result, reply_result, RpcError, RpcReply};
use parano1d_permanode::selfcheck::{bodies_agree, selfcheck_mismatch};

fn out(lane: u8, slot: u64, amount: u64, owner: &str) -> PageOutput {
    PageOutput { lane, slot_index: slot, amount, owner: owner.to_string() }
}

fn page(txid: u8, ins: Vec<PageInput>, outs: Vec<PageOutput>) -> BlockPage {
    BlockPage { txid: vec![txid; 32], epoch_anchor: vec![0xee; 32], inputs: ins, outputs: outs }
}

fn sample_block() -> ParsedBlock {
    let coinbase = page(1, vec![], vec![out(0, 10, 40_000_000, "o1miner"), out(1, 11, 5_000_000, "o1miner")]);
    let payout = page(2, vec![], vec![out(0, 12, 21_600_000_000, "o1fund")]);
    let spend_page = page(
        3,
        vec![PageInput { lane: 0, slot_index: 5, amount: 100_000, creation_id: 7 }],
        vec![out(0, 13, 60_000, "o1alice"), out(1, 14, 31_000, "o1bob")],
    );
    ParsedBlock {
        height: 4320,
        block_id: vec![0xab; 32],
        alloc_counter: 100,
        coinbase_creation_id: 4_294_971_616,
        byte_len: 1234,
        proof_class: ProofClass::B25,
        page_count: 1,
        live_inputs: 1,
        live_outputs: 2,
        has_development_payout: true,
        pages: vec![coinbase, payout, spend_page],
        spends: vec![PagedSpend {
            position: 2,
            start_page: 2,
            page_count: 1,
            logical_txid: vec![0x33; 32],
            live_inputs: 1,
            live_outputs: 2,
            fee: 9_000,
            epoch_anchor: vec![0xee; 32],
            input_owner: "o1carol".to_string(),
            input_sum: 100_000,
            output_sum: 91_000,
        }],
        logical_txids: vec![vec![1; 32], vec![2; 32], vec![0x33; 32]],
    }
}

#[test]
fn decoding_a_body_with_payout_and_spend() {
    let b = sample_block();
    let hash = "ab".repeat(32);
    let info = decode_retained_block(&b, 4320, &hash).expect("decodes");
    assert_eq!(info.proof_class, "B25 / m22");
    assert_eq!(info.logical_transactions, 3);
    assert_eq!(info.user_pages, 1);
    assert_eq!(info.live_inputs, 1);
    assert_eq!(info.live_outputs, 5);
    assert_eq!(info.reward_micronoid, 45_000_000);
    assert_eq!(info.total_fees_micronoid, "9000");
    assert_eq!(info.block_bytes, 1234);
    assert_eq!(info.transactions.len(), 3);
    let cb = &info.transactions[0];
    assert_eq!(cb.txid, "01".repeat(32));
    assert!(cb.coinbase && !cb.development_payout);
    assert_eq!(cb.output_sum_micronoid, "45000000");
    assert_eq!(cb.input_sum_micronoid, "0");
    assert_eq!(cb.outputs.iter().map(|o| o.creation_id).collect::<Vec<_>>(), vec![4_294_971_616, 4_294_971_616]);
    assert_eq!(cb.page_hashes, vec!["01".repeat(32)]);
    assert_eq!(cb.epoch_anchor, "ee".repeat(32));
    let p = &info.transactions[1];
    assert!(p.coinbase && p.development_payout);
    assert_eq!(p.position, 1);
    assert_eq!(p.output_sum_micronoid, "21600000000");
    assert_eq!(p.outputs[0].creation_id, 98);
    let s = &info.transactions[2];
    assert_eq!(s.position, 2);
    assert_eq!(s.txid, "33".repeat(32));
    assert_eq!(s.fee_micronoid, 9_000);
    assert_eq!(s.input_owner.as_deref(), Some("o1carol"));
    assert_eq!(s.input_sum_micronoid, "100000");
    assert_eq!(s.output_sum_micronoid, "91000");
    assert_eq!(s.page_hashes, vec!["03".repeat(32)]);
    assert_eq!(s.inputs.len(), 1);
    assert_eq!((s.inputs[0].page, s.inputs[0].slot_index, s.inputs[0].creation_id), (0, 5, 7));
    assert_eq!(s.outputs.iter().map(|o| o.creation_id).collect::<Vec<_>>(), vec![99, 100]);
    assert_eq!(s.outputs[1].owner, "o1bob");
}

#[test]
fn decoding_binds_the_body_to_the_canonical_header() {
    let b = sample_block();
    let hash = "ab".repeat(32);
    assert!(matches!(decode_retained_block(&b, 0, &hash), Err(DecodeError::GenesisHeight)));
    assert!(matches!(
        decode_retained_block(&b, 4321, &hash),
        Err(DecodeError::HeightMismatch { body: 4320, expected: 4321 })
    ));
    assert!(matches!(decode_retained_block(&b, 4320, &"00".repeat(32)), Err(DecodeError::HashMismatch)));
    assert!(matches!(decode_retained_block(&b, 4320, &"AB".repeat(32)), Err(DecodeError::HashMismatch)));
}

#[test]
fn decoding_rejects_inconsistent_bodies() {
    let hash = "ab".repeat(32);
    let mut b = sample_block();
    b.pages.clear();
    assert!(matches!(decode_retained_block(&b, 4320, &hash), Err(DecodeError::MissingCoinbase)));
    let mut b = sample_block();
    b.pages.truncate(1);
    b.spends.clear();
    assert!(matches!(decode_retained_block(&b, 4320, &hash), Err(DecodeError::MissingPayoutPage)));
    let mut b = sample_block();
    b.alloc_counter = 4;
    assert!(matches!(decode_retained_block(&b, 4320, &hash), Err(DecodeError::AllocUnderflow)));
    let mut b = sample_block();
    b.logical_txids.truncate(1);
    assert!(matches!(decode_retained_block(&b, 4320, &hash), Err(DecodeError::MissingTxid)));
    let mut b = sample_block();
    b.logical_txids.clear();
    assert!(matches!(decode_retained_block(&b, 4320, &hash), Err(DecodeError::MissingTxid)));
    let mut b = sample_block();
    b.spends[0].start_page = 3;
    assert!(matches!(decode_retained_block(&b, 4320, &hash), Err(DecodeError::PageRange)));
    let mut b = sample_block();
    b.live_outputs = 1;
    b.alloc_counter = 100;
    assert!(matches!(
        decode_retained_block(&b, 4320, &hash),
        Err(DecodeError::AllocMismatch { cursor: Some(101), counter: 100 })
    ));
    let mut b = sample_block();
    b.pages[0].outputs = (0..70_000u64).map(|i| out(0, i, 1, "o1m")).collect();
    b.alloc_counter = 1_000_000;
    assert!(matches!(decode_retained_block(&b, 4320, &hash), Err(DecodeError::TooManyOutputs)));
}

#[test]
fn coinbase_only_block() {
    let mut b = sample_block();
    b.has_development_payout = false;
    b.pages.truncate(1);
    b.spends.clear();
    b.logical_txids.truncate(1);
    b.live_inputs = 0;
    b.live_outputs = 0;
    b.page_count = 0;
    b.alloc_counter = 2;
    b.height = 4321;
    b.proof_class = ProofClass::B255;
    let info = decode_retained_block(&b, 4321, &"ab".repeat(32)).expect("decodes");
    assert_eq!(info.proof_class, "B255 / m24");
    assert_eq!(info.transactions.len(), 1);
    assert_eq!(info.total_fees_micronoid, "0");
    assert_eq!(info.live_outputs, 2);
}

fn stored_out(amount: i64, id: &str) -> StoredOutput {
    StoredOutput { page: 0, lane: 0, slot_index: 1, amount_micronoid: amount, owner: "o1x".to_string(), creation_id: id.to_string() }
}

fn stored_tx(position: i64, coinbase: bool, fee: i64, ins: Vec<StoredInput>, outs: Vec<StoredOutput>) -> StoredTransaction {
    let in_sum: i64 = ins.iter().map(|i| i.amount_micronoid).sum();
    let out_sum: i64 = outs.iter().map(|o| o.amount_micronoid).sum();
    StoredTransaction {
        position,
        txid: format!("{position:064}"),
        page_count: 1,
        fee_micronoid: fee,
        coinbase,
        development_payout: false,
        epoch_anchor: "ee".repeat(32),
        input_owner: if coinbase { None } else { Some("o1carol".to_string()) },
        input_sum_micronoid: in_sum.to_string(),
        output_sum_micronoid: out_sum.to_string(),
        page_hashes: vec![format!("{position:064}")],
        inputs: ins,
        outputs: outs,
    }
}

fn stored_block() -> StoredBlock {
    StoredBlock {
        proof_class: Some("B25 / m22".to_string()),
        reward_micronoid: Some(45_009_000),
        total_fees_micronoid: Some("9000".to_string()),
        transactions: vec![
            stored_tx(0, true, 0, vec![], vec![stored_out(45_009_000, "4294971616")]),
            stored_tx(
                1,
                false,
                9_000,
                vec![StoredInput { page: 0, lane: 0, slot_index: 5, amount_micronoid: 100_000, creation_id: "7".to_string() }],
                vec![stored_out(60_000, "99"), stored_out(31_000, "100")],
            ),
        ],
    }
}

#[test]
fn importing_a_consistent_body() {
    let info = accept_stored_body(&stored_block()).expect("accepted");
    assert_eq!(info.proof_class, "B25 / m22");
    assert_eq!(info.logical_transactions, 2);
    assert_eq!(info.user_pages, 1);
    assert_eq!(info.live_inputs, 1);
    assert_eq!(info.live_outputs, 3);
    assert_eq!(info.reward_micronoid, 45_009_000);
    assert_eq!(info.total_fees_micronoid, "9000");
    assert_eq!(info.transactions[1].outputs[1].creation_id, 100);
    assert_eq!(info.transactions[1].inputs[0].creation_id, 7);
    assert_eq!(info.transactions[0].outputs[0].creation_id, 4_294_971_616);
}

#[test]
fn importing_rejects_every_inconsistency() {
    let mut b = stored_block();
    b.proof_class = None;
    assert_eq!(accept_stored_body(&b).err(), Some(ImportError::MissingBodyFields));
    let mut b = stored_block();
    b.transactions[1].outputs[0].creation_id = "x9".to_string();
    assert_eq!(accept_stored_body(&b).err(), Some(ImportError::BadCreationId));
    let mut b = stored_block();
    b.transactions[1].page_hashes.push("ff".to_string());
    assert_eq!(accept_stored_body(&b).err(), Some(ImportError::PageHashCount));
    let mut b = stored_block();
    b.transactions[1].output_sum_micronoid = "1".to_string();
    assert_eq!(accept_stored_body(&b).err(), Some(ImportError::OutputSumMismatch));
    let mut b = stored_block();
    b.transactions[1].input_sum_micronoid = "1".to_string();
    assert_eq!(accept_stored_body(&b).err(), Some(ImportError::InputSumMismatch));
    let mut b = stored_block();
    b.transactions[1].fee_micronoid = 8_000;
    assert_eq!(accept_stored_body(&b).err(), Some(ImportError::Unbalanced));
    let mut b = stored_block();
    b.transactions.clear();
    assert_eq!(accept_stored_body(&b).err(), Some(ImportError::NoTransactions));
    let mut b = stored_block();
    b.transactions[0].coinbase = false;
    b.transactions[0].fee_micronoid = 0;
    b.transactions[0].input_owner = None;
    assert_eq!(accept_stored_body(&b).err(), Some(ImportError::Unbalanced));
    let mut b = stored_block();
    b.transactions.swap(0, 1);
    assert_eq!(accept_stored_body(&b).err(), Some(ImportError::FirstNotCoinbase));
    let mut b = stored_block();
    b.total_fees_micronoid = Some("9001".to_string());
    assert_eq!(accept_stored_body(&b).err(), Some(ImportError::FeeTotalMismatch));
    let mut b = stored_block();
    b.reward_micronoid = Some(45_000_000);
    assert_eq!(accept_stored_body(&b).err(), Some(ImportError::CoinbaseTotalMismatch));
}

#[test]
fn import_report_counts_outcomes() {
    let mut r = ImportReport::default();
    for o in [GapOutcome::Imported, GapOutcome::Imported, GapOutcome::NotInSource, GapOutcome::Rejected, GapOutcome::Skipped] {
        tally(&mut r, o);
    }
    assert_eq!((r.gaps, r.imported, r.not_in_source, r.rejected, r.flags_cleared), (0, 2, 1, 1, 0));
}

#[test]
fn rpc_replies() {
    let ok: RpcReply<u64> = RpcReply { error: None, result: Some(117_410) };
    assert!(matches!(reply_result(ok), Ok(117_410)));
    let err: RpcReply<u64> = RpcReply { error: Some("{\"code\":-1}".to_string()), result: Some(1) };
    assert!(matches!(reply_result(err), Err(RpcError::Returned(m)) if m == "{\"code\":-1}"));
    let none: RpcReply<u64> = RpcReply { error: None, result: None };
    assert!(matches!(reply_result(none), Err(RpcError::NoResult)));
    assert!(matches!(raw_block_from_result(None), Ok(None)));
    assert!(matches!(raw_block_from_result(Some("00ff")), Ok(Some(v)) if v == vec![0, 0xff]));
    assert!(matches!(raw_block_from_result(Some("0g")), Err(RpcError::InvalidHex)));
    assert_eq!(encode_hex(&[0xab; 2]), "abab");
}

#[test]
fn selfcheck_compares_every_field() {
    let info = decode_retained_block(&sample_block(), 4320, &"ab".repeat(32)).expect("decodes");
    let same = info.clone();
    assert!(bodies_agree(&info, &same));
    assert!(!selfcheck_mismatch(&info, Some(&same)));
    assert!(selfcheck_mismatch(&info, None));
    let mut other = info.clone();
    other.transactions[2].outputs[1].owner = "o1eve".to_string();
    assert!(!bodies_agree(&info, &other));
    assert!(selfcheck_mismatch(&info, Some(&other)));
    let mut other = info.clone();
    other.transactions[1].input_owner = Some("o1x".to_string());
    assert!(!bodies_agree(&info, &other));
    let mut other = info.clone();
    other.transactions[2].inputs[0].creation_id = 8;
    assert!(!bodies_agree(&info, &other));
    let mut other = info.clone();
    other.transactions[0].page_hashes.push("00".to_string());
    assert!(!bodies_agree(&info, &other));
    let mut other = info.clone();
    other.total_fees_micronoid = "9001".to_string();
    assert!(!bodies_agree(&info, &other));
    let mut other = info.clone();
    other.transactions.pop();
    assert!(!bodies_agree(&info, &other));
}

#[test]
fn cursor_past_the_range_is_a_mismatch() {
    let hash = "ab".repeat(32);
    // no check of the cursor comes before the binding to the header
    let mut b = sample_block();
    b.alloc_counter = u64::MAX - 1;
    assert!(matches!(decode_retained_block(&b, 0, &hash), Err(DecodeError::GenesisHeight)));
    assert!(matches!(decode_retained_block(&b, 4320, &"00".repeat(32)), Err(DecodeError::HashMismatch)));
    // a spend listing the same pages again pushes the cursor past u64::MAX
    b.alloc_counter = u64::MAX;
    let again = b.spends[0].clone();
    b.spends.push(again);
    b.spends.push(b.spends[0].clone());
    b.pages[2].outputs = (0..3u64).map(|i| out(0, i, 1, "o1m")).collect();
    b.live_outputs = 2;
    assert!(matches!(
        decode_retained_block(&b, 4320, &hash),
        Err(DecodeError::AllocMismatch { cursor: None, counter: u64::MAX })
    ));
    // an out-of-range spend is reported before any cursor mismatch
    b.spends[2].start_page = 7;
    assert!(matches!(decode_retained_block(&b, 4320, &hash), Err(DecodeError::PageRange)));
}

#[test]
fn stored_sums_out_of_range_are_rejected() {
    let mut b = stored_block();
    b.transactions[1].outputs.push(stored_out(-1, "5"));
    assert_eq!(accept_stored_body(&b).err(), Some(ImportError::AmountOutOfRange));
    let mut b = stored_block();
    b.transactions[1].inputs.push(StoredInput { page: 0, lane: 0, slot_index: 1, amount_micronoid: -1, creation_id: "3".to_string() });
    b.transactions[1].input_sum_micronoid = "1".to_string();
    assert_eq!(accept_stored_body(&b).err(), Some(ImportError::AmountOutOfRange));
    let mut b = stored_block();
    b.transactions[1].fee_micronoid = -1;
    assert_eq!(accept_stored_body(&b).err(), Some(ImportError::AmountOutOfRange));
    // an earlier inconsistency wins over a later overflow
    let mut b = stored_block();
    b.transactions[0].page_hashes.clear();
    b.transactions[1].fee_micronoid = -1;
    assert_eq!(accept_stored_body(&b).err(), Some(ImportError::PageHashCount));
}

#[test]
fn marker_block_rejects_wrong_hash_or_height() {
    let mut b = sample_block();
    b.height = 108_537;
    let hash = "ab".repeat(32);
    let zeros = "0".repeat(76);
    assert!(matches!(decode_retained_block(&b, 108_537, &zeros), Err(DecodeError::HashMismatch)));
    assert!(matches!(
        decode_retained_block(&b, 1, &hash),
        Err(DecodeError::HeightMismatch { body: 108_537, expected: 1 })
    ));
    assert!(decode_retained_block(&b, 108_537, &hash).is_ok());
}

#[test]
fn import_report_counts_one_outcome_per_gap() {
    let outcomes = vec![GapOutcome::Imported, GapOutcome::Skipped, GapOutcome::Rejected, GapOutcome::Imported, GapOutcome::NotInSource];
    let r = import_report(&outcomes);
    assert_eq!((r.gaps, r.imported, r.not_in_source, r.rejected, r.flags_cleared), (5, 2, 1, 1, 0));
    assert!(r.imported + r.not_in_source + r.rejected <= r.gaps);
    let empty = import_report(&vec![]);
    assert_eq!((empty.gaps, empty.imported), (0, 0));
}

use parano1d_permanode::indexer::{
    after_fallback, backfill_step, last_processed, body_source_text, gap_needs_header_row, gap_note, grown_bounds, ingest_step,
    near_edges, next_mismatch_count, plan_poll, prune_cutoff, prune_due, recheck_step, reorg_replacement_step,
    same_str, scan_bound, slot_capacity, store_step, BackfillStep, BodySource, FallbackResult, GapReason,
    IngestStep, PollPlan, RecheckStep, StoreStep,
};

#[test]
fn poll_plan_from_recorded_state() {
    assert_eq!(
        plan_poll(1_000, Some("990"), 30, true),
        PollPlan { ingest_from: 991, ingest_to: 1_000, recheck_from: 970, recheck_to: 1_000, retry_gaps_from: Some(958) }
    );
    // a fresh start only records new blocks
    assert_eq!(
        plan_poll(1_000, None, 30, false),
        PollPlan { ingest_from: 1_000, ingest_to: 1_000, recheck_from: 970, recheck_to: 1_000, retry_gaps_from: None }
    );
    assert_eq!(plan_poll(1_000, Some("garbage"), 30, false).ingest_from, 1_000);
    let early = plan_poll(10, Some("10"), 30, true);
    assert_eq!((early.ingest_from, early.ingest_to, early.recheck_from, early.retry_gaps_from), (11, 10, 0, Some(0)));
    assert_eq!(plan_poll(0, None, 30, false).ingest_from, 1);
}

#[test]
fn ingest_decisions() {
    assert_eq!(ingest_step(false, true, true, true), IngestStep::Nothing);
    assert_eq!(ingest_step(true, true, true, true), IngestStep::Store { source: BodySource::Details, selfcheck: true });
    assert_eq!(ingest_step(true, true, true, false), IngestStep::Store { source: BodySource::Details, selfcheck: false });
    assert_eq!(ingest_step(true, false, true, true), IngestStep::TryFallback);
    assert_eq!(ingest_step(true, false, false, true), IngestStep::RecordGapBlock(GapReason::PrunedOnFirstIngest));
    assert_eq!(after_fallback(FallbackResult::Recovered), IngestStep::Store { source: BodySource::GetBlock, selfcheck: false });
    assert_eq!(after_fallback(FallbackResult::NoBody), IngestStep::RecordGapBlock(GapReason::OutsideServingWindow));
    assert_eq!(
        after_fallback(FallbackResult::DecodeFailed("bad page".to_string())),
        IngestStep::RecordGapBlock(GapReason::DecodeFailed("bad page".to_string()))
    );
    assert_eq!(reorg_replacement_step(false, false, true), IngestStep::RecordGap(GapReason::ReorgBodyUnavailable));
    assert_eq!(reorg_replacement_step(true, true, true), IngestStep::Store { source: BodySource::Details, selfcheck: false });
    assert_eq!(reorg_replacement_step(true, false, true), IngestStep::TryFallback);
    assert_eq!(reorg_replacement_step(true, false, false), IngestStep::RecordGapBlock(GapReason::ReorgBodyUnavailable));
}

#[test]
fn gap_notes_and_sources() {
    assert_eq!(gap_note(&GapReason::OutsideServingWindow), "no body via getBlockDetails nor getBlock (outside serving window)");
    assert_eq!(gap_note(&GapReason::DecodeFailed("x".to_string())), "getBlock body could not be decoded: x");
    assert_eq!(gap_note(&GapReason::PrunedOnFirstIngest), "body already pruned by node on first ingest attempt");
    assert_eq!(gap_note(&GapReason::ReorgBodyUnavailable), "reorg: new canonical body already unavailable at recheck time");
    assert_eq!(body_source_text(BodySource::Details), "details");
    assert_eq!(body_source_text(BodySource::GetBlock), "getblock");
    assert_eq!(body_source_text(BodySource::Import), "import");
}

#[test]
fn reorg_detection() {
    assert_eq!(recheck_step(None, Some((4, "aa"))), RecheckStep::Nothing);
    assert_eq!(recheck_step(Some("aa"), None), RecheckStep::Nothing);
    assert_eq!(recheck_step(Some("aa"), Some((4, "aa"))), RecheckStep::Nothing);
    assert_eq!(recheck_step(Some("bb"), Some((4, "aa"))), RecheckStep::Reorg { orphaned_block_id: 4 });
    assert!(same_str("abc", "abc"));
    assert!(!same_str("abc", "abd"));
}

#[test]
fn storing_and_backfilling() {
    assert_eq!(store_step("aa", Some((3, "aa")), Some(3)), StoreStep::FillBody { block_id: 3 });
    assert_eq!(store_step("aa", Some((3, "aa")), None), StoreStep::AlreadyStored);
    assert_eq!(store_step("aa", Some((3, "bb")), Some(3)), StoreStep::InsertNew);
    assert_eq!(store_step("aa", None, None), StoreStep::InsertNew);
    assert!(gap_needs_header_row("aa", None));
    assert!(gap_needs_header_row("aa", Some((1, "bb"))));
    assert!(!gap_needs_header_row("aa", Some((1, "aa"))));
    assert_eq!(backfill_step(None, Some(2)), BackfillStep::Skip);
    assert_eq!(backfill_step(Some((2, "aa")), Some(2)), BackfillStep::Fetch { block_id: 2 });
    assert_eq!(backfill_step(Some((2, "aa")), None), BackfillStep::Skip);
}

#[test]
fn mismatch_counter() {
    assert_eq!(next_mismatch_count(None), "1");
    assert_eq!(next_mismatch_count(Some("41")), "42");
    assert_eq!(next_mismatch_count(Some("oops")), "1");
    assert_eq!(next_mismatch_count(Some("-3")), "-2");
}

#[test]
fn slot_scan_bounds() {
    assert_eq!(near_edges(9_501_000, 9_500_000, 10_000_000), (true, false));
    assert_eq!(near_edges(9_999_000, 9_500_000, 10_000_000), (false, true));
    assert_eq!(near_edges(9_700_000, 9_500_000, 10_000_000), (false, false));
    assert_eq!(near_edges(u64::MAX, 0, u64::MAX), (false, true));
    assert_eq!(grown_bounds(9_500_000, 10_000_000, true, true, 1 << 24), (9_250_000, 10_250_000));
    assert_eq!(grown_bounds(100, 16_700_000, true, true, 1 << 24), (0, 1 << 24));
    assert_eq!(grown_bounds(100, 200, false, false, 150), (100, 200));
    assert_eq!(scan_bound(Some("123"), 7), 123);
    assert_eq!(scan_bound(Some("x"), 7), 7);
    assert_eq!(scan_bound(None, 7), 7);
    assert_eq!(slot_capacity(Some(24)), 1 << 24);
    assert_eq!(slot_capacity(None), u64::MAX);
}

#[test]
fn pruning_schedule() {
    assert!(!prune_due(720, 0, 720));
    assert!(prune_due(1_440, 30, 720));
    assert!(!prune_due(1_441, 30, 720));
    assert_eq!(prune_cutoff(1_700_000_000, 30), 1_700_000_000 - 30 * 86_400);
    assert_eq!(prune_cutoff(5, 0), 5);
}

#[test]
fn last_processed_height() {
    assert_eq!(last_processed(100, Some("42")), 42);
    assert_eq!(last_processed(100, Some("x")), 99);
    assert_eq!(last_processed(100, None), 99);
    assert_eq!(last_processed(0, None), 0);
    assert_eq!(last_processed(5, Some("18446744073709551615")), u64::MAX);
}

#[test]
fn reorg_replacement_gets_its_own_row() {
    let recorded = Some((4, "aa"));
    assert_eq!(recheck_step(Some("bb"), recorded), RecheckStep::Reorg { orphaned_block_id: 4 });
    assert_eq!(store_step("bb", recorded, Some(4)), StoreStep::InsertNew);
    assert_eq!(store_step("bb", None, None), StoreStep::InsertNew);
    assert!(gap_needs_header_row("bb", recorded));
    assert_eq!(recheck_step(Some("aa"), recorded), RecheckStep::Nothing);
    assert_eq!(store_step("aa", recorded, None), StoreStep::AlreadyStored);
}

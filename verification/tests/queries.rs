use parano1d_permanode::queries::{
    amount_text, block_time_span, canonical_filter_on, confirmations_for, indexed_tip_from, mismatch_count_from,
    page_offset, page_past_end, tx_confirmations, window_start,
};

#[test]
fn confirmations_count_the_block_itself() {
    assert_eq!(confirmations_for(Some(100), 100), Some(1));
    assert_eq!(confirmations_for(Some(100), 83), Some(18));
    assert_eq!(confirmations_for(Some(100), 150), Some(0));
    assert_eq!(confirmations_for(None, 5), None);
    assert_eq!(tx_confirmations(true, Some(10), 1), Some(10));
    assert_eq!(tx_confirmations(false, Some(10), 1), Some(0));
    assert_eq!(tx_confirmations(false, None, 1), Some(0));
}

#[test]
fn recorded_state_values() {
    assert_eq!(indexed_tip_from(Some("117410")), Some(117_410));
    assert_eq!(indexed_tip_from(Some("tip")), None);
    assert_eq!(indexed_tip_from(None), None);
    assert_eq!(mismatch_count_from(Some("3")), 3);
    assert_eq!(mismatch_count_from(Some("")), 0);
    assert_eq!(mismatch_count_from(None), 0);
}

#[test]
fn canonical_filter_sql() {
    assert_eq!(
        canonical_filter_on("b"),
        "(SELECT s.status FROM block_status_log s WHERE s.block_id = b.id ORDER BY s.id DESC LIMIT 1) = 'canonical'"
    );
}

#[test]
fn paging() {
    assert_eq!(page_offset(1, 25), 0);
    assert_eq!(page_offset(3, 25), 50);
    assert_eq!(page_offset(0, 25), 0);
    assert_eq!(page_offset(-4, 25), 0);
    assert_eq!(page_offset(i64::MAX, 200), i64::MAX);
    assert!(page_past_end(50, 50));
    assert!(!page_past_end(25, 50));
}

#[test]
fn amounts_and_windows() {
    assert_eq!(amount_text(-2_500), "-2500");
    assert_eq!(amount_text(45_000_000), "45000000");
    assert_eq!(block_time_span(10, Some(1_000), Some(1_180)), Some((180, 9)));
    assert_eq!(block_time_span(1, Some(1_000), Some(1_000)), None);
    assert_eq!(block_time_span(3, Some(1_000), Some(1_000)), Some((0, 2)));
    assert_eq!(block_time_span(3, None, Some(1_000)), None);
    assert_eq!(window_start(1_700_000_000, 86_400), 1_699_913_600);
}

use parano1d_permanode::serve::{
    add_sample, address_paging, asset_cache_policy, block_is_final, block_list_limit, cache_policy, emission_totals,
    etag_matches, etag_of, expansion_threshold, expansion_window, header_qualifies, history_with_tip, is_address,
    is_hex64, next_sample_height, rescale_history, search_midpoint, search_narrow, state_capacity, tx_is_final,
    StateHistory,
};

fn fnv1a(bytes: &[u8]) -> u64 {
    let mut h: u64 = 0xcbf2_9ce4_8422_2325;
    for b in bytes {
        h ^= *b as u64;
        h = h.wrapping_mul(0x0100_0000_01b3);
    }
    h
}

#[test]
fn etag_is_quoted_fnv1a() {
    assert_eq!(etag_of(b""), "\"cbf29ce484222325\"");
    assert_eq!(etag_of(b"a"), "\"af63dc4c8601ec8c\"");
    let body = b"<html>permanode</html>";
    assert_eq!(etag_of(body), format!("\"{:016x}\"", fnv1a(body)));
    assert_ne!(etag_of(b"a"), etag_of(b"b"));
}

#[test]
fn if_none_match_lists() {
    let tag = "\"0123456789abcdef\"";
    assert!(etag_matches(tag, tag));
    assert!(etag_matches(" \"x\" , \"0123456789abcdef\"  ", tag));
    assert!(etag_matches("\"x\",\"0123456789abcdef\"", tag));
    assert!(!etag_matches("\"x\", \"y\"", tag));
    assert!(!etag_matches("", tag));
    assert!(!etag_matches("*", tag));
    assert!(etag_matches("\t\"0123456789abcdef\"\n", tag));
}

#[test]
fn id_shapes() {
    let hash = "ab".repeat(32);
    assert!(is_hex64(&hash));
    assert!(!is_hex64(&"AB".repeat(32)));
    assert!(!is_hex64(&"ab".repeat(31)));
    assert!(!is_hex64(&format!("{}g", "a".repeat(63))));
    let addr = format!("o1{}", "q7".repeat(30));
    assert!(is_address(&addr));
    assert!(!is_address(&format!("o1{}", "q".repeat(47))));
    assert!(is_address(&format!("o1{}", "q".repeat(48))));
    assert!(is_address(&format!("o1{}", "q".repeat(98))));
    assert!(!is_address(&format!("o1{}", "q".repeat(99))));
    assert!(!is_address(&format!("o2{}", "q".repeat(60))));
    assert!(!is_address(&format!("o1{}Q", "q".repeat(60))));
}

#[test]
fn finality_and_caching() {
    assert!(!block_is_final(None));
    assert!(!block_is_final(Some(17)));
    assert!(block_is_final(Some(18)));
    assert!(!tx_is_final(false, Some(100)));
    assert!(tx_is_final(true, Some(18)));
    assert_eq!(cache_policy(true), "public, max-age=3600");
    assert_eq!(cache_policy(false), "no-cache");
    assert_eq!(asset_cache_policy("font"), "public, max-age=86400");
    assert_eq!(asset_cache_policy("image"), "public, max-age=86400");
    assert_eq!(asset_cache_policy("text"), "no-cache");
}

#[test]
fn list_sizes_are_clamped() {
    assert_eq!(block_list_limit(None), 25);
    assert_eq!(block_list_limit(Some(0)), 1);
    assert_eq!(block_list_limit(Some(-5)), 1);
    assert_eq!(block_list_limit(Some(150)), 150);
    assert_eq!(block_list_limit(Some(1000)), 200);
    assert_eq!(address_paging(None, None), (1, 25));
    assert_eq!(address_paging(Some(0), Some(0)), (1, 1));
    assert_eq!(address_paging(Some(7), Some(500)), (7, 200));
}

#[test]
fn stats_totals() {
    assert_eq!(emission_totals(1_000, "400"), ("1000".to_string(), "600".to_string()));
    assert_eq!(emission_totals(1_000, "5000"), ("1000".to_string(), "0".to_string()));
    assert_eq!(emission_totals(1_000, "n/a"), ("1000".to_string(), "1000".to_string()));
}

#[test]
fn expansion_figures() {
    assert_eq!(state_capacity(24), 1 << 24);
    assert_eq!(state_capacity(0), 1);
    assert_eq!(expansion_threshold(1 << 24), 12_582_912);
    assert_eq!(expansion_window(34), None);
    assert_eq!(expansion_window(35), Some((0, 17)));
    assert_eq!(expansion_window(1000), Some((965, 982)));
    assert!(header_qualifies(12_582_912, 1 << 24));
    assert!(!header_qualifies(12_582_911, 1 << 24));
    assert!(header_qualifies(u64::MAX, u64::MAX));
}

#[test]
fn history_sampling() {
    let mut h = StateHistory { step: 0, points: vec![] };
    rescale_history(&mut h, 100_000);
    assert_eq!(h.step, 512);
    assert_eq!(next_sample_height(&h), 0);
    h.points = vec![(0, 1), (512, 2), (1024, 3), (1536, 4)];
    assert_eq!(next_sample_height(&h), 2048);
    rescale_history(&mut h, 512 * 2401);
    assert_eq!(h.step, 1024);
    assert_eq!(h.points, vec![(0, 1), (1024, 3)]);
    let pts = vec![(0, 1), (1024, 3)];
    assert_eq!(history_with_tip(&pts, 1024, 9), pts);
    assert_eq!(history_with_tip(&pts, 1500, 9), vec![(0, 1), (1024, 3), (1500, 9)]);
    assert_eq!(history_with_tip(&vec![], 5, 9), vec![(5, 9)]);
}

#[test]
fn bisection_finds_first_expanded_height() {
    // log_slots per height: 24 below 700, 25 from 700 on
    let ls = |h: u64| if h >= 700 { 25u32 } else { 24u32 };
    let (mut a, mut b) = (0u64, 1000u64);
    while a < b {
        let mid = search_midpoint(a, b);
        let (a2, b2) = search_narrow(a, b, mid, ls(mid), 25);
        assert!(b2 - a2 < b - a);
        a = a2;
        b = b2;
    }
    assert_eq!(a, 700);
    // a level never reached closes on the tip
    let (mut a, mut b) = (0u64, 1000u64);
    while a < b {
        let mid = search_midpoint(a, b);
        (a, b) = search_narrow(a, b, mid, ls(mid), 26);
    }
    assert_eq!(a, 1000);
}

#[test]
fn samples_follow_the_grid() {
    let mut h = StateHistory { step: 0, points: vec![] };
    rescale_history(&mut h, 2_000);
    add_sample(&mut h, 7);
    add_sample(&mut h, 9);
    add_sample(&mut h, 11);
    assert_eq!(h.points, vec![(0, 7), (512, 9), (1024, 11)]);
    assert_eq!(next_sample_height(&h), 1536);
    rescale_history(&mut h, 512 * 4801);
    assert_eq!(h.step, 1024);
    assert_eq!(h.points, vec![(0, 7), (1024, 11)]);
    add_sample(&mut h, 13);
    assert_eq!(h.points, vec![(0, 7), (1024, 11), (2048, 13)]);
    rescale_history(&mut h, 512 * 4802);
    assert_eq!(h.step, 2048);
    assert_eq!(h.points, vec![(0, 7), (2048, 13)]);
}

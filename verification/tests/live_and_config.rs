use parano1d_permanode::config::{
    default_config_file, default_db_path, default_poll_interval, default_prune_every_cycles, default_reorg_check_depth,
    default_retention_days, default_rpc_url, default_true, Config,
};
use parano1d_permanode::export::{csv_line, field, CsvValue, ExportReport};
use parano1d_permanode::live_rpc::{
    live_slot_totals, live_slots_by_value, live_value_fits, SlotInfo, TARGET_BLOCK_INTERVAL_SECONDS,
};

fn slot(idx: u64, value: u64, empty: bool) -> SlotInfo {
    SlotInfo { slot_index: idx, value, creation_id: idx * 10, owner: "o1x".to_string(), empty }
}

#[test]
fn live_slots_sum_and_sort() {
    let slots = vec![slot(1, 50, false), slot(2, 999, true), slot(3, 70, false), slot(4, 50, false), slot(5, 10, false)];
    assert_eq!(live_slot_totals(&slots), (180, 4));
    assert_eq!(live_slot_totals(&vec![]), (0, 0));
    let sorted = live_slots_by_value(slots);
    let order: Vec<(u64, u64)> = sorted.iter().map(|s| (s.slot_index, s.value)).collect();
    assert_eq!(order, vec![(3, 70), (1, 50), (4, 50), (5, 10)]);
    assert!(sorted.iter().all(|s| !s.empty));
    assert_eq!(TARGET_BLOCK_INTERVAL_SECONDS, 20);
}

#[test]
fn config_defaults() {
    let c = Config::default();
    assert_eq!(c.rpc_url, "http://127.0.0.1:9601");
    assert_eq!(c.db_path, "permanode.sqlite3");
    assert_eq!(c.poll_interval_seconds, 5);
    assert_eq!(c.reorg_check_depth, 30);
    assert_eq!(c.retention_days, 0);
    assert_eq!(c.prune_every_cycles, 720);
    assert!(c.getblock_fallback && c.decoder_selfcheck);
    assert_eq!(default_rpc_url(), c.rpc_url);
    assert_eq!(default_db_path(), c.db_path);
    assert_eq!(default_poll_interval(), 5);
    assert_eq!(default_reorg_check_depth(), 30);
    assert_eq!(default_retention_days(), 0);
    assert_eq!(default_prune_every_cycles(), 720);
    assert!(default_true());
}

#[test]
fn fresh_config_file_text() {
    assert_eq!(
        default_config_file(),
        "# parano1d-permanode indexer config\n# Missing keys fall back to these defaults.\n\n\
rpc_url = \"http://127.0.0.1:9601\"\ndb_path = \"permanode.sqlite3\"\npoll_interval_seconds = 5\n\
reorg_check_depth = 30\n# 0 = keep transaction detail forever\nretention_days = 0\n\
prune_every_cycles = 720\ngetblock_fallback = true\ndecoder_selfcheck = true\n"
    );
}

#[test]
fn csv_fields_are_quoted_only_where_needed() {
    assert_eq!(field("plain"), "plain");
    assert_eq!(field(""), "");
    assert_eq!(field("a,b"), "\"a,b\"");
    assert_eq!(field("say \"hi\""), "\"say \"\"hi\"\"\"");
    assert_eq!(field("two\nlines"), "\"two\\nlines\"");
    assert!(!field("a\nb").contains('\n'));
    assert_eq!(field("q\"\n"), "\"q\"\"\\n\"");
    assert_eq!(field("\""), "\"\"\"\"");
    assert_eq!(field("ünï,cödé"), "\"ünï,cödé\"");
}

#[test]
fn csv_rows() {
    let row = vec![
        CsvValue::Integer(-5),
        CsvValue::Null,
        CsvValue::Real("1.5".to_string()),
        CsvValue::Text("x,y".to_string()),
        CsvValue::Blob,
        CsvValue::Text("z".to_string()),
    ];
    assert_eq!(csv_line(&row), "-5,,1.5,\"x,y\",,z");
    assert_eq!(csv_line(&vec![]), "");
    assert_eq!(csv_line(&vec![CsvValue::Integer(42)]), "42");
    let r = ExportReport { blocks: 1, transactions: 2, inputs: 3, outputs: 4, addresses: 5 };
    assert_eq!(r.blocks + r.transactions + r.inputs + r.outputs + r.addresses, 15);
}

#[test]
fn live_balance_range() {
    assert!(live_value_fits(&vec![slot(1, u64::MAX, false), slot(2, 5, true)]));
    assert!(!live_value_fits(&vec![slot(1, u64::MAX, false), slot(2, 1, false)]));
    assert!(live_value_fits(&vec![]));
}

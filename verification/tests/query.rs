use can_via_pi::history::HistoryStore;
use can_via_pi::message::{normalize, RawFrame};
use can_via_pi::query::{
    answer_query, collect_filter_ids, parse_filter_id, parse_id_bytes, query, QueryResult,
};

fn store_with(ids: &[u32]) -> HistoryStore {
    let mut store = HistoryStore::new(100);
    for id in ids {
        store.append(
            normalize(RawFrame {
                id: *id,
                data: vec![],
                is_extended: false,
                is_error: false,
                is_rtr: false,
            })
            .unwrap(),
        );
    }
    store
}

fn pairs(list: &[(&str, &str)]) -> Vec<(String, String)> {
    list.iter().map(|(k, v)| (k.to_string(), v.to_string())).collect()
}

fn found(result: QueryResult) -> Vec<u32> {
    match result {
        QueryResult::Messages(list) => list.iter().map(|m| m.id()).collect(),
        QueryResult::NoMessages => panic!("the history was not empty"),
    }
}

#[test]
fn decimal_filter() {
    assert_eq!(parse_filter_id("631"), Some(631));
    assert_eq!(parse_filter_id("0"), Some(0));
    assert_eq!(parse_filter_id("007"), Some(7));
    assert_eq!(parse_filter_id("277"), Some(277));
}

#[test]
fn hexadecimal_filter() {
    assert_eq!(parse_filter_id("0x277"), Some(0x277));
    assert_eq!(parse_filter_id("0x0"), Some(0));
    assert_eq!(parse_filter_id("0xAbCdEf"), Some(0xABCDEF));
    assert_eq!(parse_filter_id("0x1fffffff"), Some(0x1FFF_FFFF));
    assert_eq!(parse_filter_id("0x10"), Some(16));
}

#[test]
fn filter_at_the_limit_of_32_bits() {
    assert_eq!(parse_filter_id("4294967295"), Some(u32::MAX));
    assert_eq!(parse_filter_id("4294967296"), None);
    assert_eq!(parse_filter_id("0xFFFFFFFF"), Some(u32::MAX));
    assert_eq!(parse_filter_id("0x100000000"), None);
    assert_eq!(parse_filter_id("0x00000000000000001"), Some(1));
    assert_eq!(parse_filter_id("99999999999999999999999999"), None);
}

#[test]
fn text_that_writes_no_identifier() {
    assert_eq!(parse_filter_id(""), None);
    assert_eq!(parse_filter_id("0x"), None);
    assert_eq!(parse_filter_id("x1"), None);
    assert_eq!(parse_filter_id("0X1F"), None);
    assert_eq!(parse_filter_id("1f"), None);
    assert_eq!(parse_filter_id("12 "), None);
    assert_eq!(parse_filter_id(" 12"), None);
    assert_eq!(parse_filter_id("-1"), None);
    assert_eq!(parse_filter_id("+1"), None);
    assert_eq!(parse_filter_id("0x0x1"), None);
    assert_eq!(parse_filter_id("0xg"), None);
    assert_eq!(parse_filter_id("١٢"), None);
}

#[test]
fn bytes_are_read_like_text() {
    assert_eq!(parse_id_bytes(b"0x7ff"), Some(0x7FF));
    assert_eq!(parse_id_bytes(b"2047"), Some(2047));
    assert_eq!(parse_id_bytes(&[0x31, 0xFF]), None);
}

#[test]
fn filters_are_collected_in_order() {
    let ids = collect_filter_ids(&pairs(&[
        ("filter_id", "0x277"),
        ("other", "5"),
        ("filter_id", "nonsense"),
        ("filter_id", "291"),
        ("Filter_id", "1"),
        ("filter_id", "0x277"),
    ]));
    assert_eq!(ids, vec![0x277, 291, 0x277]);
    assert!(collect_filter_ids(&pairs(&[])).is_empty());
}

#[test]
fn empty_history_is_told_apart_from_no_match() {
    let empty = HistoryStore::new(100);
    assert!(matches!(query(&empty, &[]), QueryResult::NoMessages));
    assert!(matches!(query(&empty, &[1]), QueryResult::NoMessages));
    let store = store_with(&[1]);
    match query(&store, &[2]) {
        QueryResult::Messages(list) => assert!(list.is_empty()),
        QueryResult::NoMessages => panic!("the history was not empty"),
    }
}

#[test]
fn query_by_parameters() {
    let store = store_with(&[0x277, 0x123, 0x277, 0x100]);
    assert_eq!(found(answer_query(&store, &pairs(&[]))), vec![0x277, 0x123, 0x277, 0x100]);
    assert_eq!(
        found(answer_query(&store, &pairs(&[("filter_id", "0x277")]))),
        vec![0x277, 0x277]
    );
    assert_eq!(
        found(answer_query(&store, &pairs(&[("filter_id", "256"), ("filter_id", "0x123")]))),
        vec![0x123, 0x100]
    );
    assert_eq!(
        found(answer_query(&store, &pairs(&[("filter_id", "oops")]))),
        vec![0x277, 0x123, 0x277, 0x100]
    );
    assert!(matches!(
        answer_query(&HistoryStore::new(1), &pairs(&[("filter_id", "1")])),
        QueryResult::NoMessages
    ));
}

use hlc_trie::keys::{key_to_timestamp, timestamp_to_key, to_base3};
use hlc_trie::timestamp::{make_client_id, Timestamp};
use hlc_trie::trie::Trie;

#[test]
fn test_key_to_timestamp() {
    let got = key_to_timestamp("0");
    assert_eq!(got, 0);

    let got = key_to_timestamp("1222022111000201");
    assert_eq!(got, 1699999980000);
}

#[test]
fn test_ts_to_key() {
    let key = "1222022111000201";
    let ts = Timestamp::new(1699999980000, 0, make_client_id());
    let got = timestamp_to_key(ts);
    assert_eq!(got, key);

    let key = "2222222222222222";
    let ts = Timestamp::new(2582803200000, 0, make_client_id());
    let got = timestamp_to_key(ts);
    assert_eq!(got, key);
}

#[test]
fn test_find_convergence() {
    let minute = 1000 * 60;
    let make_ts = |m: i64| Timestamp::new(m * minute, 0, make_client_id());
    let ts1 = make_ts(1);
    let ts2 = make_ts(2);
    let ts3 = make_ts(3);
    let ts4 = make_ts(4);
    let ts5 = make_ts(5);

    let trie1 = Trie::build(vec![ts4.clone(), ts3.clone(), ts1.clone()]);
    let trie2 = Trie::build(vec![ts5, ts4, ts2.clone(), ts1]);

    let got = trie1.diff(&trie2);
    let want = Some(2 * minute);
    assert_eq!(got, want);
}

#[test]
fn test_to_base3_values() {
    assert_eq!(to_base3(0), "0");
    assert_eq!(to_base3(1), "1");
    assert_eq!(to_base3(2), "2");
    assert_eq!(to_base3(3), "10");
    assert_eq!(to_base3(9), "100");
    assert_eq!(to_base3(26), "222");
    assert_eq!(to_base3(28333333), "1222022111000201");
}

#[test]
fn test_key_padding() {
    let ts = Timestamp::new(0, 0, make_client_id());
    assert_eq!(timestamp_to_key(ts), "0000000000000000");

    let ts = Timestamp::new(60000, 0, make_client_id());
    assert_eq!(timestamp_to_key(ts), "0000000000000001");

    // A short prefix names the earliest minute it encompasses.
    assert_eq!(key_to_timestamp("1"), 14348907 * 60000);
    assert_eq!(key_to_timestamp(""), 0);
}

#[test]
fn test_diff_same_none() {
    let minute = 1000 * 60;
    let ts1 = Timestamp::new(10 * minute, 0, make_client_id());
    let ts2 = Timestamp::new(20 * minute, 0, make_client_id());

    let trie1 = Trie::build(vec![ts1.clone(), ts2.clone()]);
    let trie2 = Trie::build(vec![ts1, ts2]);

    assert_eq!(trie1.diff(&trie1), None);
    assert_eq!(trie1.diff(&trie2), None);
}

#[test]
fn test_build_order_independent() {
    let minute = 1000 * 60;
    let ts1 = Timestamp::new(minute, 3, make_client_id());
    let ts2 = Timestamp::new(7 * minute, 0, make_client_id());
    let ts3 = Timestamp::new(28333333 * minute, 9, make_client_id());

    let a = Trie::build(vec![ts1.clone(), ts2.clone(), ts3.clone()]);
    let b = Trie::build(vec![ts3, ts1, ts2]);

    assert_eq!(a.hash, b.hash);
    assert_eq!(a.diff(&b), None);
}

#[test]
fn test_insert_prune_noop() {
    let minute = 1000 * 60;
    let ts1 = Timestamp::new(minute, 0, make_client_id());
    let ts2 = Timestamp::new(5 * minute, 2, make_client_id());

    let before = Trie::build(vec![ts1.clone()]);
    let mut after = Trie::build(vec![ts1]);
    after.insert(ts2.clone());
    after.prune(ts2);

    assert_eq!(before.hash, after.hash);
    assert_eq!(before.diff(&after), None);
}

#[test]
fn test_prune_absent_noop() {
    let ts = Timestamp::new(60000, 0, make_client_id());
    let mut trie = Trie::new();
    trie.prune(ts);

    assert_eq!(trie.hash, 0);
    assert!(trie.get_keys().is_empty());
}

#[test]
fn test_insert_xor_hash() {
    let ts = Timestamp::new(1699999980000, 1, "1234123412341234".to_string());
    let h = ts.hash();

    let mut trie = Trie::new();
    trie.insert(ts.clone());
    assert_eq!(trie.hash, h);

    // The same contribution twice cancels out at every node.
    trie.insert(ts);
    assert_eq!(trie.hash, 0);
}

#[test]
fn test_get_keys() {
    let mut trie = Trie::new();
    assert!(trie.get_keys().is_empty());

    trie.insert(Timestamp::new(0, 0, make_client_id()));
    assert_eq!(trie.get_keys(), vec!["0".to_string()]);

    trie.insert(Timestamp::new(2582803200000, 0, make_client_id()));
    assert_eq!(trie.get_keys(), vec!["0".to_string(), "2".to_string()]);
}

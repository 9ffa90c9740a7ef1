use hlc_trie::timestamp::{make_client_id, Epoch, Timestamp, TimestampError, MAX_DRIFT};

#[test]
fn test_to_string() {
    let ts = Timestamp::new(1, 0x1234, "1234123412341234".to_string());
    assert_eq!(
        ts.to_canonical(),
        "1970-01-01T00:00:00.001Z-1234-1234123412341234"
    );

    let ts = Timestamp::new(1711231855000, 65535 - 1, "1234123412341234".to_string());
    assert_eq!(
        ts.to_canonical(),
        "2024-03-23T22:10:55.000Z-FFFE-1234123412341234"
    );
}

#[test]
fn test_send_overflow() {
    let mut ts = Timestamp::new(1, 0xFFFF, "1234123412341234".to_string());

    let got = ts.send(1).err().unwrap();
    let want = TimestampError::OverflowError;

    assert_eq!(got, want);
}

#[test]
fn test_send_drift() {
    let mut ts = Timestamp::new(MAX_DRIFT + 1, 0x0, "1234123412341234".to_string());

    let got = ts.send(0).err().unwrap();
    let want = TimestampError::ClockDriftError(MAX_DRIFT + 1, 0, MAX_DRIFT);

    assert_eq!(got, want);
}

#[test]
fn test_send_ok_counter() {
    let mut ts = Timestamp::new(1, 0x0, "1234123412341234".to_string());

    let got = ts.send(1).unwrap();
    let want = Timestamp::new(1, 0x1, "1234123412341234".to_string());

    assert_eq!(got, want);
}

#[test]
fn test_send_ok_phys() {
    let mut ts = Timestamp::new(1, 0x0, "1234123412341234".to_string());

    let got = ts.send(2).unwrap();
    let want = Timestamp::new(2, 0x0, "1234123412341234".to_string());

    assert_eq!(got, want);
}

#[test]
fn test_recv_duplicate_node() {
    let node = "1234123412341234".to_string();
    let mut ts = Timestamp::new(1, 0x0, node.clone());
    let msg = Timestamp::new(1, 0x0, node.clone());

    let got = ts.recv(&msg, 1).err().unwrap();
    let want = TimestampError::DuplicateNodeError(node);

    assert_eq!(got, want);
}

#[test]
fn test_recv_drift() {
    let mut ts = Timestamp::new(1, 0x0, make_client_id());
    let msg = Timestamp::new(MAX_DRIFT + 1, 0x0, make_client_id());

    let got = ts.recv(&msg, 0).err().unwrap();
    let want = TimestampError::ClockDriftError(MAX_DRIFT + 1, 0, MAX_DRIFT);

    assert_eq!(got, want);
}

#[test]
fn test_recv_max_overflow() {
    //unimplemented!();
}

#[test]
fn test_recv_counter_overflow() {
    let mut ts = Timestamp::new(1, 0xFFFF, make_client_id());
    let msg = Timestamp::new(1, 0xFFFF, make_client_id());

    let got = ts.recv(&msg, 1).err().unwrap();
    assert_eq!(got, TimestampError::OverflowError);
    assert_eq!(ts.counter(), 0xFFFF);
}

#[test]
fn test_recv_equal_times_counter() {
    let node = make_client_id();
    let mut ts = Timestamp::new(1, 5, node.clone());
    let msg = Timestamp::new(1, 7, make_client_id());

    let got = ts.recv(&msg, 1).unwrap();
    let want = Timestamp::new(1, 8, node);

    assert_eq!(got, want);
}

#[test]
fn test_send_drift_boundary() {
    let mut ts = Timestamp::new(MAX_DRIFT, 0x0, "1234123412341234".to_string());

    let got = ts.send(0).unwrap();
    let want = Timestamp::new(MAX_DRIFT, 0x1, "1234123412341234".to_string());

    assert_eq!(got, want);
}

#[test]
fn test_send_canonical_monotonic() {
    let mut ts = Timestamp::new(0, 0, make_client_id());

    let a = ts.send(5).unwrap();
    let b = ts.send(5).unwrap();
    let c = ts.send(7).unwrap();

    assert!(a.to_canonical() < b.to_canonical());
    assert!(b.to_canonical() < c.to_canonical());
}

#[test]
fn test_parse_none() {
    let parsed = Timestamp::parse("1970-01-01T00:00:00.001Z-1234-1234123412341234");
    assert!(parsed.is_none());
}

#[test]
fn test_make_client_id_shape() {
    let a = make_client_id();
    let b = make_client_id();

    assert_eq!(a.chars().count(), 16);
    assert_eq!(b.chars().count(), 16);
    assert_ne!(a, b);
}

#[test]
fn test_hash_deterministic() {
    let t1 = Timestamp::new(1711231855000, 4, "1234123412341234".to_string());
    let t2 = Timestamp::new(1711231855000, 4, "1234123412341234".to_string());
    let t3 = Timestamp::new(1711231855000, 5, "1234123412341234".to_string());

    assert_eq!(t1.hash(), t2.hash());
    assert_ne!(t1.hash(), t3.hash());
}

#[test]
fn test_ts_minutes() {
    let ts = Timestamp::new(1699999980000, 0, "1234123412341234".to_string());
    assert_eq!(ts.ts_minutes(), 28333333);
    assert_eq!(ts.millis(), 1699999980000);
    assert_eq!(ts.node(), "1234123412341234");
}

#[test]
fn test_epoch_value() {
    let e = Epoch(1699999980000);
    assert_eq!(e.0, 1699999980000);
}

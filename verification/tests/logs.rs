use boenmind::log_buffer::{LogBuffer, LogEntry};

fn entry(ts: i64, level: &str, target: &str, message: String) -> LogEntry {
    LogEntry { ts_ms: ts, level: level.into(), target: target.into(), message }
}

#[test]
fn ring_buffer_caps_and_evicts() {
    let mut buf = LogBuffer::new(3);
    for i in 0..5 {
        buf.push(entry(i, "INFO", "test", format!("msg {i}")));
    }
    let entries = buf.query(None, None, 10, 0);
    let msgs: Vec<_> = entries.iter().map(|e| e.message.clone()).collect();
    assert_eq!(msgs, vec!["msg 4", "msg 3", "msg 2"]);
}

#[test]
fn query_filters_level_and_keyword() {
    let mut buf = LogBuffer::new(10);
    for (i, lvl) in ["INFO", "WARN", "ERROR", "DEBUG"].iter().enumerate() {
        buf.push(entry(i as i64, lvl, "t.module", format!("hello {lvl}")));
    }
    let entries = buf.query(Some("warn"), None, 10, 0);
    let levels: Vec<_> = entries.iter().map(|e| e.level.clone()).collect();
    assert_eq!(levels, vec!["ERROR", "WARN"]);
    let entries = buf.query(Some("debug"), Some("hello"), 10, 0);
    assert_eq!(entries.len(), 4);
    let entries = buf.query(Some("error"), Some("warn"), 10, 0);
    assert!(entries.is_empty());
    let entries = buf.query(None, Some("HELLO"), 10, 0);
    assert_eq!(entries.len(), 4);
}

#[test]
fn offset_and_limit() {
    let mut buf = LogBuffer::new(10);
    for i in 0..5 {
        buf.push(entry(i, "INFO", "t", format!("m{i}")));
    }
    let page1 = buf.query(None, None, 2, 0);
    let page2 = buf.query(None, None, 2, 2);
    assert_eq!(page1.len(), 2);
    assert_eq!(page2.len(), 2);
    assert_ne!(page1[0].ts_ms, page2[0].ts_ms);
}

#[test]
fn zero_capacity_keeps_one() {
    let mut buf = LogBuffer::new(0);
    buf.push(entry(1, "INFO", "t", "a".into()));
    buf.push(entry(2, "INFO", "t", "b".into()));
    let all = buf.query(None, None, 10, 0);
    assert_eq!(all.len(), 1);
    assert_eq!(all[0].message, "b");
}

#[test]
fn unknown_level_ranks_lowest_and_target_matches() {
    let mut buf = LogBuffer::new(5);
    buf.push(entry(1, "NOTICE", "db.pool", "x".into()));
    assert_eq!(buf.query(Some("trace"), None, 10, 0).len(), 1);
    assert_eq!(buf.query(Some("info"), None, 10, 0).len(), 0);
    assert_eq!(buf.query(Some("bogus"), Some("DB.P"), 10, 0).len(), 1);
    assert_eq!(buf.query(None, None, 10, 5).len(), 0);
}

#[test]
fn pages_are_windows_of_the_whole_answer() {
    let mut buf = LogBuffer::new(8);
    for (i, lvl) in ["INFO", "WARN", "DEBUG", "ERROR", "WARN", "INFO"].iter().enumerate() {
        buf.push(entry(i as i64, lvl, "t", format!("m{i}")));
    }
    let all = buf.query(Some("info"), None, usize::MAX, 0);
    for offset in 0..7 {
        for limit in 0..7 {
            let page = buf.query(Some("info"), None, limit, offset);
            let want: Vec<_> = all.iter().skip(offset).take(limit).map(|e| e.message.clone()).collect();
            let got: Vec<_> = page.iter().map(|e| e.message.clone()).collect();
            assert_eq!(got, want);
        }
    }
}

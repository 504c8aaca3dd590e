use diag_log::store::LogLevel;
use diag_log::store::LogStore;
use diag_log::store::get_current_time;
use diag_log::store::level_prefix_bytes;

#[test]
fn snapshot_empty_after_no_writes() {
    let store = LogStore::new(1024);
    assert_eq!(store.get_log_buffer(), &b""[..]);
    assert_eq!(store.get_log_buffer().len(), 0);
}

#[test]
fn plain_appends_concatenate_without_separators() {
    let mut store = LogStore::new(1024);
    store.append(b"ab");
    store.append(b"cd");
    assert_eq!(store.get_log_buffer(), &b"abcd"[..]);
}

#[test]
fn info_entry_exact_bytes() {
    let mut store = LogStore::new(1024);
    store.log_message(LogLevel::Info, "boot");
    assert_eq!(store.get_log_buffer(), &b"[INFO] boot\n"[..]);
}

#[test]
fn warn_entry_exact_bytes() {
    let mut store = LogStore::new(1024);
    store.log_message(LogLevel::Warn, "low mem");
    assert_eq!(store.get_log_buffer(), &b"[WARN] low mem\n"[..]);
}

#[test]
fn error_entry_exact_bytes() {
    let mut store = LogStore::new(1024);
    store.log_message(LogLevel::Error, "fault");
    assert_eq!(store.get_log_buffer(), &b"[ERROR] fault\n"[..]);
}

#[test]
fn entries_recorded_in_call_order() {
    let mut store = LogStore::new(1024);
    store.append(b"x");
    store.log_message(LogLevel::Info, "a");
    store.log_message(LogLevel::Warn, "b");
    assert_eq!(store.get_log_buffer(), &b"x[INFO] a\n[WARN] b\n"[..]);
}

#[test]
fn timestamp_written_before_prefix() {
    let mut store = LogStore::new(1024);
    store.log_message_with_timestamp(LogLevel::Error, "oops");
    assert_eq!(
        store.get_log_buffer(),
        &b"????-???-??? ??:??[ERROR] oops\n"[..]
    );
}

#[test]
fn plain_overflow_fills_exactly_remaining_bytes() {
    let mut store = LogStore::new(4);
    store.append(b"abcdef");
    assert_eq!(store.get_log_buffer(), &b"abcd"[..]);
    assert_eq!(store.get_log_buffer().len(), 4);
}

#[test]
fn plain_append_when_full_is_noop() {
    let mut store = LogStore::new(4);
    store.append(b"abcd");
    store.append(b"more");
    assert_eq!(store.get_log_buffer(), &b"abcd"[..]);
    store.append(b"");
    assert_eq!(store.get_log_buffer(), &b"abcd"[..]);
}

#[test]
fn leveled_overflow_clamps_to_capacity_minus_one() {
    let mut store = LogStore::new(4);
    store.log_message(LogLevel::Info, "hello");
    assert_eq!(store.get_log_buffer(), &b"[IN"[..]);
    assert_eq!(store.get_log_buffer().len(), 3);
}

#[test]
fn leveled_append_when_full_drops_final_byte() {
    let mut store = LogStore::new(4);
    store.append(b"abcd");
    store.log_message(LogLevel::Warn, "x");
    assert_eq!(store.get_log_buffer(), &b"abc"[..]);
}

#[test]
fn cursor_never_exceeds_capacity() {
    let mut store = LogStore::new(8);
    for _ in 0..10 {
        store.append(b"abc");
        assert!(store.get_log_buffer().len() <= 8);
        store.log_message(LogLevel::Info, "msg");
        assert!(store.get_log_buffer().len() <= 8);
        store.log_message_with_timestamp(LogLevel::Error, "msg");
        assert!(store.get_log_buffer().len() <= 8);
    }
}

#[test]
fn exact_fit_leveled_entry_recorded_whole() {
    // "[INFO] hi\n" is 10 bytes; a capacity of 11 leaves the region short of
    // full, so the defensive cursor normalization does not fire.
    let mut store = LogStore::new(11);
    store.log_message(LogLevel::Info, "hi");
    assert_eq!(store.get_log_buffer(), &b"[INFO] hi\n"[..]);
}

#[test]
fn exact_fill_leveled_entry_loses_one_byte() {
    // "[INFO] hi\n" is 10 bytes; with a capacity of exactly 10 the write
    // leaves the region full and the normalization pulls the cursor back.
    let mut store = LogStore::new(10);
    store.log_message(LogLevel::Info, "hi");
    assert_eq!(store.get_log_buffer(), &b"[INFO] hi"[..]);
}

#[test]
fn empty_message_still_framed() {
    let mut store = LogStore::new(1024);
    store.log_message(LogLevel::Info, "");
    assert_eq!(store.get_log_buffer(), &b"[INFO] \n"[..]);
}

#[test]
fn time_source_returns_placeholder() {
    assert_eq!(get_current_time(), "????-???-??? ??:??");
}

#[test]
fn level_prefixes_exact() {
    assert_eq!(level_prefix_bytes(&LogLevel::Info), &b"[INFO] "[..]);
    assert_eq!(level_prefix_bytes(&LogLevel::Warn), &b"[WARN] "[..]);
    assert_eq!(level_prefix_bytes(&LogLevel::Error), &b"[ERROR] "[..]);
}

#[test]
fn smallest_capacity_store_works() {
    let mut store = LogStore::new(1);
    store.append(b"a");
    assert_eq!(store.get_log_buffer(), &b"a"[..]);
    store.log_message(LogLevel::Info, "x");
    assert_eq!(store.get_log_buffer(), &b""[..]);
}

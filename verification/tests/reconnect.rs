use blrec::reconnect::{
    backoff, http_headers, still_live, too_many_reconnects, MAX_RECONNECTS, REFERER, USER_AGENT,
};

#[test]
fn pauses_double_up_to_half_a_minute() {
    let pauses: Vec<u64> = (1..=8).map(backoff).collect();
    assert_eq!(pauses, vec![1, 2, 4, 8, 16, 30, 30, 30]);
    assert_eq!(backoff(0), 1);
    assert_eq!(backoff(MAX_RECONNECTS), 30);
    assert_eq!(backoff(u32::MAX), 30);
}

#[test]
fn live_and_looping_streams_go_on() {
    assert!(still_live(Some(1)));
    assert!(still_live(Some(2)));
    assert!(!still_live(Some(0)));
    assert!(!still_live(Some(3)));
    assert!(!still_live(Some(-1)));
    assert!(!still_live(None));
}

#[test]
fn headers() {
    assert_eq!(REFERER, "https://www.bilibili.com/");
    assert_eq!(
        http_headers(),
        format!("Referer: {REFERER}\r\nUser-Agent: {USER_AGENT}\r\n")
    );
}

#[test]
fn giving_up() {
    assert_eq!(MAX_RECONNECTS, 20);
    assert_eq!(too_many_reconnects(), "Too many reconnects (20)");
}

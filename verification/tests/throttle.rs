//! The bandwidth limiter and the display rate window.

use dl::limiter::{BandwidthLimiter, RateWindow, WINDOW_MS};

#[test]
fn unlimited_never_waits() {
    let mut l = BandwidthLimiter::new(0, 0);
    assert_eq!(l.record(10, 5_000_000), 0);
    assert_eq!(l.record(20, 5_000_000), 0);
    assert_eq!(l.bytes_in_window, 10_000_000, "the counter still runs");
}

#[test]
fn under_the_limit_no_wait() {
    let mut l = BandwidthLimiter::new(100, 0);
    assert_eq!(l.record(10, 40), 0);
    assert_eq!(l.record(20, 40), 0);
    assert_eq!(l.bytes_in_window, 80);
    assert_eq!(l.window_start_ms, 0);
}

#[test]
fn reaching_the_limit_waits_to_window_end() {
    let mut l = BandwidthLimiter::new(100, 0);
    assert_eq!(l.record(300, 40), 0);
    assert_eq!(l.record(600, 40), 0);
    let wait = l.record(700, 40);
    assert_eq!(wait, 300, "sleep until the window that began at 0 elapses");
    assert_eq!(l.bytes_in_window, 0, "the counter starts afresh");
    assert_eq!(l.window_start_ms, 1000, "the next window starts where the wait ends");
}

#[test]
fn limit_hit_after_window_elapsed_resets_without_wait() {
    let mut l = BandwidthLimiter::new(100, 0);
    let wait = l.record(1500, 120);
    assert_eq!(wait, 0);
    assert_eq!(l.bytes_in_window, 0);
    assert_eq!(l.window_start_ms, 1500);
}

#[test]
fn two_windows_stay_under_twice_the_cap() {
    // With limit L = 100 and chunks of at most 40 bytes, each window
    // carries at most L - 1 + 40 bytes; over two consecutive windows the
    // total stays under 2 L + 2 * 40.
    let limit: usize = 100;
    let chunk: usize = 40;
    let mut total: usize = 0;
    let mut now: u64 = 0;
    for _window in 0..2 {
        let mut l = BandwidthLimiter::new(limit, now);
        loop {
            now += 100;
            let wait = l.record(now, chunk);
            total += chunk;
            if wait > 0 {
                now += wait;
                break;
            }
        }
    }
    assert_eq!(total, 240, "three 40-byte chunks trip a 100-byte limit in each window");
    assert!(total as u64 <= 2 * (limit as u64) + 2 * (chunk as u64) - 2);
}

#[test]
fn live_limit_update() {
    let mut l = BandwidthLimiter::new(0, 0);
    assert_eq!(l.record(1, 500), 0);
    l.set_limit(100);
    let wait = l.record(2, 1);
    assert_eq!(wait, WINDOW_MS - 2, "the new limit applies to the very next chunk");
}

#[test]
fn rate_window_publishes_each_second() {
    let mut w = RateWindow::new(0);
    assert_eq!(w.record(100, 300), None);
    assert_eq!(w.record(500, 300), None);
    assert_eq!(w.record(1000, 400), Some(1000), "a full window publishes its byte count");
    assert_eq!(w.bytes, 0);
    assert_eq!(w.window_start_ms, 1000);
    assert_eq!(w.record(1100, 50), None);
}

#[test]
fn chunk_event_steps_everything_at_once() {
    let mut f = dl::file2dl::File2Dl::default();
    f.url = dl::url::Url {
        link: "http://files.example.org/big.bin".to_string(),
        filename: Some("big.bin".to_string()),
        total_size: 1000,
        range_support: true,
    };
    f.name_on_disk = "big.bin".to_string();
    f.bandwidth = 100;
    f.status = true;
    let mut l = BandwidthLimiter::new(f.bandwidth, 0);
    let mut w = RateWindow::new(0);
    let first = f.on_chunk_event(&mut l, &mut w, 200, 60);
    assert_eq!(first.offset, 0);
    assert_eq!(first.wait_ms, 0);
    assert_eq!(f.size_on_disk, 60);
    let second = f.on_chunk_event(&mut l, &mut w, 400, 60);
    assert_eq!(second.offset, 60);
    assert_eq!(second.wait_ms, 600, "120 of 100 bytes used: sleep out the window");
    assert_eq!(f.size_on_disk, 120);
    let (sc_name, sc_text) = second.sidecar.expect("range support persists a checkpoint");
    assert_eq!(sc_name, ".big.bin.metadata");
    assert!(sc_text.contains("\"total_size\":1000"));
    assert!(sc_text.contains("\"state\":\"Incomplete\""));
    assert!(sc_text.contains("\"bandwidth\":100"));
}

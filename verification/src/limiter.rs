//! Throughput shaping: the bandwidth limiter and the display rate window.
//!
//! Both work over an accounting window of about one second. The limiter is
//! consulted once per chunk, after the chunk is written: it adds the
//! chunk's length to a running counter and, when a non-zero limit has been
//! reached inside the current window, tells the caller how long to sleep
//! before reading on; the counter and window then start afresh. The check
//! happens after the write, so a window can overshoot the limit by at most
//! one chunk; `lemma_bandwidth_two_windows` states the resulting cap.

use vstd::prelude::*;

verus! {

/// The accounting window, in milliseconds.
pub const WINDOW_MS: u64 = 1000;

/// One chunk arrival, as the limiter laws speak of it.
pub struct ChunkEvent {
    pub len: usize,
}

/// The bandwidth limiter's state: the configured limit (bytes per window,
/// 0 meaning unlimited), the start of the current window, and the bytes
/// counted in it so far.
pub struct BandwidthLimiter {
    pub limit: usize,
    pub window_start_ms: u64,
    pub bytes_in_window: usize,
}

/// What one consultation of the limiter does: count the chunk; when a
/// non-zero limit is reached, demand a wait to the end of the window and
/// start a fresh window at the moment the wait ends.
pub open spec fn spec_limiter_step(l: BandwidthLimiter, now_ms: u64, len: usize) -> (
    BandwidthLimiter,
    u64,
) {
    let counted = l.bytes_in_window + len;
    if l.limit != 0 && counted >= l.limit {
        let wait = if now_ms < l.window_start_ms + WINDOW_MS {
            (l.window_start_ms + WINDOW_MS - now_ms) as u64
        } else {
            0u64
        };
        (
            BandwidthLimiter {
                limit: l.limit,
                window_start_ms: (now_ms + wait) as u64,
                bytes_in_window: 0,
            },
            wait,
        )
    } else {
        (
            BandwidthLimiter {
                limit: l.limit,
                window_start_ms: l.window_start_ms,
                bytes_in_window: counted as usize,
            },
            0u64,
        )
    }
}

impl BandwidthLimiter {
    /// A limiter for a fresh window starting now.
    pub fn new(limit: usize, now_ms: u64) -> (r: BandwidthLimiter)
        ensures
            r.limit == limit,
            r.window_start_ms == now_ms,
            r.bytes_in_window == 0,
    {
        BandwidthLimiter { limit, window_start_ms: now_ms, bytes_in_window: 0 }
    }

    /// Counts a chunk that was just written and returns how many
    /// milliseconds the transfer must pause before reading on (0 when it
    /// need not).
    pub fn record(&mut self, now_ms: u64, len: usize) -> (wait_ms: u64)
        requires
            old(self).bytes_in_window + len <= usize::MAX,
            old(self).window_start_ms <= now_ms,
            now_ms + WINDOW_MS <= u64::MAX,
        ensures
            (*final (self), wait_ms) == spec_limiter_step(*old(self), now_ms, len),
            wait_ms <= WINDOW_MS,
    {
        let counted = self.bytes_in_window + len;
        if self.limit != 0 && counted >= self.limit {
            let window_end = self.window_start_ms + WINDOW_MS;
            let wait = if now_ms < window_end {
                window_end - now_ms
            } else {
                0
            };
            self.bytes_in_window = 0;
            self.window_start_ms = now_ms + wait;
            wait
        } else {
            self.bytes_in_window = counted;
            0
        }
    }

    /// Updates the configured limit; takes effect at the next chunk.
    pub fn set_limit(&mut self, limit: usize)
        ensures
            final (self).limit == limit,
            final (self).window_start_ms == old(self).window_start_ms,
            final (self).bytes_in_window == old(self).bytes_in_window,
    {
        self.limit = limit;
    }
}

/// The total length of a run of chunks.
pub open spec fn sum_lens(evs: Seq<ChunkEvent>) -> int
    decreases evs.len(),
{
    if evs.len() == 0 {
        0
    } else {
        evs[0].len + sum_lens(evs.drop_first())
    }
}

/// A run of chunks that all landed inside one window. Hitting the limit
/// ends the window — the loop then sleeps to the window's end (or, when
/// the window had already elapsed, a new one begins) — so within a single
/// window every consultation but possibly the last stayed under the limit.
pub open spec fn spec_window_trace_ok(l: BandwidthLimiter, evs: Seq<ChunkEvent>) -> bool
    decreases evs.len(),
{
    if evs.len() == 0 {
        true
    } else {
        let capped = l.limit != 0 && l.bytes_in_window + evs[0].len >= l.limit;
        let l1 = BandwidthLimiter {
            limit: l.limit,
            window_start_ms: l.window_start_ms,
            bytes_in_window: (l.bytes_in_window + evs[0].len) as usize,
        };
        evs.len() == 1 || (!capped && spec_window_trace_ok(l1, evs.drop_first()))
    }
}

proof fn lemma_window_cap_rec(l: BandwidthLimiter, evs: Seq<ChunkEvent>, cap: usize)
    requires
        l.limit > 0,
        l.bytes_in_window < l.limit,
        spec_window_trace_ok(l, evs),
        forall|i: int| 0 <= i < evs.len() ==> (#[trigger] evs[i].len) <= cap,
        l.bytes_in_window + sum_lens(evs) <= usize::MAX,
    ensures
        sum_lens(evs) <= l.limit - 1 - l.bytes_in_window + cap,
    decreases evs.len(),
{
    if evs.len() == 0 {
    } else {
        let len0 = evs[0].len;
        let counted = l.bytes_in_window + len0;
        let rest = evs.drop_first();
        assert(sum_lens(rest) >= 0) by {
            lemma_sum_lens_nonneg(rest);
        }
        if evs.len() == 1 {
            assert(sum_lens(rest) == 0);
        } else {
            assert(counted < l.limit);
            let l1 = BandwidthLimiter {
                limit: l.limit,
                window_start_ms: l.window_start_ms,
                bytes_in_window: counted as usize,
            };
            assert(forall|i: int| 0 <= i < rest.len() ==> (#[trigger] rest[i].len) <= cap);
            lemma_window_cap_rec(l1, rest, cap);
        }
    }
}

/// The sum of chunk lengths is never negative.
proof fn lemma_sum_lens_nonneg(evs: Seq<ChunkEvent>)
    ensures
        sum_lens(evs) >= 0,
    decreases evs.len(),
{
    if evs.len() > 0 {
        lemma_sum_lens_nonneg(evs.drop_first());
    }
}

/// BANDWIDTH CAP. Within one accounting window that starts fresh, the
/// bytes written stay under the configured limit plus one chunk: the
/// limiter is consulted after each write, so the only overshoot is the
/// chunk that crossed the line.
pub proof fn lemma_bandwidth_window_cap(l: BandwidthLimiter, evs: Seq<ChunkEvent>, cap: usize)
    requires
        l.limit > 0,
        l.bytes_in_window == 0,
        spec_window_trace_ok(l, evs),
        forall|i: int| 0 <= i < evs.len() ==> (#[trigger] evs[i].len) <= cap,
        sum_lens(evs) <= usize::MAX,
    ensures
        sum_lens(evs) <= l.limit - 1 + cap,
{
    lemma_window_cap_rec(l, evs, cap);
}

/// BANDWIDTH CAP OVER TWO WINDOWS. With a limit of `L` bytes per window,
/// any two consecutive windows (each starting with a fresh counter) carry
/// at most `2 L` bytes plus two chunks' tolerance: the post-write check
/// design admits at most one chunk of overshoot per window.
pub proof fn lemma_bandwidth_two_windows(
    l1: BandwidthLimiter,
    evs1: Seq<ChunkEvent>,
    l2: BandwidthLimiter,
    evs2: Seq<ChunkEvent>,
    cap: usize,
)
    requires
        l1.limit > 0,
        l2.limit == l1.limit,
        l1.bytes_in_window == 0,
        l2.bytes_in_window == 0,
        spec_window_trace_ok(l1, evs1),
        spec_window_trace_ok(l2, evs2),
        forall|i: int| 0 <= i < evs1.len() ==> (#[trigger] evs1[i].len) <= cap,
        forall|i: int| 0 <= i < evs2.len() ==> (#[trigger] evs2[i].len) <= cap,
        sum_lens(evs1) <= usize::MAX,
        sum_lens(evs2) <= usize::MAX,
    ensures
        sum_lens(evs1) + sum_lens(evs2) <= 2 * (l1.limit as int) + 2 * (cap as int) - 2,
{
    lemma_bandwidth_window_cap(l1, evs1, cap);
    lemma_bandwidth_window_cap(l2, evs2, cap);
}

/// The rolling counter behind the displayed transfer rate: bytes seen in
/// the current window; when the window has elapsed, the count is published
/// as the rate and a new window begins.
pub struct RateWindow {
    pub window_start_ms: u64,
    pub bytes: usize,
}

impl RateWindow {
    /// A window starting now with nothing counted.
    pub fn new(now_ms: u64) -> (r: RateWindow)
        ensures
            r.window_start_ms == now_ms,
            r.bytes == 0,
    {
        RateWindow { window_start_ms: now_ms, bytes: 0 }
    }

    /// Counts a chunk; when the window has elapsed, returns the byte count
    /// to publish as the smoothed rate and starts a new window.
    pub fn record(&mut self, now_ms: u64, len: usize) -> (published: Option<usize>)
        requires
            old(self).bytes + len <= usize::MAX,
            old(self).window_start_ms + WINDOW_MS <= u64::MAX,
        ensures
            if now_ms >= old(self).window_start_ms + WINDOW_MS {
                &&& published == Some((old(self).bytes + len) as usize)
                &&& final (self).bytes == 0
                &&& final (self).window_start_ms == now_ms
            } else {
                &&& published is None
                &&& final (self).bytes == old(self).bytes + len
                &&& final (self).window_start_ms == old(self).window_start_ms
            },
    {
        let counted = self.bytes + len;
        if now_ms >= self.window_start_ms + WINDOW_MS {
            self.bytes = 0;
            self.window_start_ms = now_ms;
            Some(counted)
        } else {
            self.bytes = counted;
            None
        }
    }
}

} // verus!

//! The session: one managed download and its live state.
//!
//! A `File2Dl` aggregates what one transfer needs: the probe result, the
//! byte count already on disk (the single source of truth for progress and
//! for the resume offset), the pause/resume signal, the bandwidth limit,
//! the completion flag, the displayed rate, and the start-once gate. The
//! transfer loop around it — network reads, file writes, sleeps — runs
//! outside the library and drives the session exclusively through the
//! verified step functions here, which say exactly how each event moves
//! the state.

use vstd::prelude::*;

use crate::url::Url;
use crate::utils::DirEntry;

verus! {

/// How a session's transfer is scheduled: one worker streaming the whole
/// body, or several workers on disjoint ranges.
#[derive(Debug, PartialEq, Eq, Clone, Default, Structural)]
pub enum Threading {
    #[default]
    Single,
    Multi,
}

/// The transfer loop's states.
#[derive(Debug, Clone, Copy, PartialEq, Eq, Structural)]
pub enum LoopState {
    /// The status signal is off; the loop blocks until it turns on.
    AwaitingResume,
    /// A response body is being consumed.
    Fetching,
    /// A chunk is being flushed to disk at the current offset.
    Writing,
    /// The bandwidth limiter imposed a wait.
    Throttled,
    /// The transfer is finished; terminal.
    Complete,
    /// A failure was reported; the session stays paused and resumable.
    Failed,
}

/// What one chunk step hands back to the driver: where the chunk belongs
/// on disk, how long to pause before reading on, and the sidecar write to
/// perform (name and contents), when state is persisted at all.
pub struct ChunkOutcome {
    pub offset: usize,
    pub wait_ms: u64,
    pub sidecar: Option<(String, String)>,
}

/// One managed download.
#[derive(Debug, Clone)]
pub struct File2Dl {
    /// What the probe found; immutable for the session's lifetime.
    pub url: Url,
    /// Bytes already materialized on disk.
    pub size_on_disk: usize,
    /// `true` = actively transferring, `false` = paused.
    pub status: bool,
    /// The on-disk name chosen by the conflict resolver.
    pub name_on_disk: String,
    /// The destination directory.
    pub dir: String,
    /// Bytes per second the limiter may pass; 0 = unlimited.
    pub bandwidth: usize,
    /// Set exactly once, when the transfer is done; never reset.
    pub complete: bool,
    /// The displayed rate, smoothed over the last window.
    pub transfer_rate: usize,
    /// The single-issue gate: whether a transfer loop was already spawned.
    pub started: bool,
}

impl File2Dl {
    /// The session's invariant: progress never passes a known total, a
    /// complete session of known size is exactly full, and range support
    /// is only ever recorded together with a known size.
    pub open spec fn inv(self) -> bool {
        &&& (self.url.total_size > 0 ==> self.size_on_disk <= self.url.total_size)
        &&& (self.complete ==> (self.url.total_size == 0 || self.size_on_disk
            == self.url.total_size))
        &&& (self.url.range_support ==> self.url.total_size > 0)
    }

    /// An empty session aimed at the default directory.
    pub fn default() -> (r: Self)
        ensures
            r.url.link@ == Seq::<char>::empty(),
            r.url.filename is None,
            r.url.total_size == 0,
            !r.url.range_support,
            r.size_on_disk == 0,
            !r.status,
            r.name_on_disk@ == Seq::<char>::empty(),
            r.dir@ == "Downloads"@,
            r.bandwidth == 0,
            !r.complete,
            r.transfer_rate == 0,
            !r.started,
            r.inv(),
    {
        File2Dl {
            url: Url::default(),
            size_on_disk: 0,
            status: false,
            name_on_disk: String::new(),
            dir: "Downloads".to_owned(),
            bandwidth: 0,
            complete: false,
            transfer_rate: 0,
            started: false,
        }
    }

    /// Builds a fresh session from a probe result: the naming resolver
    /// picks the on-disk name against the directory listing, and the byte
    /// count starts at the resumed partial file's size, or at 0.
    pub fn new(url: Url, dir_list: &Vec<DirEntry>, dir: &str, bandwidth: usize) -> (r: Self)
        requires
            dir_list@.len() + 2 < usize::MAX,
            url.range_support ==> url.total_size > 0,
        ensures
            r.url == url,
            r.dir@ == dir@,
            r.bandwidth == bandwidth,
            !r.status,
            !r.complete,
            !r.started,
            r.transfer_rate == 0,
            match url.filename {
                Some(f) => crate::utils::spec_target_ok(
                    dir_list@,
                    url.link@,
                    url.total_size,
                    r.name_on_disk@,
                    r.size_on_disk,
                ) && (r.name_on_disk@ == f@ || crate::utils::spec_blocked(
                    dir_list@,
                    url.link@,
                    url.total_size,
                    f@,
                )),
                None => !crate::utils::spec_occupied(dir_list@, r.name_on_disk@) && r.size_on_disk
                    == 0,
            },
            r.inv(),
    {
        let (name_on_disk, size_on_disk) = crate::utils::gen(&url, dir_list);
        File2Dl {
            url,
            size_on_disk,
            status: false,
            name_on_disk,
            dir: dir.to_owned(),
            bandwidth,
            complete: false,
            transfer_rate: 0,
            started: false,
        }
    }

    /// The two paths a remove-from-disk command must delete: the data file
    /// and its sidecar. Deleting never races an active write silently: the
    /// caller pauses the session first, and a write into a deleted file
    /// surfaces as an I/O error rather than corruption.
    pub fn removal_plan(&self) -> (r: (String, String))
        ensures
            r.0@ == self.dir@ + seq!['/'] + self.name_on_disk@,
            r.1@ == self.dir@ + seq!['/'] + crate::tmp::spec_sidecar_name(self.name_on_disk@),
    {
        let mut data = self.dir.clone();
        crate::strutil::push_char(&mut data, '/');
        data.append(self.name_on_disk.as_str());
        let mut side = self.dir.clone();
        crate::strutil::push_char(&mut side, '/');
        let sc = crate::tmp::sidecar_name(self.name_on_disk.as_str());
        side.append(sc.as_str());
        proof {
            assert(data@ =~= self.dir@ + seq!['/'] + self.name_on_disk@);
            assert(side@ =~= self.dir@ + seq!['/'] + crate::tmp::spec_sidecar_name(
                self.name_on_disk@,
            ));
        }
        (data, side)
    }

    /// The session after the pause/resume signal flips.
    pub open spec fn spec_toggle(self) -> Self {
        File2Dl { status: !self.status, ..self }
    }

    /// The session after one chunk of `len` bytes landed on disk.
    pub open spec fn spec_grow(self, len: usize) -> Self {
        File2Dl { size_on_disk: (self.size_on_disk + len) as usize, ..self }
    }

    /// The session after the response body ran dry: done when the total
    /// was unknown, or when every declared byte is on disk.
    pub open spec fn spec_finish(self) -> Self {
        File2Dl {
            complete: self.complete || self.url.total_size == 0 || self.size_on_disk
                == self.url.total_size,
            ..self
        }
    }

    /// The start-once gate: the session after a start command, and whether
    /// this command is the one that spawns the loop.
    pub open spec fn spec_start(self) -> (Self, bool) {
        (File2Dl { started: true, ..self }, !self.started)
    }

    /// Whether a chunk of `len` bytes may land: it must not pass a known
    /// total, nor overflow the byte counter when the total is unknown.
    pub open spec fn spec_chunk_fits(self, len: usize) -> bool {
        if self.url.total_size > 0 {
            self.size_on_disk + len <= self.url.total_size
        } else {
            self.size_on_disk + len <= usize::MAX
        }
    }

    /// Flips the pause/resume signal.
    pub fn switch_status(&mut self)
        ensures
            *final (self) == old(self).spec_toggle(),
    {
        self.status = !self.status;
    }

    /// Updates the bandwidth limit; the limiter reads it at the next
    /// chunk.
    pub fn set_bandwidth(&mut self, bytes_per_sec: usize)
        ensures
            *final (self) == (File2Dl { bandwidth: bytes_per_sec, ..*old(self) }),
    {
        self.bandwidth = bytes_per_sec;
    }

    /// Claims the single-issue gate. Returns whether the caller is the one
    /// that must spawn the transfer loop: true at most once per session.
    pub fn start(&mut self) -> (spawn: bool)
        ensures
            (*final (self), spawn) == old(self).spec_start(),
    {
        let spawn = !self.started;
        self.started = true;
        spawn
    }

    /// Where the loop stands before consuming anything: terminal when
    /// complete, waiting while paused, fetching otherwise.
    pub fn loop_state(&self) -> (r: LoopState)
        ensures
            r == if self.complete {
                LoopState::Complete
            } else if !self.status {
                LoopState::AwaitingResume
            } else {
                LoopState::Fetching
            },
    {
        if self.complete {
            LoopState::Complete
        } else if !self.status {
            LoopState::AwaitingResume
        } else {
            LoopState::Fetching
        }
    }

    /// Whether a chunk of `len` bytes may land now.
    pub fn chunk_fits(&self, len: usize) -> (r: bool)
        ensures
            r == self.spec_chunk_fits(len),
    {
        if self.url.total_size > 0 {
            self.size_on_disk <= self.url.total_size && len <= self.url.total_size
                - self.size_on_disk
        } else {
            len <= usize::MAX - self.size_on_disk
        }
    }

    /// A chunk landed: the write goes at offset `offset` (the old byte
    /// count), and the count grows by the chunk's length. Writes are
    /// thereby strictly ordered by offset.
    pub fn on_chunk(&mut self, len: usize) -> (offset: usize)
        requires
            old(self).inv(),
            !old(self).complete,
            old(self).spec_chunk_fits(len),
        ensures
            offset == old(self).size_on_disk,
            *final (self) == old(self).spec_grow(len),
            final (self).inv(),
    {
        let offset = self.size_on_disk;
        self.size_on_disk = self.size_on_disk + len;
        offset
    }

    /// Handles one received chunk end to end, as the transfer loop does
    /// after writing it at `offset`: count the bytes, fold them into the
    /// displayed rate, consult the bandwidth limiter (reading the current
    /// limit live), and produce the sidecar checkpoint to persist. The
    /// caller writes the chunk at the returned offset, sleeps for
    /// `wait_ms`, and stores the sidecar text.
    pub fn on_chunk_event(
        &mut self,
        limiter: &mut crate::limiter::BandwidthLimiter,
        rate: &mut crate::limiter::RateWindow,
        now_ms: u64,
        len: usize,
    ) -> (r: ChunkOutcome)
        requires
            old(self).inv(),
            !old(self).complete,
            old(self).spec_chunk_fits(len),
            old(limiter).bytes_in_window + len <= usize::MAX,
            old(limiter).window_start_ms <= now_ms,
            now_ms + crate::limiter::WINDOW_MS <= u64::MAX,
            old(rate).bytes + len <= usize::MAX,
            old(rate).window_start_ms + crate::limiter::WINDOW_MS <= u64::MAX,
        ensures
            r.offset == old(self).size_on_disk,
            *final (self) == (File2Dl {
                size_on_disk: (old(self).size_on_disk + len) as usize,
                transfer_rate: final (self).transfer_rate,
                ..*old(self)
            }),
            final (self).inv(),
            (*final (limiter), r.wait_ms) == crate::limiter::spec_limiter_step(
                crate::limiter::BandwidthLimiter {
                    limit: old(self).bandwidth,
                    window_start_ms: old(limiter).window_start_ms,
                    bytes_in_window: old(limiter).bytes_in_window,
                },
                now_ms,
                len,
            ),
            if now_ms >= old(rate).window_start_ms + crate::limiter::WINDOW_MS {
                &&& final (self).transfer_rate == old(rate).bytes + len
                &&& final (rate).bytes == 0
                &&& final (rate).window_start_ms == now_ms
            } else {
                &&& final (self).transfer_rate == old(self).transfer_rate
                &&& final (rate).bytes == old(rate).bytes + len
                &&& final (rate).window_start_ms == old(rate).window_start_ms
            },
            final (self).url.range_support ==> (r.sidecar matches Some(p) && p.0@
                == crate::tmp::spec_sidecar_name(final (self).name_on_disk@) && p.1@
                == crate::tmp::spec_sidecar_json(
                crate::tmp::spec_checkpoint(*final (self), final (self).name_on_disk@),
                final (self).bandwidth,
            )),
            !final (self).url.range_support ==> r.sidecar is None,
    {
        let offset = self.on_chunk(len);
        if let Some(published) = rate.record(now_ms, len) {
            self.transfer_rate = published;
        }
        limiter.set_limit(self.bandwidth);
        let wait_ms = limiter.record(now_ms, len);
        let name = self.name_on_disk.clone();
        let sidecar = crate::tmp::init_tmp_if_supported(self, name.as_str());
        ChunkOutcome { offset, wait_ms, sidecar }
    }

    /// The response body ran dry. Sets the completion flag exactly when
    /// spec'd: an unknown total completes on exhaustion, a known total
    /// only when fully on disk; a short body leaves the session incomplete
    /// and resumable.
    pub fn on_stream_end(&mut self) -> (done: bool)
        requires
            old(self).inv(),
        ensures
            *final (self) == old(self).spec_finish(),
            done == final (self).complete,
            final (self).inv(),
    {
        if self.url.total_size == 0 || self.size_on_disk == self.url.total_size {
            self.complete = true;
        }
        self.complete
    }
}

/// Whether a directory entry can be rehydrated into a session: it is a
/// data file (not itself a sidecar), a sidecar lies beside it and parses,
/// and the actual file length does not pass the recorded total. Files
/// without a usable sidecar are left on disk, untouched and unmanaged.
pub open spec fn spec_recoverable(e: DirEntry) -> bool {
    &&& !crate::strutil::spec_contains_str(e.name@, ".metadata"@)
    &&& match e.sidecar {
        Some(t) => match crate::tmp::spec_parse_sidecar(t@) {
            Some(p) => p.0.total_size > 0 && e.size <= p.0.total_size,
            None => false,
        },
        None => false,
    }
}

/// How a rehydrated session relates to its directory entry: progress is
/// the actual file length on disk (never the sidecar's word), the source
/// comes from the sidecar, the session starts paused, and completion is
/// recomputed from the file length.
pub open spec fn spec_recovered_matches(f: File2Dl, e: DirEntry, dir: Seq<char>) -> bool {
    match e.sidecar {
        Some(t) => match crate::tmp::spec_parse_sidecar(t@) {
            Some(p) => {
                &&& f.url.link@ == p.0.link
                &&& (f.url.filename matches Some(x) && x@ == p.0.filename)
                &&& f.url.total_size == p.0.total_size
                &&& f.url.range_support
                &&& f.size_on_disk == e.size
                &&& !f.status
                &&& f.name_on_disk@ == e.name@
                &&& f.dir@ == dir
                &&& f.bandwidth == p.1
                &&& (f.complete <==> e.size == p.0.total_size)
                &&& f.transfer_rate == 0
                &&& !f.started
            },
            None => false,
        },
        None => false,
    }
}

/// The entries of a listing that can be rehydrated, in order.
pub open spec fn spec_kept(entries: Seq<DirEntry>) -> Seq<DirEntry>
    decreases entries.len(),
{
    if entries.len() == 0 {
        Seq::empty()
    } else {
        spec_kept(entries.drop_last()) + if spec_recoverable(entries.last()) {
            seq![entries.last()]
        } else {
            Seq::empty()
        }
    }
}

impl File2Dl {
    /// Rebuilds the resumable sessions from a directory listing: one
    /// session per data file with a usable sidecar, in listing order, each
    /// paused, with its progress taken from the actual file length.
    pub fn from(dir: &str, entries: &Vec<DirEntry>) -> (r: Vec<File2Dl>)
        ensures
            r@.len() == spec_kept(entries@).len(),
            forall|j: int|
                0 <= j < r@.len() ==> spec_recovered_matches(
                    #[trigger] r@[j],
                    spec_kept(entries@)[j],
                    dir@,
                ) && r@[j].inv(),
    {
        let n = entries.len();
        let mut res: Vec<File2Dl> = Vec::new();
        let mut i: usize = 0;
        proof {
            assert(entries@.take(0).len() == 0);
            assert(spec_kept(entries@.take(0)) =~= Seq::<DirEntry>::empty());
        }
        while i < n
            invariant
                0 <= i <= n,
                n == entries@.len(),
                res@.len() == spec_kept(entries@.take(i as int)).len(),
                forall|j: int|
                    0 <= j < res@.len() ==> spec_recovered_matches(
                        #[trigger] res@[j],
                        spec_kept(entries@.take(i as int))[j],
                        dir@,
                    ) && res@[j].inv(),
            decreases n - i,
        {
            let ghost pre = entries@.take(i as int);
            let ghost cur = entries@[i as int];
            proof {
                assert(entries@.take(i + 1).drop_last() =~= pre);
                assert(entries@.take(i + 1).last() == cur);
            }
            let e = &entries[i];
            let mut keep = false;
            if !crate::tmp::is_sidecar_name(e.name.as_str()) {
                match &e.sidecar {
                    None => {},
                    Some(text) => match crate::tmp::parse_sidecar(text.as_str()) {
                        None => {},
                        Some(p) => {
                            let (meta, bw) = p;
                            if meta.total_size > 0 && e.size <= meta.total_size {
                                keep = true;
                                let complete = e.size == meta.total_size;
                                let url = Url {
                                    link: meta.link,
                                    filename: Some(meta.filename),
                                    total_size: meta.total_size,
                                    range_support: true,
                                };
                                let f = File2Dl {
                                    url,
                                    size_on_disk: e.size,
                                    status: false,
                                    name_on_disk: e.name.clone(),
                                    dir: dir.to_owned(),
                                    bandwidth: bw,
                                    complete,
                                    transfer_rate: 0,
                                    started: false,
                                };
                                let ghost old_res = res@;
                                res.push(f);
                                proof {
                                    assert(spec_recoverable(cur));
                                    assert(spec_kept(entries@.take(i + 1)) =~= spec_kept(pre)
                                        + seq![cur]);
                                    assert(res@ =~= old_res.push(f));
                                    assert(spec_recovered_matches(f, cur, dir@));
                                    assert(f.inv());
                                }
                            }
                        },
                    },
                }
            }
            proof {
                if !keep {
                    assert(!spec_recoverable(cur));
                    assert(spec_kept(entries@.take(i + 1)) =~= spec_kept(pre));
                }
            }
            i = i + 1;
        }
        proof {
            assert(entries@.take(n as int) =~= entries@);
        }
        res
    }
}

/// Whether every chunk of a run fits, each after the ones before it.
pub open spec fn spec_chunks_fit(f: File2Dl, lens: Seq<usize>) -> bool
    decreases lens.len(),
{
    if lens.len() == 0 {
        true
    } else {
        f.spec_chunk_fits(lens[0]) && spec_chunks_fit(f.spec_grow(lens[0]), lens.drop_first())
    }
}

/// The session after a run of chunks landed.
pub open spec fn spec_apply_chunks(f: File2Dl, lens: Seq<usize>) -> File2Dl
    decreases lens.len(),
{
    if lens.len() == 0 {
        f
    } else {
        spec_apply_chunks(f.spec_grow(lens[0]), lens.drop_first())
    }
}

/// The offset of each write a run of chunks performs.
pub open spec fn spec_write_offsets(f: File2Dl, lens: Seq<usize>) -> Seq<int>
    decreases lens.len(),
{
    if lens.len() == 0 {
        Seq::empty()
    } else {
        seq![f.size_on_disk as int] + spec_write_offsets(f.spec_grow(lens[0]), lens.drop_first())
    }
}

/// The total length of a run of chunks.
pub open spec fn spec_sum(lens: Seq<usize>) -> int
    decreases lens.len(),
{
    if lens.len() == 0 {
        0
    } else {
        lens[0] + spec_sum(lens.drop_first())
    }
}

/// COMPLETION MEANS FULL. A completed session of known size holds exactly
/// the declared number of bytes on disk.
pub proof fn lemma_complete_full(f: File2Dl)
    requires
        f.inv(),
        f.complete,
        f.url.total_size > 0,
    ensures
        f.size_on_disk == f.url.total_size,
{
}

/// START IS IDEMPOTENT. The first start command spawns the loop; a second
/// start on the same session spawns nothing and changes nothing, so
/// exactly one transfer loop ever runs per session.
pub proof fn lemma_start_idempotent(f: File2Dl)
    ensures
        f.spec_start().0.spec_start().1 == false,
        f.spec_start().0.spec_start().0 == f.spec_start().0,
{
}

/// PAUSE ROUND TRIP. Flipping the status signal moves no bytes, and
/// flipping it twice restores the session exactly: a paused transfer
/// resumes from the very byte count at which it stopped.
pub proof fn lemma_pause_round_trip(f: File2Dl)
    ensures
        f.spec_toggle().size_on_disk == f.size_on_disk,
        f.spec_toggle().spec_toggle() == f,
{
}

/// UNKNOWN SIZE STILL COMPLETES. A session whose server declared no total
/// size reaches the completion flag on stream exhaustion.
pub proof fn lemma_unknown_size_completes(f: File2Dl)
    requires
        f.url.total_size == 0,
    ensures
        f.spec_finish().complete,
{
}

/// RESUMED WRITES NEVER REWIND. Every write a run of chunks performs goes
/// at or past the byte count the session started with: resuming a partial
/// file of size `N` touches only offsets at or beyond `N`.
pub proof fn lemma_writes_at_or_after(f: File2Dl, lens: Seq<usize>, k: int)
    requires
        0 <= k < lens.len(),
        spec_chunks_fit(f, lens),
    ensures
        spec_write_offsets(f, lens)[k] >= f.size_on_disk,
        spec_write_offsets(f, lens).len() == lens.len(),
    decreases lens.len(),
{
    lemma_write_offsets_len(f, lens);
    if k > 0 {
        lemma_writes_at_or_after(f.spec_grow(lens[0]), lens.drop_first(), k - 1);
    }
}

/// A run of chunks makes one write per chunk.
pub proof fn lemma_write_offsets_len(f: File2Dl, lens: Seq<usize>)
    ensures
        spec_write_offsets(f, lens).len() == lens.len(),
    decreases lens.len(),
{
    if lens.len() > 0 {
        lemma_write_offsets_len(f.spec_grow(lens[0]), lens.drop_first());
    }
}

/// THE COMMAND SURFACE KEEPS THE SESSION SOUND. Pausing, resuming,
/// claiming the start gate, a bandwidth change and stream exhaustion all
/// preserve the session invariant.
pub proof fn lemma_commands_preserve_inv(f: File2Dl, bytes_per_sec: usize)
    requires
        f.inv(),
    ensures
        f.spec_toggle().inv(),
        f.spec_start().0.inv(),
        (File2Dl { bandwidth: bytes_per_sec, ..f }).inv(),
        f.spec_finish().inv(),
{
}

/// CHECKPOINT COHERENCE. The sidecar a range-supported session writes at
/// any point is exactly what a later process needs: the entry pairing the
/// data file with that sidecar is recoverable by the reconciler, and the
/// naming resolver finds it resumable precisely while the file is still
/// short of the declared total.
pub proof fn lemma_checkpoint_coherent(f: File2Dl, filename: Seq<char>, e: DirEntry)
    requires
        f.inv(),
        f.url.range_support,
        crate::tmp::ctrl_free(filename),
        crate::tmp::ctrl_free(f.url.link@),
        !crate::strutil::spec_contains_str(filename, ".metadata"@),
        e.name@ == filename,
        e.size == f.size_on_disk,
        e.sidecar matches Some(t) && t@ == crate::tmp::spec_sidecar_json(
            crate::tmp::spec_checkpoint(f, filename),
            f.bandwidth,
        ),
    ensures
        spec_recoverable(e),
        crate::utils::spec_resumable(e, f.url.link@, f.url.total_size) <==> f.size_on_disk
            < f.url.total_size,
{
    crate::tmp::lemma_sidecar_round_trip(crate::tmp::spec_checkpoint(f, filename), f.bandwidth);
}

/// RESUME CORRECTNESS. A partial file of size `N` below the declared
/// total, whose sidecar agrees on the link and the total and records the
/// transfer as incomplete, is resolved to its own name with resume offset
/// `N`; and a session resumed at `N` writes only at offsets `N` and
/// beyond.
pub proof fn lemma_resume_correctness(
    dir: Seq<DirEntry>,
    e: DirEntry,
    link: Seq<char>,
    total: usize,
    f: File2Dl,
    lens: Seq<usize>,
    k: int,
)
    requires
        crate::utils::spec_find(dir, e.name@) == Some(e),
        crate::utils::spec_resumable(e, link, total),
        f.size_on_disk == e.size,
        spec_chunks_fit(f, lens),
        0 <= k < lens.len(),
    ensures
        crate::utils::spec_target_ok(dir, link, total, e.name@, e.size),
        spec_write_offsets(f, lens)[k] >= e.size,
{
    lemma_writes_at_or_after(f, lens, k);
}

/// A run of chunks that fits grows the byte count by exactly its total
/// length, and touches nothing else of the session.
pub proof fn lemma_apply_chunks_size(f: File2Dl, lens: Seq<usize>)
    requires
        spec_chunks_fit(f, lens),
    ensures
        spec_apply_chunks(f, lens).size_on_disk == f.size_on_disk + spec_sum(lens),
        spec_apply_chunks(f, lens) == (File2Dl {
            size_on_disk: spec_apply_chunks(f, lens).size_on_disk,
            ..f
        }),
    decreases lens.len(),
{
    if lens.len() > 0 {
        lemma_apply_chunks_size(f.spec_grow(lens[0]), lens.drop_first());
    }
}

} // verus!

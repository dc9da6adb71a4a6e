//! The session's step functions: completion, the start gate, pause and
//! resume, reconciliation, and the full pause/restart/resume scenario.

use dl::errors::{DirectoryError, FileDownloadError};
use dl::file2dl::{File2Dl, LoopState};
use dl::tmp::{encode_sidecar, init_tmp_if_supported, MetaData, State};
use dl::url::Url;
use dl::utils::{gen, init_req, DirEntry};

fn session(link: &str, total_size: usize, range_support: bool) -> File2Dl {
    let mut f = File2Dl::default();
    f.url = Url {
        link: link.to_string(),
        filename: None,
        total_size,
        range_support,
    };
    f
}

#[test]
fn default_session_shape() {
    let f = File2Dl::default();
    assert_eq!(f.dir, "Downloads");
    assert_eq!(f.size_on_disk, 0);
    assert!(!f.status);
    assert!(!f.complete);
    assert!(!f.started);
    assert_eq!(f.bandwidth, 0);
    assert_eq!(f.transfer_rate, 0);
}

#[test]
fn completed_known_size_is_exactly_full() {
    // bytes_on_disk == total_size whenever total_size > 0 and the session
    // completed.
    let mut f = session("http://a.b/c.bin", 10, false);
    let off = f.on_chunk(6);
    assert_eq!(off, 0);
    let off = f.on_chunk(4);
    assert_eq!(off, 6);
    assert!(f.on_stream_end());
    assert!(f.complete);
    assert_eq!(f.size_on_disk, f.url.total_size);
}

#[test]
fn short_body_does_not_complete() {
    let mut f = session("http://a.b/c.bin", 10, false);
    f.on_chunk(6);
    assert!(!f.on_stream_end());
    assert!(!f.complete, "a truncated body leaves the session resumable");
    assert_eq!(f.size_on_disk, 6);
}

#[test]
fn start_gate_spawns_exactly_once() {
    let mut f = session("http://a.b/c.bin", 10, false);
    assert!(f.start(), "the first start command spawns the loop");
    assert!(!f.start(), "the second start command spawns nothing");
    assert!(!f.start());
    assert!(f.started);
}

#[test]
fn pause_round_trip_preserves_progress() {
    let mut f = session("http://a.b/c.bin", 100, false);
    f.switch_status();
    assert!(f.status);
    f.on_chunk(40);
    f.switch_status();
    assert!(!f.status);
    assert_eq!(f.loop_state(), LoopState::AwaitingResume);
    let before = f.size_on_disk;
    // While paused the driver performs no chunk step; toggling back must
    // resume from the exact same byte count.
    f.switch_status();
    assert!(f.status);
    assert_eq!(f.size_on_disk, before);
    let off = f.on_chunk(1);
    assert_eq!(off, 40, "the next write lands exactly where the pause left off");
}

#[test]
fn loop_state_classification() {
    let mut f = session("http://a.b/c.bin", 10, false);
    assert_eq!(f.loop_state(), LoopState::AwaitingResume);
    f.switch_status();
    assert_eq!(f.loop_state(), LoopState::Fetching);
    f.on_chunk(10);
    f.on_stream_end();
    assert_eq!(f.loop_state(), LoopState::Complete);
}

#[test]
fn unknown_size_completes_on_exhaustion() {
    // A server omitting Content-Length gives total_size = 0; range support
    // is off, and the session still completes when the stream runs dry.
    let mut f = session("http://a.b/stream", 0, false);
    f.on_chunk(700);
    f.on_chunk(300);
    assert!(f.on_stream_end());
    assert!(f.complete);
    assert_eq!(f.size_on_disk, 1000);
}

#[test]
fn chunk_fits_respects_declared_total() {
    let mut f = session("http://a.b/c.bin", 10, false);
    assert!(f.chunk_fits(10));
    assert!(!f.chunk_fits(11));
    f.on_chunk(10);
    assert!(!f.chunk_fits(1), "no chunk may pass the declared total");
    assert!(f.chunk_fits(0));
}

#[test]
fn range_request_plan() {
    let mut f = session("http://a.b/c.bin", 10_000_000, true);
    f.size_on_disk = 4_000_000;
    let header = init_req(&f).expect("range-supported sessions fetch ranged");
    assert_eq!(header, "bytes=4000000-10000000");

    let unranged = session("http://a.b/stream", 0, false);
    assert!(init_req(&unranged).is_none(), "no range support means one unranged fetch");
}

#[test]
fn sidecar_written_only_with_range_support() {
    let mut f = session("http://files.example.org/report.pdf", 1000, true);
    f.size_on_disk = 400;
    f.bandwidth = 9;
    let (name, contents) = init_tmp_if_supported(&f, "report.pdf").expect("range support persists");
    assert_eq!(name, ".report.pdf.metadata");
    assert_eq!(
        contents,
        "{\"filename\":\"report.pdf\",\"link\":\"http://files.example.org/report.pdf\",\"total_size\":1000,\"state\":\"Incomplete\",\"bandwidth\":9}"
    );

    let plain = session("http://a.b/stream", 0, false);
    assert!(init_tmp_if_supported(&plain, "x.unknown").is_none());
}

#[test]
fn reconciler_recovers_valid_pairs_only() {
    let link = "http://files.example.org/report.pdf";
    let good = MetaData {
        filename: "report.pdf".to_string(),
        link: link.to_string(),
        total_size: 1000,
        state: State::Incomplete,
    };
    let entries = vec![
        DirEntry { name: "report.pdf".to_string(), size: 400, sidecar: Some(encode_sidecar(&good, 5)) },
        DirEntry { name: ".report.pdf.metadata".to_string(), size: 90, sidecar: None },
        DirEntry { name: "loose.bin".to_string(), size: 7, sidecar: None },
        DirEntry { name: "broken.bin".to_string(), size: 7, sidecar: Some("{oops".to_string()) },
    ];
    let sessions = File2Dl::from("Downloads", &entries);
    assert_eq!(sessions.len(), 1, "only the file with a usable sidecar is recovered");
    let s = &sessions[0];
    assert_eq!(s.name_on_disk, "report.pdf");
    assert_eq!(s.size_on_disk, 400, "progress is the actual file length");
    assert_eq!(s.url.link, link);
    assert_eq!(s.url.total_size, 1000);
    assert!(s.url.range_support);
    assert!(!s.status, "recovered sessions never auto-resume");
    assert_eq!(s.bandwidth, 5, "the bandwidth limit is restored from the sidecar");
    assert!(!s.complete);
    assert!(!s.started);
}

#[test]
fn reconciler_recomputes_completion_from_file_length() {
    let link = "http://a.b/c.bin";
    let meta = MetaData {
        filename: "c.bin".to_string(),
        link: link.to_string(),
        total_size: 10,
        state: State::Incomplete,
    };
    let entries = vec![DirEntry {
        name: "c.bin".to_string(),
        size: 10,
        sidecar: Some(encode_sidecar(&meta, 0)),
    }];
    let sessions = File2Dl::from("Downloads", &entries);
    assert_eq!(sessions.len(), 1);
    assert!(sessions[0].complete, "the file length, not the sidecar's word, decides");
}

#[test]
fn full_pause_restart_resume_scenario() {
    // A 10,000,000-byte resource with range support: pause at 4,000,000,
    // restart the process, reconcile, resume, and finish with the sidecar
    // recording Complete.
    let link = "http://files.example.org/big.bin";
    let dir_before: Vec<DirEntry> = Vec::new();
    let url = Url {
        link: link.to_string(),
        filename: Some("big.bin".to_string()),
        total_size: 10_000_000,
        range_support: true,
    };
    let mut f = File2Dl::new(url, &dir_before, "Downloads", 0);
    assert_eq!(f.name_on_disk, "big.bin");
    assert_eq!(f.size_on_disk, 0);
    assert!(f.start());
    f.switch_status();
    while f.size_on_disk < 4_000_000 {
        f.on_chunk(1_000_000);
    }
    f.switch_status();
    assert!(!f.status);
    let (sc_name, sc_text) = init_tmp_if_supported(&f, "big.bin").unwrap();
    assert_eq!(sc_name, ".big.bin.metadata");

    // The process restarts: only the directory contents survive.
    let dir_after = vec![DirEntry {
        name: "big.bin".to_string(),
        size: 4_000_000,
        sidecar: Some(sc_text),
    }];
    let recovered = File2Dl::from("Downloads", &dir_after);
    assert_eq!(recovered.len(), 1);
    let mut g = recovered.into_iter().next().unwrap();
    assert_eq!(g.size_on_disk, 4_000_000);
    assert!(!g.status);

    // Resume: the ranged request continues from the recovered offset.
    assert_eq!(init_req(&g).unwrap(), "bytes=4000000-10000000");
    assert!(g.start());
    g.switch_status();
    while g.size_on_disk < 10_000_000 {
        let off = g.on_chunk(2_000_000);
        assert!(off >= 4_000_000, "resumed writes land at offsets >= the resume point");
    }
    assert!(g.on_stream_end());
    assert!(g.complete);
    assert_eq!(g.size_on_disk, 10_000_000);
    let (_, final_text) = init_tmp_if_supported(&g, "big.bin").unwrap();
    assert!(final_text.contains("\"state\":\"Complete\""));
}

#[test]
fn create_resumes_partial_via_gen() {
    let link = "http://files.example.org/report.pdf";
    let meta = MetaData {
        filename: "report.pdf".to_string(),
        link: link.to_string(),
        total_size: 1000,
        state: State::Incomplete,
    };
    let dir = vec![DirEntry {
        name: "report.pdf".to_string(),
        size: 400,
        sidecar: Some(encode_sidecar(&meta, 0)),
    }];
    let url = Url {
        link: link.to_string(),
        filename: Some("report.pdf".to_string()),
        total_size: 1000,
        range_support: true,
    };
    let (name, size) = gen(&url, &dir);
    assert_eq!(name, "report.pdf");
    assert_eq!(size, 400);
    let f = File2Dl::new(url, &dir, "Downloads", 0);
    assert_eq!(f.size_on_disk, 400, "create picks up the partial file's bytes");
}

#[test]
fn error_classification_and_messages() {
    let retry = FileDownloadError::ConnectFailure("dns lookup failed".to_string());
    assert!(retry.is_retryable(), "connection establishment failures are retried silently");
    let report = FileDownloadError::RequestFailure("status 500".to_string());
    assert!(!report.is_retryable());
    assert_eq!(report.message(), "Request failed: status 500");
    let disk = FileDownloadError::FileCreation("disk full".to_string());
    assert!(!disk.is_retryable());
    assert_eq!(disk.message(), "Creating file failed: disk full");
    let dir_err = FileDownloadError::DirIndex(DirectoryError::DirParse("denied".to_string()));
    assert_eq!(
        dir_err.message(),
        "Indexing downloads directory failed: Failed to parse directory provided: denied"
    );
    let chan = FileDownloadError::WatchChannel("closed".to_string());
    assert_eq!(chan.message(), "Sending the data to be written failed: closed");
}

#[test]
fn set_bandwidth_changes_only_the_limit() {
    let mut f = session("http://a.b/c.bin", 10, false);
    f.on_chunk(3);
    f.set_bandwidth(512);
    assert_eq!(f.bandwidth, 512);
    assert_eq!(f.size_on_disk, 3);
}

#[test]
fn removal_plan_names_both_files() {
    let mut f = session("http://a.b/c.bin", 10, true);
    f.name_on_disk = "c.bin".to_string();
    let (data, sidecar) = f.removal_plan();
    assert_eq!(data, "Downloads/c.bin");
    assert_eq!(sidecar, "Downloads/.c.bin.metadata");
}

#[test]
fn chunk_fits_at_machine_limits() {
    let mut f = session("http://a.b/stream", 0, false);
    f.size_on_disk = usize::MAX;
    assert!(!f.chunk_fits(1), "an unknown total still may not overflow the byte counter");
    assert!(f.chunk_fits(0));
    let mut g = session("http://a.b/huge.bin", usize::MAX, true);
    g.size_on_disk = usize::MAX - 1;
    assert!(g.chunk_fits(1));
    assert!(!g.chunk_fits(2));
}

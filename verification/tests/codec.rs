//! The sidecar codec: exact text, round trips, malformed input.

use dl::tmp::{
    encode_sidecar, init_meta_data, is_sidecar_name, parse_sidecar, sidecar_name, MetaData, State,
};

fn record(filename: &str, link: &str, total_size: usize, state: State) -> MetaData {
    MetaData { filename: filename.to_string(), link: link.to_string(), total_size, state }
}

#[test]
fn encode_exact_text() {
    let m = record("f.bin", "http://x.y/z", 42, State::Incomplete);
    let text = encode_sidecar(&m, 7);
    assert_eq!(
        text,
        "{\"filename\":\"f.bin\",\"link\":\"http://x.y/z\",\"total_size\":42,\"state\":\"Incomplete\",\"bandwidth\":7}"
    );
}

#[test]
fn encode_complete_state() {
    let m = record("a.txt", "http://h.io/a", 5, State::Complete);
    let text = encode_sidecar(&m, 0);
    assert!(text.contains("\"state\":\"Complete\""));
    assert!(text.contains("\"total_size\":5"));
}

#[test]
fn round_trip_basic() {
    let m = record("report.pdf", "https://files.example.org/report.pdf", 10_000_000, State::Incomplete);
    let text = encode_sidecar(&m, 250_000);
    let (back, bw) = parse_sidecar(&text).expect("own encoding must parse");
    assert_eq!(back.filename, "report.pdf");
    assert_eq!(back.link, "https://files.example.org/report.pdf");
    assert_eq!(back.total_size, 10_000_000);
    assert!(matches!(back.state, State::Incomplete));
    assert_eq!(bw, 250_000);
}

#[test]
fn round_trip_escaped_characters() {
    let m = record("we\"ird\\name.bin", "http://a.b/c\"d", 9, State::Complete);
    let text = encode_sidecar(&m, 1);
    let (back, bw) = parse_sidecar(&text).expect("escapes must round-trip");
    assert_eq!(back.filename, "we\"ird\\name.bin");
    assert_eq!(back.link, "http://a.b/c\"d");
    assert_eq!(back.total_size, 9);
    assert!(matches!(back.state, State::Complete));
    assert_eq!(bw, 1);
}

#[test]
fn round_trip_zero_sizes() {
    let m = record("x.unknown", "http://q.r/s", 0, State::Incomplete);
    let text = encode_sidecar(&m, 0);
    let (back, bw) = parse_sidecar(&text).expect("zero sizes are still well-formed text");
    assert_eq!(back.total_size, 0);
    assert_eq!(bw, 0);
}

#[test]
fn parse_without_bandwidth_member() {
    let text = "{\"filename\":\"f.bin\",\"link\":\"http://x.y/z\",\"total_size\":42,\"state\":\"Incomplete\"}";
    let (m, bw) = parse_sidecar(text).expect("the bandwidth member is optional");
    assert_eq!(m.filename, "f.bin");
    assert_eq!(m.total_size, 42);
    assert_eq!(bw, 0, "a sidecar without a bandwidth member restores 0");
}

#[test]
fn parse_rejects_malformed_text() {
    assert!(parse_sidecar("").is_none());
    assert!(parse_sidecar("not json at all").is_none());
    assert!(parse_sidecar("{\"filename\":\"f\",\"link\":\"l\"}").is_none());
    assert!(parse_sidecar(
        "{\"filename\":\"f.bin\",\"link\":\"http://x.y/z\",\"total_size\":42,\"state\":\"Done\",\"bandwidth\":7}"
    )
    .is_none());
    assert!(parse_sidecar(
        "{\"filename\":\"f.bin\",\"link\":\"http://x.y/z\",\"total_size\":x,\"state\":\"Complete\"}"
    )
    .is_none());
}

#[test]
fn parse_rejects_trailing_garbage() {
    let m = record("f.bin", "http://x.y/z", 42, State::Incomplete);
    let mut text = encode_sidecar(&m, 7);
    text.push('!');
    assert!(parse_sidecar(&text).is_none());
}

#[test]
fn init_meta_data_absent_and_malformed() {
    assert!(matches!(init_meta_data(None), Ok(None)));
    let bad = "{{{".to_string();
    assert!(init_meta_data(Some(&bad)).is_err());
    let good = encode_sidecar(&record("f.bin", "http://x.y/z", 8, State::Incomplete), 3);
    let got = init_meta_data(Some(&good)).unwrap().unwrap();
    assert_eq!(got.0.link, "http://x.y/z");
    assert_eq!(got.1, 3);
}

#[test]
fn sidecar_naming_convention() {
    assert_eq!(sidecar_name("video.mp4"), ".video.mp4.metadata");
    assert!(is_sidecar_name(".video.mp4.metadata"));
    assert!(!is_sidecar_name("video.mp4"));
}

#[test]
fn parse_accepts_file_name_key_spelling() {
    let text = "{\"file_name\":\"f.bin\",\"link\":\"http://x.y/z\",\"total_size\":42,\"state\":\"Incomplete\",\"bandwidth\":7}";
    let (m, bw) = parse_sidecar(text).expect("the alternative key spelling is accepted");
    assert_eq!(m.filename, "f.bin");
    assert_eq!(m.total_size, 42);
    assert_eq!(bw, 7);
}

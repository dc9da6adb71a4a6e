//! The naming and conflict resolver over a directory listing model.

use dl::tmp::{encode_sidecar, MetaData, State};
use dl::url::Url;
use dl::utils::{gen, gen_if_name_none, gen_if_name_some, DirEntry};

fn entry(name: &str, size: usize, sidecar: Option<String>) -> DirEntry {
    DirEntry { name: name.to_string(), size, sidecar }
}

fn sidecar_text(filename: &str, link: &str, total_size: usize, state: State, bw: usize) -> String {
    let m = MetaData {
        filename: filename.to_string(),
        link: link.to_string(),
        total_size,
        state,
    };
    encode_sidecar(&m, bw)
}

#[test]
fn fresh_name_in_empty_directory() {
    let dir: Vec<DirEntry> = Vec::new();
    let (name, size) = gen_if_name_some("http://a.b/report.pdf", &dir, "report.pdf", 1000);
    assert_eq!(name, "report.pdf");
    assert_eq!(size, 0);
}

#[test]
fn name_collision_yields_suffixed_name() {
    // Two sessions for different URLs both resolve to "report.pdf": the
    // second must get "report_2.pdf", with no data loss.
    let dir = vec![entry("report.pdf", 0, None)];
    let (name, size) = gen_if_name_some("http://other.site/report.pdf", &dir, "report.pdf", 500);
    assert_eq!(name, "report_2.pdf");
    assert_eq!(size, 0);
}

#[test]
fn collision_chain_takes_first_free_suffix() {
    let dir = vec![
        entry("report.pdf", 0, None),
        entry("report_2.pdf", 0, None),
        entry("report_3.pdf", 0, None),
    ];
    let (name, size) = gen_if_name_some("http://a.b/report.pdf", &dir, "report.pdf", 500);
    assert_eq!(name, "report_4.pdf");
    assert_eq!(size, 0);
}

#[test]
fn resume_matching_partial_file() {
    let link = "http://files.example.org/report.pdf";
    let sc = sidecar_text("report.pdf", link, 1000, State::Incomplete, 0);
    let dir = vec![entry("report.pdf", 400, Some(sc))];
    let (name, size) = gen_if_name_some(link, &dir, "report.pdf", 1000);
    assert_eq!(name, "report.pdf", "a matching incomplete partial is reused");
    assert_eq!(size, 400, "the resume offset is the partial file's size");
}

#[test]
fn no_resume_when_link_differs() {
    let sc = sidecar_text("report.pdf", "http://elsewhere.net/x", 1000, State::Incomplete, 0);
    let dir = vec![entry("report.pdf", 400, Some(sc))];
    let (name, size) = gen_if_name_some("http://a.b/report.pdf", &dir, "report.pdf", 1000);
    assert_eq!(name, "report_2.pdf");
    assert_eq!(size, 0);
}

#[test]
fn no_resume_when_total_differs() {
    let link = "http://a.b/report.pdf";
    let sc = sidecar_text("report.pdf", link, 999, State::Incomplete, 0);
    let dir = vec![entry("report.pdf", 400, Some(sc))];
    let (name, _) = gen_if_name_some(link, &dir, "report.pdf", 1000);
    assert_eq!(name, "report_2.pdf");
}

#[test]
fn no_resume_when_state_complete() {
    let link = "http://a.b/report.pdf";
    let sc = sidecar_text("report.pdf", link, 1000, State::Complete, 0);
    let dir = vec![entry("report.pdf", 400, Some(sc))];
    let (name, size) = gen_if_name_some(link, &dir, "report.pdf", 1000);
    assert_eq!(name, "report_2.pdf");
    assert_eq!(size, 0);
}

#[test]
fn stale_partial_recovered_under_suffixed_name() {
    // The base name is taken by a foreign file, but a partial matching the
    // same source sits under "report_2.pdf": the metadata check recurses
    // at each candidate, so that partial is resumed.
    let link = "http://files.example.org/report.pdf";
    let sc = sidecar_text("report_2.pdf", link, 1000, State::Incomplete, 0);
    let dir = vec![entry("report.pdf", 0, None), entry("report_2.pdf", 250, Some(sc))];
    let (name, size) = gen_if_name_some(link, &dir, "report.pdf", 1000);
    assert_eq!(name, "report_2.pdf");
    assert_eq!(size, 250);
}

#[test]
fn suffix_lands_before_first_dot() {
    let dir = vec![entry("archive.tar.gz", 0, None)];
    let (name, _) = gen_if_name_some("http://a.b/archive.tar.gz", &dir, "archive.tar.gz", 10);
    assert_eq!(name, "archive_2.tar.gz");
}

#[test]
fn suffix_appended_when_no_dot() {
    let dir = vec![entry("data", 0, None)];
    let (name, _) = gen_if_name_some("http://a.b/data", &dir, "data", 10);
    assert_eq!(name, "data_2");
}

#[test]
fn duplicate_listing_entries_use_first() {
    let link = "http://a.b/report.pdf";
    let sc = sidecar_text("report.pdf", link, 1000, State::Incomplete, 0);
    let dir = vec![entry("report.pdf", 400, Some(sc)), entry("report.pdf", 999, None)];
    let (name, size) = gen_if_name_some(link, &dir, "report.pdf", 1000);
    assert_eq!(name, "report.pdf");
    assert_eq!(size, 400);
}

#[test]
fn generated_name_avoids_collisions() {
    let dir = vec![entry("something.unknown", 3, None)];
    let (name, size) = gen_if_name_none(&dir);
    assert_eq!(size, 0);
    assert!(name.ends_with(".unknown"));
    assert_eq!(name.len(), 8 + ".unknown".len());
    assert!(name[..8].chars().all(|c| c.is_ascii_lowercase() || c.is_ascii_digit()));
    assert!(dir.iter().all(|e| e.name != name));
}

#[test]
fn gen_dispatches_on_declared_filename() {
    let dir: Vec<DirEntry> = Vec::new();
    let with_name = Url {
        link: "http://a.b/file.bin".to_string(),
        filename: Some("file.bin".to_string()),
        total_size: 10,
        range_support: true,
    };
    let (name, size) = gen(&with_name, &dir);
    assert_eq!((name.as_str(), size), ("file.bin", 0));

    let without_name = Url {
        link: "http://a.b/stream".to_string(),
        filename: None,
        total_size: 0,
        range_support: false,
    };
    let (name2, size2) = gen(&without_name, &dir);
    assert!(name2.ends_with(".unknown"));
    assert_eq!(size2, 0);
}

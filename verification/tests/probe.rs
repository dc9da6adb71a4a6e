//! The resource prober: URL validation, filename detection, size and
//! range-support decisions.

use dl::errors::UrlError;
use dl::url::{trim_trailing_slashes, HeaderParse, Headers, Url};

fn headers(pairs: &[(&str, &str)]) -> Headers {
    Headers {
        entries: pairs.iter().map(|(k, v)| (k.to_string(), v.to_string())).collect(),
    }
}

#[test]
fn content_length_parses_decimal() {
    let h = headers(&[("content-length", "1024")]);
    assert_eq!(h.content_length(), Some(1024));
    assert_eq!(headers(&[]).content_length(), None);
    assert_eq!(headers(&[("content-length", "12kb")]).content_length(), None);
    assert_eq!(headers(&[("content-length", "")]).content_length(), None);
}

#[test]
fn content_length_first_header_wins() {
    let h = headers(&[("content-length", "5"), ("content-length", "99")]);
    assert_eq!(h.content_length(), Some(5));
}

#[test]
fn disposition_filename_extracted() {
    let h = headers(&[("content-disposition", "attachment; filename=\"report.pdf\"")]);
    assert_eq!(h.parse_disposition().as_deref(), Some("report.pdf"));
    assert_eq!(headers(&[]).parse_disposition(), None);
    let bare = headers(&[("content-disposition", "inline")]);
    assert_eq!(bare.parse_disposition(), None);
}

#[test]
fn trailing_slashes_removed() {
    assert_eq!(trim_trailing_slashes("http://a.b/c///"), "http://a.b/c");
    assert_eq!(trim_trailing_slashes("http://a.b/c"), "http://a.b/c");
    assert_eq!(trim_trailing_slashes(""), "");
}

#[test]
fn last_segment_as_filename() {
    assert_eq!(
        Url::parse_url("https://site.com/path/file.tar.gz").as_deref(),
        Some("file.tar.gz")
    );
    assert_eq!(Url::parse_url("https://site.com/download").as_deref(), None);
    assert_eq!(Url::parse_url("https://site.com/a/b/c.iso").as_deref(), Some("c.iso"));
}

#[test]
fn range_support_decision_table() {
    let accept = headers(&[("accept-ranges", "bytes")]);
    assert!(Url::range_support(100, &accept, None));
    let accept_caps = headers(&[("accept-ranges", "BYTES")]);
    assert!(Url::range_support(100, &accept_caps, None), "the capability word is case-insensitive");
    let refuse = headers(&[("accept-ranges", "none")]);
    assert!(!Url::range_support(100, &refuse, None));
    // Without the advertisement the two-byte probe decides.
    let silent = headers(&[]);
    assert!(Url::range_support(100, &silent, Some(1)));
    assert!(!Url::range_support(100, &silent, Some(100)));
    assert!(!Url::range_support(100, &silent, None));
    // An unknown total size never gets ranges, whatever the server says.
    assert!(!Url::range_support(0, &accept, Some(1)));
}

#[test]
fn probe_needed_only_without_advertisement() {
    assert!(Url::needs_range_probe(100, &headers(&[])));
    assert!(!Url::needs_range_probe(100, &headers(&[("accept-ranges", "bytes")])));
    assert!(!Url::needs_range_probe(0, &headers(&[])));
}

#[test]
fn from_assembles_probe_result() {
    let h = headers(&[
        ("content-length", "500"),
        ("accept-ranges", "bytes"),
        ("content-disposition", "attachment; filename=\"movie.mkv\""),
    ]);
    let u = Url::from("https://files.example.org/movie.mkv/", &h, None).unwrap();
    assert_eq!(u.link, "https://files.example.org/movie.mkv");
    assert_eq!(u.filename.as_deref(), Some("movie.mkv"));
    assert_eq!(u.total_size, 500);
    assert!(u.range_support);
}

#[test]
fn from_falls_back_to_path_segment() {
    let h = headers(&[("content-length", "500")]);
    let u = Url::from("https://files.example.org/data.zip", &h, Some(1)).unwrap();
    assert_eq!(u.filename.as_deref(), Some("data.zip"));
    assert!(u.range_support, "the honored two-byte probe proves range support");
}

#[test]
fn unknown_length_means_no_ranges() {
    let h = headers(&[("accept-ranges", "bytes")]);
    let u = Url::from("https://files.example.org/stream.bin", &h, Some(1)).unwrap();
    assert_eq!(u.total_size, 0);
    assert!(!u.range_support, "total_size 0 forces range_support off");
}

#[test]
fn malformed_url_rejected() {
    let h = headers(&[]);
    let r = Url::from("definitely not a url!", &h, None);
    assert!(matches!(r, Err(UrlError::InvalidUrl)));
    assert_eq!(UrlError::InvalidUrl.message(), "Not a valid url");
    assert_eq!(
        UrlError::FailedRequest("timed out".to_string()).message(),
        "Couldn't reach url: timed out"
    );
}

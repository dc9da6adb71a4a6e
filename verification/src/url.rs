//! The resource prober's data model and decision logic.
//!
//! A `Url` records what one capability probe of a remote resource found:
//! the canonical link, the declared filename (if any), the total size in
//! bytes (0 when the server did not say), and whether the server honors
//! byte-range requests. The network requests themselves happen outside the
//! library; everything here works on the link text and on plain header
//! name/value pairs handed in by the caller.

use vstd::prelude::*;

use crate::strutil::{match_at, parse_dec, spec_dec_val, str_eq};

verus! {

/// The syntactic pattern a link must match before any request is made.
pub const URL_EXPRESSION: &'static str = r"/(https:\/\/www\.|http:\/\/www\.|https:\/\/|http:\/\/)?[a-zA-Z]{2,}(\.[a-zA-Z]{2,})(\.[a-zA-Z]{2,})?\/[a-zA-Z0-9]{2,}|((https:\/\/www\.|http:\/\/www\.|https:\/\/|http:\/\/)?[a-zA-Z]{2,}(\.[a-zA-Z]{2,})(\.[a-zA-Z]{2,})?)|(https:\/\/www\.|http:\/\/www\.|https:\/\/|http:\/\/)?[a-zA-Z0-9]{2,}\.[a-zA-Z0-9]{2,}\.[a-zA-Z0-9]{2,}(\.[a-zA-Z0-9]{2,})?/g";

/// The pattern a path segment must match to count as a "name.ext" filename.
pub const FILENAME_EXPRESSION: &'static str = r#"^[^\/:*?"<>|]+\.[a-zA-Z0-9]+(\.[a-zA-Z0-9]+)?$"#;

/// Whether `pat` is a pattern the regex engine accepts.
pub uninterp spec fn regex_compiles(pat: Seq<char>) -> bool;

/// Whether `text` matches the pattern `pat`; a function of the two strings
/// alone.
pub uninterp spec fn regex_match_of(pat: Seq<char>, text: Seq<char>) -> bool;

/// Relies on `regex::Regex::new` and `regex::Regex::is_match`: whether
/// `text` matches `pattern`, or `None` when the pattern itself is refused
/// by the engine.
#[verifier::external_body]
fn regex_is_match(pattern: &str, text: &str) -> (r: Option<bool>)
    ensures
        r is Some <==> regex_compiles(pattern@),
        r matches Some(m) ==> m == regex_match_of(pattern@, text@),
{
    match regex::Regex::new(pattern) {
        Ok(re) => Some(re.is_match(text)),
        Err(_) => None,
    }
}

/// The filename attribute of a Content-Disposition header value; a function
/// of the header text alone.
pub uninterp spec fn disposition_filename_of(header: Seq<char>) -> Option<Seq<char>>;

/// Relies on `content_disposition::parse_content_disposition` and
/// `ParsedContentDisposition::filename_full`: the filename parameter of the
/// header value, with quotes stripped, if one is present.
#[verifier::external_body]
fn disposition_filename(header: &str) -> (r: Option<String>)
    ensures
        match r {
            Some(f) => disposition_filename_of(header@) == Some(f@),
            None => disposition_filename_of(header@) is None,
        },
{
    content_disposition::parse_content_disposition(header).filename_full()
}

/// Response headers as plain name/value pairs. Names are expected in lower
/// case, as HTTP header names are case-insensitive and the transport layer
/// canonicalizes them that way.
pub struct Headers {
    pub entries: Vec<(String, String)>,
}

/// The value of the first header named `key`, if any.
pub open spec fn spec_header_lookup(hs: Seq<(String, String)>, key: Seq<char>) -> Option<
    Seq<char>,
>
    decreases hs.len(),
{
    if hs.len() == 0 {
        None
    } else if hs[0].0@ == key {
        Some(hs[0].1@)
    } else {
        spec_header_lookup(hs.drop_first(), key)
    }
}

/// What `content_length` returns: the first content-length value read as a
/// decimal number, or `None` when absent or unreadable.
pub open spec fn spec_content_length(hs: Seq<(String, String)>) -> Option<usize> {
    match spec_header_lookup(hs, "content-length"@) {
        None => None,
        Some(v) => if 0 <= spec_dec_val(v) <= usize::MAX {
            Some(spec_dec_val(v) as usize)
        } else {
            None
        },
    }
}

impl Headers {
    /// The value of the first header named `key`.
    pub fn get(&self, key: &str) -> (r: Option<&String>)
        ensures
            match r {
                Some(v) => spec_header_lookup(self.entries@, key@) == Some(v@),
                None => spec_header_lookup(self.entries@, key@) is None,
            },
    {
        let n = self.entries.len();
        let mut i: usize = 0;
        proof {
            assert(self.entries@.skip(0) =~= self.entries@);
        }
        while i < n
            invariant
                0 <= i <= n,
                n == self.entries@.len(),
                spec_header_lookup(self.entries@, key@) == spec_header_lookup(
                    self.entries@.skip(i as int),
                    key@,
                ),
            decreases n - i,
        {
            let ghost rest = self.entries@.skip(i as int);
            proof {
                assert(rest[0] == self.entries@[i as int]);
                assert(rest.drop_first() =~= self.entries@.skip(i + 1));
            }
            if str_eq(self.entries[i].0.as_str(), key) {
                return Some(&self.entries[i].1);
            }
            i = i + 1;
        }
        proof {
            assert(self.entries@.skip(n as int).len() == 0);
        }
        None
    }
}

/// Reads the probe-relevant headers, stated over the plain
/// header pairs.
pub trait HeaderParse {
    /// The content-length header read as a number.
    fn content_length(&self) -> (r: Option<usize>);

    /// The filename the content-disposition header declares.
    fn parse_disposition(&self) -> (r: Option<String>);
}

impl HeaderParse for Headers {
    fn content_length(&self) -> (r: Option<usize>)
        ensures
            r == spec_content_length(self.entries@),
    {
        match self.get("content-length") {
            None => None,
            Some(v) => parse_dec(v.as_str()),
        }
    }

    fn parse_disposition(&self) -> (r: Option<String>)
        ensures
            spec_header_lookup(self.entries@, "content-disposition"@) is None ==> r is None,
            spec_header_lookup(self.entries@, "content-disposition"@) matches Some(h) ==> match r {
                Some(f) => disposition_filename_of(h) == Some(f@),
                None => disposition_filename_of(h) is None,
            },
    {
        match self.get("content-disposition") {
            None => None,
            Some(v) => disposition_filename(v.as_str()),
        }
    }
}

/// `s` without its trailing slashes.
pub open spec fn spec_trim_trailing_slashes(s: Seq<char>) -> Seq<char>
    decreases s.len(),
{
    if s.len() > 0 && s.last() == '/' {
        spec_trim_trailing_slashes(s.drop_last())
    } else {
        s
    }
}

/// Removes every trailing slash from `link`.
pub fn trim_trailing_slashes(link: &str) -> (r: String)
    ensures
        r@ == spec_trim_trailing_slashes(link@),
{
    let n = link.unicode_len();
    let mut end: usize = n;
    proof {
        assert(link@.subrange(0, n as int) =~= link@);
    }
    while end > 0 && link.get_char(end - 1) == '/'
        invariant
            0 <= end <= n,
            n == link@.len(),
            spec_trim_trailing_slashes(link@) == spec_trim_trailing_slashes(
                link@.subrange(0, end as int),
            ),
        decreases end,
    {
        proof {
            assert(link@.subrange(0, end as int).drop_last() =~= link@.subrange(0, end - 1));
        }
        end = end - 1;
    }
    let kept = link.substring_char(0, end);
    proof {
        if end > 0 {
            assert(link@.subrange(0, end as int).last() == link@[end - 1]);
        }
        assert(spec_trim_trailing_slashes(link@.subrange(0, end as int)) == link@.subrange(
            0,
            end as int,
        ));
    }
    kept.to_owned()
}

/// The suffix of `s` after its last slash; all of `s` when it has none.
pub open spec fn spec_last_segment(s: Seq<char>) -> Seq<char>
    decreases s.len(),
{
    if s.len() == 0 {
        Seq::empty()
    } else if s.last() == '/' {
        Seq::empty()
    } else {
        spec_last_segment(s.drop_last()).push(s.last())
    }
}

proof fn lemma_last_segment_from(s: Seq<char>, k: int)
    requires
        0 <= k <= s.len(),
        forall|j: int| k <= j < s.len() ==> s[j] != '/',
        k == 0 || s[k - 1] == '/',
    ensures
        spec_last_segment(s) == s.subrange(k, s.len() as int),
    decreases s.len() - k,
{
    if k == s.len() {
        assert(s.subrange(k, s.len() as int).len() == 0);
        if s.len() > 0 {
            assert(s.last() == '/');
        }
        assert(spec_last_segment(s) =~= s.subrange(k, s.len() as int));
    } else {
        let t = s.drop_last();
        assert(s.last() != '/');
        assert(forall|j: int| k <= j < t.len() ==> t[j] == s[j]);
        lemma_last_segment_from(t, k);
        assert(spec_last_segment(s) == spec_last_segment(t).push(s.last()));
        assert(t.subrange(k, t.len() as int).push(s.last()) =~= s.subrange(k, s.len() as int));
    }
}

/// Whether the last path segment of `link` passes as a "name.ext"
/// filename.
pub open spec fn spec_segment_is_filename(link: Seq<char>) -> bool {
    regex_compiles(FILENAME_EXPRESSION@) && regex_match_of(
        FILENAME_EXPRESSION@,
        spec_last_segment(link),
    )
}

/// A probe result: everything `create` needs to know about the resource.
#[derive(Debug, Clone)]
pub struct Url {
    /// The canonical remote address, trailing slashes removed.
    pub link: String,
    /// The filename the server declares, or the last path segment when it
    /// looks like "name.ext"; `None` when neither is available.
    pub filename: Option<String>,
    /// The declared byte length of the resource; 0 when unknown.
    pub total_size: usize,
    /// Whether the server honors byte-range requests.
    pub range_support: bool,
}

impl Default for Url {
    fn default() -> (r: Self)
        ensures
            r.link@ == Seq::<char>::empty(),
            r.filename is None,
            r.total_size == 0,
            !r.range_support,
    {
        Url { link: String::new(), filename: None, total_size: 0, range_support: false }
    }
}

/// Whether the five characters at `i` spell "bytes" in either case.
pub open spec fn spec_bytes_token_at(s: Seq<char>, i: int) -> bool {
    &&& 0 <= i && i + 5 <= s.len()
    &&& (s[i] == 'b' || s[i] == 'B')
    &&& (s[i + 1] == 'y' || s[i + 1] == 'Y')
    &&& (s[i + 2] == 't' || s[i + 2] == 'T')
    &&& (s[i + 3] == 'e' || s[i + 3] == 'E')
    &&& (s[i + 4] == 's' || s[i + 4] == 'S')
}

/// Whether `s` contains the word "bytes", ignoring case.
pub open spec fn spec_contains_bytes(s: Seq<char>) -> bool {
    exists|i: int| spec_bytes_token_at(s, i)
}

/// Looks for the word "bytes" in a header value, ignoring case.
pub fn contains_bytes_token(s: &str) -> (r: bool)
    ensures
        r == spec_contains_bytes(s@),
{
    let n = s.unicode_len();
    if n < 5 {
        return false;
    }
    let mut i: usize = 0;
    while i <= n - 5
        invariant
            0 <= i,
            i <= n - 4,
            n == s@.len(),
            n >= 5,
            forall|j: int| 0 <= j < i ==> !spec_bytes_token_at(s@, j),
        decreases n - i,
    {
        let c0 = s.get_char(i);
        let c1 = s.get_char(i + 1);
        let c2 = s.get_char(i + 2);
        let c3 = s.get_char(i + 3);
        let c4 = s.get_char(i + 4);
        if (c0 == 'b' || c0 == 'B') && (c1 == 'y' || c1 == 'Y') && (c2 == 't' || c2 == 'T') && (c3
            == 'e' || c3 == 'E') && (c4 == 's' || c4 == 'S') {
            proof {
                assert(spec_bytes_token_at(s@, i as int));
            }
            return true;
        }
        i = i + 1;
    }
    proof {
        assert(forall|j: int| spec_bytes_token_at(s@, j) ==> 0 <= j && j + 5 <= n);
    }
    false
}

/// What the range-support decision concludes from the probe's findings:
/// `total` is the declared size, `accept` the accept-ranges header value if
/// one came back, and `probe` the content-length of the two-byte probe
/// response when one was made (`None` when it was not, or got no length).
pub open spec fn spec_range_support(
    total: usize,
    accept: Option<Seq<char>>,
    probe: Option<usize>,
) -> bool {
    if total == 0 {
        false
    } else {
        match accept {
            Some(v) => spec_contains_bytes(v),
            None => probe == Some(1usize),
        }
    }
}

impl Url {
    /// Whether deciding range support needs the two-byte probe request:
    /// only when the size is known and no accept-ranges header came back.
    pub fn needs_range_probe(total_size: usize, headers: &Headers) -> (r: bool)
        ensures
            r == (total_size != 0 && spec_header_lookup(headers.entries@, "accept-ranges"@)
                is None),
    {
        if total_size == 0 {
            return false;
        }
        match headers.get("accept-ranges") {
            Some(_) => false,
            None => true,
        }
    }

    /// Decides range support. A server advertising range acceptance is
    /// trusted only when the total size is known and non-zero; without the
    /// advertisement, the two-byte probe decides: it honored the range
    /// exactly when its content-length came back as 1.
    pub fn range_support(total_size: usize, headers: &Headers, probe: Option<usize>) -> (r: bool)
        ensures
            r == spec_range_support(
                total_size,
                spec_header_lookup(headers.entries@, "accept-ranges"@),
                probe,
            ),
    {
        if total_size == 0 {
            return false;
        }
        match headers.get("accept-ranges") {
            Some(v) => contains_bytes_token(v.as_str()),
            None => match probe {
                Some(len) => len == 1,
                None => false,
            },
        }
    }

    /// The last path segment of `link`, when it looks like a filename.
    pub fn parse_url(link: &str) -> (r: Option<String>)
        ensures
            spec_segment_is_filename(link@) <==> r is Some,
            r matches Some(f) ==> f@ == spec_last_segment(link@),
    {
        let n = link.unicode_len();
        let mut k: usize = n;
        while k > 0 && link.get_char(k - 1) != '/'
            invariant
                0 <= k <= n,
                n == link@.len(),
                forall|j: int| k <= j < n ==> link@[j] != '/',
            decreases k,
        {
            k = k - 1;
        }
        let seg = link.substring_char(k, n);
        proof {
            lemma_last_segment_from(link@, k as int);
        }
        match regex_is_match(FILENAME_EXPRESSION, seg) {
            Some(true) => Some(seg.to_owned()),
            _ => None,
        }
    }

    /// Builds the probe result from the link text, the response headers,
    /// and (when one was made) the two-byte probe's content-length.
    ///
    /// Returns `InvalidUrl` exactly when the link, trailing slashes
    /// removed, does not match the URL pattern (or the pattern itself is
    /// refused by the regex engine).
    pub fn from(link: &str, headers: &Headers, probe: Option<usize>) -> (r: Result<
        Url,
        crate::errors::UrlError,
    >)
        ensures
            (regex_compiles(URL_EXPRESSION@) && regex_match_of(
                URL_EXPRESSION@,
                spec_trim_trailing_slashes(link@),
            )) <==> r is Ok,
            r matches Ok(u) ==> {
                &&& u.link@ == spec_trim_trailing_slashes(link@)
                &&& u.total_size == match spec_content_length(headers.entries@) {
                    Some(n) => n,
                    None => 0usize,
                }
                &&& u.range_support == spec_range_support(
                    u.total_size,
                    spec_header_lookup(headers.entries@, "accept-ranges"@),
                    probe,
                )
                &&& (u.total_size == 0 ==> !u.range_support)
                &&& match spec_header_lookup(headers.entries@, "content-disposition"@) {
                    Some(h) => match u.filename {
                        Some(f) => disposition_filename_of(h) == Some(f@) || (disposition_filename_of(h) is None
                            && f@ == spec_last_segment(u.link@) && spec_segment_is_filename(
                            u.link@,
                        )),
                        None => disposition_filename_of(h) is None && !spec_segment_is_filename(
                            u.link@,
                        ),
                    },
                    None => match u.filename {
                        Some(f) => f@ == spec_last_segment(u.link@) && spec_segment_is_filename(
                            u.link@,
                        ),
                        None => !spec_segment_is_filename(u.link@),
                    },
                }
            },
            r matches Err(e) ==> e is InvalidUrl,
    {
        let trimmed = trim_trailing_slashes(link);
        match regex_is_match(URL_EXPRESSION, trimmed.as_str()) {
            Some(true) => {},
            _ => {
                return Err(crate::errors::UrlError::InvalidUrl);
            },
        }
        let filename = match headers.parse_disposition() {
            Some(f) => Some(f),
            None => Url::parse_url(trimmed.as_str()),
        };
        let total_size = match headers.content_length() {
            Some(n) => n,
            None => 0,
        };
        let range_support = Url::range_support(total_size, headers, probe);
        Ok(Url { link: trimmed, filename, total_size, range_support })
    }
}

/// A server that does not declare a total size never gets range requests:
/// without a length there is no valid upper bound for a ranged window.
pub proof fn lemma_unknown_size_no_ranges(accept: Option<Seq<char>>, probe: Option<usize>)
    ensures
        !spec_range_support(0, accept, probe),
{
}

} // verus!

//! Naming and conflict resolution, over a plain model of the destination
//! directory.
//!
//! The resolver never touches the filesystem: the caller hands it the
//! directory listing as a vector of entries, each carrying the file's
//! name, its size, and the contents of its sidecar if one lies beside it.
//! Given that listing and a probe result, `gen` decides the on-disk name:
//! reuse a matching partial file (the resume path), or disambiguate with
//! an incrementing numeric suffix before the extension, checking resume
//! eligibility again at every candidate.

use vstd::prelude::*;

use crate::file2dl::File2Dl;
use crate::strutil::{append_usize, push_char, spec_digits, str_eq};
use crate::tmp::{parse_sidecar, spec_parse_sidecar, State};
use crate::url::Url;

verus! {

/// The characters a generated filename draws from.
pub const CHARSET: &'static str = "abcdefghijklmnopqrstuvwxyz0123456789";

/// One entry of the destination directory's listing: a file's name and
/// size, and the contents of its paired sidecar when one exists.
#[derive(Debug, Clone)]
pub struct DirEntry {
    pub name: String,
    pub size: usize,
    pub sidecar: Option<String>,
}

/// The first entry named `name`, if any.
pub open spec fn spec_find(dir: Seq<DirEntry>, name: Seq<char>) -> Option<DirEntry>
    decreases dir.len(),
{
    if dir.len() == 0 {
        None
    } else if dir[0].name@ == name {
        Some(dir[0])
    } else {
        spec_find(dir.drop_first(), name)
    }
}

/// Whether some entry bears `name`.
pub open spec fn spec_occupied(dir: Seq<DirEntry>, name: Seq<char>) -> bool {
    spec_find(dir, name) is Some
}

/// Whether an existing partial file may be resumed for this source: it is
/// strictly smaller than the declared total, and its sidecar agrees on the
/// link and the total and records the transfer as incomplete.
pub open spec fn spec_resumable(e: DirEntry, link: Seq<char>, total_size: usize) -> bool {
    &&& e.size < total_size
    &&& match e.sidecar {
        Some(text) => match spec_parse_sidecar(text@) {
            Some(p) => p.0.link == link && p.0.total_size == total_size && p.0.state
                is Incomplete,
            None => false,
        },
        None => false,
    }
}

/// A name that is taken and cannot be resumed: the resolver must move on
/// to the next candidate.
pub open spec fn spec_blocked(
    dir: Seq<DirEntry>,
    link: Seq<char>,
    total_size: usize,
    name: Seq<char>,
) -> bool {
    match spec_find(dir, name) {
        Some(e) => !spec_resumable(e, link, total_size),
        None => false,
    }
}

/// What a correct resolution looks like: the chosen name is either free on
/// disk (a fresh download starting at byte 0) or resumable with exactly
/// the bytes it already holds.
pub open spec fn spec_target_ok(
    dir: Seq<DirEntry>,
    link: Seq<char>,
    total_size: usize,
    name: Seq<char>,
    size: usize,
) -> bool {
    match spec_find(dir, name) {
        None => size == 0,
        Some(e) => spec_resumable(e, link, total_size) && size == e.size,
    }
}

/// The position of the first dot in `s`, or its length when it has none.
pub open spec fn spec_dot_index(s: Seq<char>) -> int
    decreases s.len(),
{
    if s.len() == 0 {
        0
    } else if s[0] == '.' {
        0
    } else {
        1 + spec_dot_index(s.drop_first())
    }
}

/// `filename` with `_k` inserted before its extension (or appended, when
/// it has no dot).
pub open spec fn spec_suffixed(filename: Seq<char>, k: nat) -> Seq<char> {
    let d = spec_dot_index(filename);
    filename.take(d) + seq!['_'] + spec_digits(k) + filename.skip(d)
}

proof fn lemma_dot_index_range(s: Seq<char>)
    ensures
        0 <= spec_dot_index(s) <= s.len(),
        spec_dot_index(s) < s.len() ==> s[spec_dot_index(s)] == '.',
        forall|j: int| 0 <= j < spec_dot_index(s) ==> s[j] != '.',
    decreases s.len(),
{
    if s.len() == 0 {
    } else if s[0] == '.' {
    } else {
        lemma_dot_index_range(s.drop_first());
        assert forall|j: int| 0 <= j < spec_dot_index(s) implies s[j] != '.' by {
            if j > 0 {
                assert(s.drop_first()[j - 1] == s[j]);
                assert(s.drop_first()[j - 1] != '.');
            }
        }
    }
}

/// Distinct counters give distinct candidate names.
proof fn lemma_suffixed_injective(filename: Seq<char>, k1: nat, k2: nat)
    requires
        spec_suffixed(filename, k1) == spec_suffixed(filename, k2),
    ensures
        k1 == k2,
{
    lemma_dot_index_range(filename);
    let d = spec_dot_index(filename);
    let d1 = spec_digits(k1);
    let d2 = spec_digits(k2);
    let s1 = spec_suffixed(filename, k1);
    let s2 = spec_suffixed(filename, k2);
    crate::strutil::lemma_spec_digits_are_digits(k1);
    crate::strutil::lemma_spec_digits_are_digits(k2);
    assert(s1.len() == d + 1 + d1.len() + (filename.len() - d));
    assert(s2.len() == d + 1 + d2.len() + (filename.len() - d));
    assert(d1.len() == d2.len());
    assert(d1 =~= s1.subrange(d + 1, d + 1 + d1.len() as int));
    assert(d2 =~= s2.subrange(d + 1, d + 1 + d2.len() as int));
    crate::strutil::lemma_dec_val_of_digits(k1);
    crate::strutil::lemma_dec_val_of_digits(k2);
}

/// A found name has an index in the listing.
proof fn lemma_find_some_index(dir: Seq<DirEntry>, name: Seq<char>)
    ensures
        spec_find(dir, name) is Some ==> exists|i: int|
            0 <= i < dir.len() && (#[trigger] dir[i].name)@ == name,
    decreases dir.len(),
{
    if dir.len() > 0 && dir[0].name@ != name {
        lemma_find_some_index(dir.drop_first(), name);
        if spec_find(dir, name) is Some {
            let i = choose|i: int|
                0 <= i < dir.drop_first().len() && (#[trigger] dir.drop_first()[i].name)@ == name;
            assert(dir[i + 1].name@ == name);
        }
    }
}

/// At most `dir.len()` distinct candidate names can be taken: the counter
/// of the suffix search never runs past the listing's length.
proof fn lemma_candidates_bounded(
    dir: Seq<DirEntry>,
    filename: Seq<char>,
    k: int,
)
    requires
        2 <= k,
        forall|j: int|
            2 <= j < k ==> spec_occupied(dir, #[trigger] spec_suffixed(filename, j as nat)),
    ensures
        k - 2 <= dir.len(),
{
    let x = vstd::set_lib::set_int_range(2, k);
    vstd::set_lib::lemma_int_range(2, k);
    let f = |j: int|
        choose|i: int|
            0 <= i < dir.len() && (#[trigger] dir[i].name)@ == spec_suffixed(filename, j as nat);
    assert forall|j: int| x.contains(j) implies 0 <= #[trigger] f(j) < dir.len() && dir[f(
        j,
    )].name@ == spec_suffixed(filename, j as nat) by {
        lemma_find_some_index(dir, spec_suffixed(filename, j as nat));
    }
    assert forall|j1: int, j2: int|
        x.contains(j1) && x.contains(j2) && #[trigger] f(j1) == #[trigger] f(
            j2,
        ) implies j1 == j2 by {
        lemma_find_some_index(dir, spec_suffixed(filename, j1 as nat));
        lemma_find_some_index(dir, spec_suffixed(filename, j2 as nat));
        lemma_suffixed_injective(filename, j1 as nat, j2 as nat);
    }
    assert(vstd::relations::injective_on(f, x));
    let y = x.map(f);
    vstd::set_lib::lemma_map_size(x, y, f);
    let idxs = vstd::set_lib::set_int_range(0, dir.len() as int);
    vstd::set_lib::lemma_int_range(0, dir.len() as int);
    assert forall|a: int| y.contains(a) implies idxs.contains(a) by {
        let j = choose|j: int| x.contains(j) && #[trigger] f(j) == a;
        assert(0 <= f(j) < dir.len());
    }
    assert(y.subset_of(idxs));
    vstd::set_lib::lemma_len_subset(y, idxs);
}

/// The first entry named `name`, if any.
pub fn find_entry<'a>(dir: &'a Vec<DirEntry>, name: &str) -> (r: Option<&'a DirEntry>)
    ensures
        match r {
            Some(e) => spec_find(dir@, name@) == Some(*e),
            None => spec_find(dir@, name@) is None,
        },
{
    let n = dir.len();
    let mut i: usize = 0;
    proof {
        assert(dir@.skip(0) =~= dir@);
    }
    while i < n
        invariant
            0 <= i <= n,
            n == dir@.len(),
            spec_find(dir@, name@) == spec_find(dir@.skip(i as int), name@),
        decreases n - i,
    {
        proof {
            assert(dir@.skip(i as int)[0] == dir@[i as int]);
            assert(dir@.skip(i as int).drop_first() =~= dir@.skip(i + 1));
        }
        if str_eq(dir[i].name.as_str(), name) {
            return Some(&dir[i]);
        }
        i = i + 1;
    }
    proof {
        assert(dir@.skip(n as int).len() == 0);
    }
    None
}

/// Whether this entry is a partial file of the given source that may be
/// resumed.
pub fn entry_resumable(e: &DirEntry, link: &str, total_size: usize) -> (r: bool)
    ensures
        r == spec_resumable(*e, link@, total_size),
{
    if e.size >= total_size {
        return false;
    }
    match &e.sidecar {
        None => false,
        Some(text) => match parse_sidecar(text.as_str()) {
            None => false,
            Some(p) => str_eq(p.0.link.as_str(), link) && p.0.total_size == total_size && match p
                .0
                .state {
                State::Incomplete => true,
                State::Complete => false,
            },
        },
    }
}

/// `filename` with `_k` inserted before the extension.
pub fn suffixed_name(filename: &str, k: usize) -> (r: String)
    ensures
        r@ == spec_suffixed(filename@, k as nat),
{
    let n = filename.unicode_len();
    let mut d: usize = 0;
    while d < n && filename.get_char(d) != '.'
        invariant
            0 <= d <= n,
            n == filename@.len(),
            forall|j: int| 0 <= j < d ==> filename@[j] != '.',
        decreases n - d,
    {
        d = d + 1;
    }
    proof {
        lemma_dot_index_check(filename@, d as int);
    }
    let mut out = filename.substring_char(0, d).to_owned();
    push_char(&mut out, '_');
    append_usize(&mut out, k);
    let tail = filename.substring_char(d, n);
    out.append(tail);
    proof {
        assert(out@ =~= spec_suffixed(filename@, k as nat));
    }
    out
}

proof fn lemma_dot_index_check(s: Seq<char>, d: int)
    requires
        0 <= d <= s.len(),
        forall|j: int| 0 <= j < d ==> s[j] != '.',
        d == s.len() || s[d] == '.',
    ensures
        spec_dot_index(s) == d,
    decreases d,
{
    if d == 0 {
    } else {
        assert(s[0] != '.');
        let t = s.drop_first();
        assert(forall|j: int| 0 <= j < d - 1 ==> t[j] == s[j + 1]);
        if d - 1 < t.len() {
            assert(t[d - 1] == s[d]);
        }
        lemma_dot_index_check(t, d - 1);
    }
}

/// Resolves the on-disk name when the probe declared a filename. Reuses
/// the declared name when a matching partial file can be resumed (the
/// second component is then its size, the resume offset); otherwise tries
/// `name_2.ext`, `name_3.ext`, ... — checking resume eligibility again at
/// each candidate — and settles on the first name that is free or
/// resumable.
pub fn gen_if_name_some(link: &str, dir: &Vec<DirEntry>, filename: &str, total_size: usize) -> (r:
    (String, usize))
    requires
        dir@.len() + 2 < usize::MAX,
    ensures
        spec_target_ok(dir@, link@, total_size, r.0@, r.1),
        r.0@ == filename@ || (spec_blocked(dir@, link@, total_size, filename@) && exists|k: int|
            2 <= k && r.0@ == #[trigger] spec_suffixed(filename@, k as nat) && (forall|j: int|
                2 <= j < k ==> spec_blocked(
                    dir@,
                    link@,
                    total_size,
                    #[trigger] spec_suffixed(filename@, j as nat),
                ))),
{
    match find_entry(dir, filename) {
        None => {
            return (filename.to_owned(), 0);
        },
        Some(e) => {
            if entry_resumable(e, link, total_size) {
                let size = e.size;
                return (filename.to_owned(), size);
            }
        },
    }
    let mut k: usize = 2;
    loop
        invariant
            2 <= k,
            k - 2 <= dir@.len(),
            dir@.len() + 2 < usize::MAX,
            spec_blocked(dir@, link@, total_size, filename@),
            forall|j: int|
                2 <= j < k ==> spec_blocked(
                    dir@,
                    link@,
                    total_size,
                    #[trigger] spec_suffixed(filename@, j as nat),
                ),
        decreases dir@.len() + 2 - k,
    {
        let cand = suffixed_name(filename, k);
        match find_entry(dir, cand.as_str()) {
            None => {
                proof {
                    let kk = k as int;
                    assert(2 <= kk && cand@ == spec_suffixed(filename@, kk as nat) && (forall|
                        j: int,
                    |
                        2 <= j < kk ==> spec_blocked(
                            dir@,
                            link@,
                            total_size,
                            #[trigger] spec_suffixed(filename@, j as nat),
                        )));
                    assert(exists|k2: int|
                        2 <= k2 && cand@ == #[trigger] spec_suffixed(filename@, k2 as nat) && (
                        forall|j: int|
                            2 <= j < k2 ==> spec_blocked(
                                dir@,
                                link@,
                                total_size,
                                #[trigger] spec_suffixed(filename@, j as nat),
                            )));
                }
                return (cand, 0);
            },
            Some(e) => {
                if entry_resumable(e, link, total_size) {
                    let size = e.size;
                proof {
                    let kk = k as int;
                    assert(2 <= kk && cand@ == spec_suffixed(filename@, kk as nat) && (forall|
                        j: int,
                    |
                        2 <= j < kk ==> spec_blocked(
                            dir@,
                            link@,
                            total_size,
                            #[trigger] spec_suffixed(filename@, j as nat),
                        )));
                    assert(exists|k2: int|
                        2 <= k2 && cand@ == #[trigger] spec_suffixed(filename@, k2 as nat) && (
                        forall|j: int|
                            2 <= j < k2 ==> spec_blocked(
                                dir@,
                                link@,
                                total_size,
                                #[trigger] spec_suffixed(filename@, j as nat),
                            )));
                }
                    return (cand, size);
                }
            },
        }
        k = k + 1;
        proof {
            lemma_candidates_bounded(dir@, filename@, k as int);
        }
    }
}

/// Relies on `random_string::generate`: a string of `length` characters,
/// each drawn from `charset`. It panics on an empty charset, so that
/// input is excluded.
#[verifier::external_body]
fn random_token(length: usize, charset: &str) -> (r: String)
    requires
        charset@.len() > 0,
    ensures
        r@.len() == length,
        forall|i: int| 0 <= i < r@.len() ==> charset@.contains(#[trigger] r@[i]),
{
    random_string::generate(length, charset)
}

/// Resolves the on-disk name when the probe declared none: a short random
/// token with a generic extension, regenerated while it collides with an
/// existing name. Should the randomness keep colliding, the last token is
/// disambiguated with a numeric suffix instead. Either way the result is
/// free on disk and carries the generic extension.
pub fn gen_if_name_none(dir: &Vec<DirEntry>) -> (r: (String, usize))
    requires
        dir@.len() + 2 < usize::MAX,
    ensures
        !spec_occupied(dir@, r.0@),
        r.1 == 0,
        r.0@.len() > ".unknown"@.len(),
        r.0@.skip(r.0@.len() - ".unknown"@.len()) == ".unknown"@,
{
    proof {
        reveal_strlit("abcdefghijklmnopqrstuvwxyz0123456789");
        reveal_strlit(".unknown");
    }
    let mut tries: usize = 0;
    let mut name = random_token(8, CHARSET);
    proof {
        lemma_charset_has_no_dot(name@);
    }
    name.append(".unknown");
    loop
        invariant
            tries <= dir@.len(),
            dir@.len() + 2 < usize::MAX,
            name@.len() == 8 + ".unknown"@.len(),
            name@.skip(8) == ".unknown"@,
            forall|j: int| 0 <= j < 8 ==> name@[j] != '.',
        decreases dir@.len() - tries,
    {
        match find_entry(dir, name.as_str()) {
            None => {
                proof {
                    assert(name@.skip(name@.len() - ".unknown"@.len()) == name@.skip(8));
                }
                return (name, 0);
            },
            Some(_) => {},
        }
        if tries >= dir.len() {
            break ;
        }
        tries = tries + 1;
        proof {
            reveal_strlit("abcdefghijklmnopqrstuvwxyz0123456789");
            reveal_strlit(".unknown");
        }
        name = random_token(8, CHARSET);
        proof {
            lemma_charset_has_no_dot(name@);
        }
        name.append(".unknown");
    }
    let ghost stem = name@;
    proof {
        reveal_strlit(".unknown");
        assert(stem[8] == stem.skip(8)[0]);
        lemma_dot_index_check(stem, 8);
    }
    let mut k: usize = 2;
    loop
        invariant
            2 <= k,
            k - 2 <= dir@.len(),
            dir@.len() + 2 < usize::MAX,
            stem == name@,
            stem.len() == 8 + ".unknown"@.len(),
            stem.skip(8) == ".unknown"@,
            spec_dot_index(stem) == 8,
            forall|j: int|
                2 <= j < k ==> spec_occupied(dir@, #[trigger] spec_suffixed(stem, j as nat)),
        decreases dir@.len() + 2 - k,
    {
        let cand = suffixed_name(name.as_str(), k);
        match find_entry(dir, cand.as_str()) {
            None => {
                proof {
                    crate::strutil::lemma_spec_digits_are_digits(k as nat);
                    assert(cand@.skip(cand@.len() - ".unknown"@.len()) =~= stem.skip(8));
                }
                return (cand, 0);
            },
            Some(_) => {},
        }
        k = k + 1;
        proof {
            lemma_candidates_bounded(dir@, stem, k as int);
        }
    }
}

/// A token drawn from the filename charset holds no dot.
proof fn lemma_charset_has_no_dot(token: Seq<char>)
    requires
        forall|i: int| 0 <= i < token.len() ==> "abcdefghijklmnopqrstuvwxyz0123456789"@.contains(
            #[trigger] token[i],
        ),
    ensures
        forall|i: int| 0 <= i < token.len() ==> token[i] != '.',
{
    reveal_strlit("abcdefghijklmnopqrstuvwxyz0123456789");
    let cs = "abcdefghijklmnopqrstuvwxyz0123456789"@;
    assert(forall|i: int| 0 <= i < cs.len() ==> cs[i] != '.');
    assert forall|i: int| 0 <= i < token.len() implies token[i] != '.' by {
        if token[i] == '.' {
            let j = choose|j: int| 0 <= j < cs.len() && cs[j] == token[i];
        }
    }
}

/// Resolves the on-disk name for a probe result: by the declared filename
/// when there is one, by a generated token otherwise. The second component
/// is the resume offset: the existing partial file's size on the resume
/// path, 0 for a fresh download.
pub fn gen(url: &Url, dir: &Vec<DirEntry>) -> (r: (String, usize))
    requires
        dir@.len() + 2 < usize::MAX,
    ensures
        match url.filename {
            Some(f) => spec_target_ok(dir@, url.link@, url.total_size, r.0@, r.1) && (r.0@ == f@
                || spec_blocked(dir@, url.link@, url.total_size, f@)),
            None => !spec_occupied(dir@, r.0@) && r.1 == 0,
        },
{
    match &url.filename {
        Some(f) => gen_if_name_some(url.link.as_str(), dir, f.as_str(), url.total_size),
        None => gen_if_name_none(dir),
    }
}

/// The value of the Range header for the next request: from the bytes
/// already on disk to the declared total, inclusive.
pub open spec fn spec_range_header(from: usize, to: usize) -> Seq<char> {
    "bytes="@ + spec_digits(from as nat) + "-"@ + spec_digits(to as nat)
}

/// Plans the next request for a session: the Range header value for a
/// ranged fetch starting at the resume offset and never asking past the
/// declared total, or `None` when the server does not support ranges and
/// the whole body must be streamed unranged.
pub fn init_req(f2dl: &File2Dl) -> (r: Option<String>)
    ensures
        f2dl.url.range_support ==> (r matches Some(h) && h@ == spec_range_header(
            f2dl.size_on_disk,
            f2dl.url.total_size,
        )),
        !f2dl.url.range_support ==> r is None,
{
    if f2dl.url.range_support {
        let mut h = "bytes=".to_owned();
        append_usize(&mut h, f2dl.size_on_disk);
        h.append("-");
        append_usize(&mut h, f2dl.url.total_size);
        proof {
            assert(h@ =~= spec_range_header(f2dl.size_on_disk, f2dl.url.total_size));
        }
        Some(h)
    } else {
        None
    }
}

} // verus!

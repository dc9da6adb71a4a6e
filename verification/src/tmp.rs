//! The sidecar metadata record and its on-disk text format.
//!
//! For every managed file whose server supports byte ranges, a hidden
//! sidecar file records the source link, the declared filename, the total
//! size and the completion state, so that a partial file can be resumed
//! after a restart. The record is stored as a single flat JSON object with
//! a fixed key order; strings escape `"` and `\` with a backslash. Both
//! directions of the codec are verified against the same specification,
//! and `lemma_sidecar_round_trip` proves that parsing recovers exactly
//! what was written.

use vstd::prelude::*;

use crate::errors::DirectoryError;
use crate::strutil::{
    char_to_digit,
    digit_val,
    match_at,
    parse_dec_range,
    push_char,
    spec_dec_val,
    spec_digits,
    append_usize,
};

verus! {

/// The completion state a sidecar records.
#[derive(Debug, Clone, Copy, PartialEq, Eq, Structural)]
pub enum State {
    Incomplete,
    Complete,
}

/// One sidecar record: enough to decide whether a partial file belongs to
/// a given source and where its transfer stood at the last checkpoint.
#[derive(Debug, Clone)]
pub struct MetaData {
    pub filename: String,
    pub link: String,
    pub total_size: usize,
    pub state: State,
}

/// The mathematical content of a `MetaData` value.
pub struct MetaDataView {
    pub filename: Seq<char>,
    pub link: Seq<char>,
    pub total_size: usize,
    pub state: State,
}

impl View for MetaData {
    type V = MetaDataView;

    open spec fn view(&self) -> MetaDataView {
        MetaDataView {
            filename: self.filename@,
            link: self.link@,
            total_size: self.total_size,
            state: self.state,
        }
    }
}

/// A string with no control characters; links and filenames are expected
/// to be of this kind, and only such strings round-trip through the
/// sidecar text unchanged.
pub open spec fn ctrl_free(s: Seq<char>) -> bool {
    forall|i: int| 0 <= i < s.len() ==> (#[trigger] s[i]) as u32 >= 32
}

/// The escaped form of `s` inside a JSON string: `"` and `\` get a
/// backslash, everything else stands as itself.
pub open spec fn spec_escape(s: Seq<char>) -> Seq<char>
    decreases s.len(),
{
    if s.len() == 0 {
        Seq::empty()
    } else {
        let head = if s[0] == '"' {
            seq!['\\', '"']
        } else if s[0] == '\\' {
            seq!['\\', '\\']
        } else {
            seq![s[0]]
        };
        head + spec_escape(s.drop_first())
    }
}

/// Escaping distributes over concatenation.
proof fn lemma_escape_concat(a: Seq<char>, b: Seq<char>)
    ensures
        spec_escape(a + b) == spec_escape(a) + spec_escape(b),
    decreases a.len(),
{
    if a.len() == 0 {
        assert(a + b =~= b);
        assert(spec_escape(a) + spec_escape(b) =~= spec_escape(b));
    } else {
        assert((a + b).drop_first() =~= a.drop_first() + b);
        lemma_escape_concat(a.drop_first(), b);
        let head = if a[0] == '"' {
            seq!['\\', '"']
        } else if a[0] == '\\' {
            seq!['\\', '\\']
        } else {
            seq![a[0]]
        };
        assert((a + b)[0] == a[0]);
        assert(head + (spec_escape(a.drop_first()) + spec_escape(b)) =~= (head + spec_escape(
            a.drop_first(),
        )) + spec_escape(b));
    }
}

/// A string without quotes, backslashes or control characters escapes to
/// itself.
proof fn lemma_escape_identity(s: Seq<char>)
    requires
        forall|i: int| 0 <= i < s.len() ==> s[i] != '"' && s[i] != '\\',
        ctrl_free(s),
    ensures
        spec_escape(s) == s,
    decreases s.len(),
{
    if s.len() == 0 {
        assert(spec_escape(s) =~= s);
    } else {
        lemma_escape_identity(s.drop_first());
        assert(seq![s[0]] + s.drop_first() =~= s);
    }
}

/// Appends the escaped form of `s` to `out`.
pub fn append_escaped(out: &mut String, s: &str)
    ensures
        final (out)@ == old(out)@ + spec_escape(s@),
{
    let n = s.unicode_len();
    let mut i: usize = 0;
    proof {
        assert(s@.subrange(0, 0) =~= Seq::<char>::empty());
        assert(spec_escape(Seq::<char>::empty()) =~= Seq::<char>::empty());
        assert(old(out)@ + Seq::<char>::empty() =~= old(out)@);
    }
    while i < n
        invariant
            0 <= i <= n,
            n == s@.len(),
            out@ == old(out)@ + spec_escape(s@.subrange(0, i as int)),
        decreases n - i,
    {
        let c = s.get_char(i);
        let ghost pre = s@.subrange(0, i as int);
        if c == '"' {
            push_char(out, '\\');
            push_char(out, '"');
        } else if c == '\\' {
            push_char(out, '\\');
            push_char(out, '\\');
        } else {
            push_char(out, c);
        }
        proof {
            assert(s@.subrange(0, i + 1) =~= pre + seq![c]);
            lemma_escape_concat(pre, seq![c]);
            assert(seq![c].drop_first() =~= Seq::<char>::empty());
            assert(spec_escape(Seq::<char>::empty()) =~= Seq::<char>::empty());
            if c == '"' {
                assert(spec_escape(seq![c]) =~= seq!['\\', '"']);
                assert(out@ =~= old(out)@ + spec_escape(s@.subrange(0, i + 1)));
            } else if c == '\\' {
                assert(spec_escape(seq![c]) =~= seq!['\\', '\\']);
                assert(out@ =~= old(out)@ + spec_escape(s@.subrange(0, i + 1)));
            } else {
                assert(spec_escape(seq![c]) =~= seq![c]);
                assert(out@ =~= old(out)@ + spec_escape(s@.subrange(0, i + 1)));
            }
        }
        i = i + 1;
    }
    proof {
        assert(s@.subrange(0, n as int) =~= s@);
    }
}

/// Parses the body of a JSON string (everything after the opening quote)
/// at the front of `t`: the decoded content and the number of characters
/// consumed, the closing quote included. Rejects raw control characters,
/// escapes other than `\"` and `\\`, and an unterminated body.
pub open spec fn spec_parse_string_body(t: Seq<char>) -> Option<(Seq<char>, int)>
    decreases t.len(),
{
    if t.len() == 0 {
        None
    } else if t[0] == '"' {
        Some((Seq::empty(), 1))
    } else if t[0] == '\\' {
        if t.len() >= 2 && (t[1] == '"' || t[1] == '\\') {
            match spec_parse_string_body(t.skip(2)) {
                None => None,
                Some((c, n)) => Some((seq![t[1]] + c, n + 2)),
            }
        } else {
            None
        }
    } else if (t[0] as u32) < 32 {
        None
    } else {
        match spec_parse_string_body(t.skip(1)) {
            None => None,
            Some((c, n)) => Some((seq![t[0]] + c, n + 1)),
        }
    }
}

/// Parses a JSON string body starting at `at` (just past the opening
/// quote). Returns the content and the index just past the closing quote.
pub fn parse_string_body(s: &str, at: usize) -> (r: Option<(String, usize)>)
    requires
        at <= s@.len(),
    ensures
        match r {
            Some(p) => at < p.1 <= s@.len() && spec_parse_string_body(s@.skip(at as int)) == Some(
                (p.0@, p.1 - at as int),
            ),
            None => spec_parse_string_body(s@.skip(at as int)) is None,
        },
{
    let n = s.unicode_len();
    let mut content = String::new();
    let mut i: usize = at;
    loop
        invariant
            at <= i <= n,
            n == s@.len(),
            match spec_parse_string_body(s@.skip(i as int)) {
                None => spec_parse_string_body(s@.skip(at as int)) is None,
                Some(p) => spec_parse_string_body(s@.skip(at as int)) == Some(
                    (content@ + p.0, (i - at) + p.1),
                ),
            },
        decreases n - i,
    {
        if i == n {
            proof {
                assert(s@.skip(i as int).len() == 0);
            }
            return None;
        }
        let ghost rest = s@.skip(i as int);
        proof {
            assert(rest[0] == s@[i as int]);
            assert(rest.len() == n - i);
        }
        let c = s.get_char(i);
        if c == '"' {
            proof {
                assert(spec_parse_string_body(rest) == Some((Seq::<char>::empty(), 1int)));
                assert(content@ + Seq::<char>::empty() =~= content@);
            }
            return Some((content, i + 1));
        } else if c == '\\' {
            if i + 1 == n {
                proof {
                    assert(spec_parse_string_body(rest) is None);
                }
                return None;
            }
            let e = s.get_char(i + 1);
            proof {
                assert(rest[1] == s@[i + 1]);
            }
            if e == '"' || e == '\\' {
                let ghost prev = content@;
                push_char(&mut content, e);
                proof {
                    assert(rest.skip(2) =~= s@.skip(i + 2));
                    assert(content@ =~= prev + seq![e]);
                    assert forall|c: Seq<char>| prev + seq![e] + c =~= prev + (seq![e] + c) by {}
                }
                i = i + 2;
            } else {
                proof {
                    assert(spec_parse_string_body(rest) is None);
                }
                return None;
            }
        } else if (c as u32) < 32 {
            proof {
                assert(spec_parse_string_body(rest) is None);
            }
            return None;
        } else {
            let ghost prev = content@;
            push_char(&mut content, c);
            proof {
                assert(rest.skip(1) =~= s@.skip(i + 1));
                assert(content@ =~= prev + seq![c]);
                assert forall|cc: Seq<char>| prev + seq![c] + cc =~= prev + (seq![c] + cc) by {}
            }
            i = i + 1;
        }
    }
}

/// The count of decimal digits at the front of `t`.
pub open spec fn spec_digit_prefix_len(t: Seq<char>) -> int
    decreases t.len(),
{
    if t.len() == 0 || digit_val(t[0]) < 0 {
        0
    } else {
        1 + spec_digit_prefix_len(t.drop_first())
    }
}

proof fn lemma_digit_prefix_len(t: Seq<char>, l: int)
    requires
        0 <= l <= t.len(),
        forall|j: int| 0 <= j < l ==> digit_val(t[j]) >= 0,
        l == t.len() || digit_val(t[l]) < 0,
    ensures
        spec_digit_prefix_len(t) == l,
    decreases l,
{
    if l == 0 {
    } else {
        assert(digit_val(t[0]) >= 0);
        let u = t.drop_first();
        assert(forall|j: int| 0 <= j < l - 1 ==> u[j] == t[j + 1]);
        if l - 1 < u.len() {
            assert(u[l - 1] == t[l]);
        }
        lemma_digit_prefix_len(u, l - 1);
    }
}

/// A non-empty all-digit text denotes a number.
proof fn lemma_digits_nonneg(t: Seq<char>)
    requires
        t.len() >= 1,
        forall|j: int| 0 <= j < t.len() ==> digit_val(t[j]) >= 0,
    ensures
        spec_dec_val(t) >= 0,
    decreases t.len(),
{
    if t.len() > 1 {
        lemma_digits_nonneg(t.drop_last());
    }
}

/// Parses the number at the front of `t`: its value and the count of
/// digits consumed. `None` when no digit leads `t` or the value does not
/// fit in `usize`.
pub open spec fn spec_parse_number(t: Seq<char>) -> Option<(usize, int)> {
    let l = spec_digit_prefix_len(t);
    if l == 0 {
        None
    } else {
        let v = spec_dec_val(t.take(l));
        if 0 <= v <= usize::MAX {
            Some((v as usize, l))
        } else {
            None
        }
    }
}

/// Parses a decimal number starting at `at`; returns the value and the
/// index just past its last digit.
pub fn parse_number(s: &str, at: usize) -> (r: Option<(usize, usize)>)
    requires
        at <= s@.len(),
    ensures
        match r {
            Some(p) => at < p.1 <= s@.len() && spec_parse_number(s@.skip(at as int)) == Some(
                (p.0, p.1 - at as int),
            ),
            None => spec_parse_number(s@.skip(at as int)) is None,
        },
{
    let n = s.unicode_len();
    let ghost rest = s@.skip(at as int);
    let mut j: usize = at;
    loop
        invariant_except_break
            at <= j <= n,
            n == s@.len(),
            rest == s@.skip(at as int),
            forall|k: int| 0 <= k < j - at ==> digit_val(rest[k]) >= 0,
        ensures
            at <= j <= n,
            n == s@.len(),
            forall|k: int| 0 <= k < j - at ==> digit_val(rest[k]) >= 0,
            j == n || digit_val(rest[j - at]) < 0,
        decreases n - j,
    {
        if j == n {
            break ;
        }
        let c = s.get_char(j);
        proof {
            assert(rest[j - at] == s@[j as int]);
        }
        if char_to_digit(c) == 10 {
            break ;
        }
        j = j + 1;
    }
    proof {
        lemma_digit_prefix_len(rest, j - at);
    }
    if j == at {
        return None;
    }
    proof {
        assert(rest.take(j - at) =~= s@.subrange(at as int, j as int));
        lemma_digits_nonneg(rest.take(j - at));
    }
    match parse_dec_range(s, at, j) {
        Some(v) => Some((v, j)),
        None => None,
    }
}

/// The text naming a completion state inside the record.
pub open spec fn spec_state_name(st: State) -> Seq<char> {
    if st is Complete {
        "Complete"@
    } else {
        "Incomplete"@
    }
}

/// The sidecar text for a record and a bandwidth limit: one flat JSON
/// object with the keys in a fixed order.
pub open spec fn spec_sidecar_json(mv: MetaDataView, bandwidth: usize) -> Seq<char> {
    "{\"filename\":\""@ + spec_escape(mv.filename) + "\""@ + ",\"link\":\""@ + spec_escape(mv.link)
        + "\""@ + ",\"total_size\":"@ + spec_digits(mv.total_size as nat) + ",\"state\":\""@
        + spec_escape(spec_state_name(mv.state)) + "\""@ + ",\"bandwidth\":"@ + spec_digits(
        bandwidth as nat,
    ) + "}"@
}

/// `t` with the literal `lit` removed from its front, or `None` when `t`
/// does not start with `lit`.
pub open spec fn spec_after_lit(t: Seq<char>, lit: Seq<char>) -> Option<Seq<char>> {
    if lit.len() <= t.len() && t.take(lit.len() as int) == lit {
        Some(t.skip(lit.len() as int))
    } else {
        None
    }
}

/// The text after the object's opening and its first key: the filename
/// key is accepted under either spelling, `filename` or `file_name`.
pub open spec fn spec_head_rest(t: Seq<char>) -> Option<Seq<char>> {
    match spec_after_lit(t, "{\"filename\":\""@) {
        Some(t1) => Some(t1),
        None => spec_after_lit(t, "{\"file_name\":\""@),
    }
}

/// What parsing a sidecar text yields: the record and the recorded
/// bandwidth limit (0 when the text has no bandwidth member). `None` on
/// any malformed text.
pub open spec fn spec_parse_sidecar(t: Seq<char>) -> Option<(MetaDataView, usize)> {
    match spec_head_rest(t) {
        None => None,
        Some(t1) => match spec_parse_string_body(t1) {
            None => None,
            Some((fname, n1)) => match spec_after_lit(t1.skip(n1), ",\"link\":\""@) {
                None => None,
                Some(t2) => match spec_parse_string_body(t2) {
                    None => None,
                    Some((link, n2)) => match spec_after_lit(t2.skip(n2), ",\"total_size\":"@) {
                        None => None,
                        Some(t3) => match spec_parse_number(t3) {
                            None => None,
                            Some((total, n3)) => match spec_after_lit(
                                t3.skip(n3),
                                ",\"state\":\""@,
                            ) {
                                None => None,
                                Some(t4) => match spec_parse_string_body(t4) {
                                    None => None,
                                    Some((sname, n4)) => {
                                        let st = if sname == "Complete"@ {
                                            Some(State::Complete)
                                        } else if sname == "Incomplete"@ {
                                            Some(State::Incomplete)
                                        } else {
                                            None
                                        };
                                        match st {
                                            None => None,
                                            Some(state) => {
                                                let mv = MetaDataView {
                                                    filename: fname,
                                                    link: link,
                                                    total_size: total,
                                                    state: state,
                                                };
                                                let t5 = t4.skip(n4);
                                                if t5 == "}"@ {
                                                    Some((mv, 0usize))
                                                } else {
                                                    match spec_after_lit(t5, ",\"bandwidth\":"@) {
                                                        None => None,
                                                        Some(t6) => match spec_parse_number(t6) {
                                                            None => None,
                                                            Some((bw, n5)) => if t6.skip(n5)
                                                                == "}"@ {
                                                                Some((mv, bw))
                                                            } else {
                                                                None
                                                            },
                                                        },
                                                    }
                                                }
                                            },
                                        }
                                    },
                                },
                            },
                        },
                    },
                },
            },
        },
    }
}

/// Serializes a record (and the session's bandwidth limit) to the sidecar
/// text.
pub fn encode_sidecar(m: &MetaData, bandwidth: usize) -> (r: String)
    ensures
        r@ == spec_sidecar_json(m@, bandwidth),
{
    let mut out = String::new();
    out.append("{\"filename\":\"");
    append_escaped(&mut out, m.filename.as_str());
    out.append("\"");
    out.append(",\"link\":\"");
    append_escaped(&mut out, m.link.as_str());
    out.append("\"");
    out.append(",\"total_size\":");
    append_usize(&mut out, m.total_size);
    out.append(",\"state\":\"");
    match m.state {
        State::Complete => out.append("Complete"),
        State::Incomplete => out.append("Incomplete"),
    }
    out.append("\"");
    out.append(",\"bandwidth\":");
    append_usize(&mut out, bandwidth);
    out.append("}");
    proof {
        lemma_state_name_plain(m.state);
        assert(out@ =~= spec_sidecar_json(m@, bandwidth));
    }
    out
}

/// The state names hold no character that escaping would change.
proof fn lemma_state_name_plain(st: State)
    ensures
        spec_escape(spec_state_name(st)) == spec_state_name(st),
        ctrl_free(spec_state_name(st)),
        spec_state_name(st) != "}"@,
{
    reveal_strlit("Complete");
    reveal_strlit("Incomplete");
    reveal_strlit("}");
    let s = spec_state_name(st);
    assert forall|i: int| 0 <= i < s.len() implies s[i] != '"' && s[i] != '\\' && (
    #[trigger] s[i]) as u32 >= 32 by {
        if st is Complete {
            assert(s =~= seq!['C', 'o', 'm', 'p', 'l', 'e', 't', 'e']);
        } else {
            assert(s =~= seq!['I', 'n', 'c', 'o', 'm', 'p', 'l', 'e', 't', 'e']);
        }
    }
    lemma_escape_identity(s);
}

/// Parses a sidecar text back into a record and bandwidth limit.
#[verifier::rlimit(100)]
#[verifier::spinoff_prover]
pub fn parse_sidecar(text: &str) -> (r: Option<(MetaData, usize)>)
    ensures
        match r {
            Some(p) => spec_parse_sidecar(text@) == Some((p.0@, p.1)),
            None => spec_parse_sidecar(text@) is None,
        },
{
    let n = text.unicode_len();
    let l1 = "{\"filename\":\"";
    let l1n = l1.unicode_len();
    let l1b = "{\"file_name\":\"";
    let l1bn = l1b.unicode_len();
    let has_a = match_at(text, 0, l1);
    proof {
        assert(text@.skip(0) =~= text@);
        if l1@.len() <= text@.len() {
            assert(text@.take(l1@.len() as int) =~= text@.subrange(0, l1@.len() as int));
        }
    }
    let has_b = if has_a {
        false
    } else {
        match_at(text, 0, l1b)
    };
    proof {
        if l1b@.len() <= text@.len() {
            assert(text@.take(l1b@.len() as int) =~= text@.subrange(0, l1b@.len() as int));
        }
    }
    if !has_a && !has_b {
        return None;
    }
    let i1 = if has_a {
        l1n
    } else {
        l1bn
    };
    proof {
        assert(spec_head_rest(text@) == Some(text@.skip(i1 as int)));
    }
    let ghost t1 = text@.skip(i1 as int);
    let (fname, i2) = match parse_string_body(text, i1) {
        Some(p) => p,
        None => {
            return None;
        },
    };
    let l2 = ",\"link\":\"";
    let l2n = l2.unicode_len();
    proof {
        assert(t1.skip(i2 - i1) =~= text@.skip(i2 as int));
    }
    if !match_at(text, i2, l2) {
        proof {
            if l2@.len() <= n - i2 {
                assert(text@.skip(i2 as int).take(l2@.len() as int) =~= text@.subrange(
                    i2 as int,
                    i2 + l2@.len(),
                ));
            }
        }
        return None;
    }
    let i3 = i2 + l2n;
    let ghost t2 = text@.skip(i3 as int);
    proof {
        assert(text@.skip(i2 as int).take(l2@.len() as int) =~= text@.subrange(
            i2 as int,
            i2 + l2@.len(),
        ));
        assert(text@.skip(i2 as int).skip(l2@.len() as int) =~= t2);
    }
    let (link, i4) = match parse_string_body(text, i3) {
        Some(p) => p,
        None => {
            return None;
        },
    };
    let l3 = ",\"total_size\":";
    let l3n = l3.unicode_len();
    proof {
        assert(t2.skip(i4 - i3) =~= text@.skip(i4 as int));
    }
    if !match_at(text, i4, l3) {
        proof {
            if l3@.len() <= n - i4 {
                assert(text@.skip(i4 as int).take(l3@.len() as int) =~= text@.subrange(
                    i4 as int,
                    i4 + l3@.len(),
                ));
            }
        }
        return None;
    }
    let i5 = i4 + l3n;
    let ghost t3 = text@.skip(i5 as int);
    proof {
        assert(text@.skip(i4 as int).take(l3@.len() as int) =~= text@.subrange(
            i4 as int,
            i4 + l3@.len(),
        ));
        assert(text@.skip(i4 as int).skip(l3@.len() as int) =~= t3);
    }
    let (total, i6) = match parse_number(text, i5) {
        Some(p) => p,
        None => {
            return None;
        },
    };
    let l4 = ",\"state\":\"";
    let l4n = l4.unicode_len();
    proof {
        assert(t3.skip(i6 - i5) =~= text@.skip(i6 as int));
    }
    if !match_at(text, i6, l4) {
        proof {
            if l4@.len() <= n - i6 {
                assert(text@.skip(i6 as int).take(l4@.len() as int) =~= text@.subrange(
                    i6 as int,
                    i6 + l4@.len(),
                ));
            }
        }
        return None;
    }
    let i7 = i6 + l4n;
    let ghost t4 = text@.skip(i7 as int);
    proof {
        assert(text@.skip(i6 as int).take(l4@.len() as int) =~= text@.subrange(
            i6 as int,
            i6 + l4@.len(),
        ));
        assert(text@.skip(i6 as int).skip(l4@.len() as int) =~= t4);
    }
    let (sname, i8) = match parse_string_body(text, i7) {
        Some(p) => p,
        None => {
            return None;
        },
    };
    let state = if crate::strutil::str_eq(sname.as_str(), "Complete") {
        State::Complete
    } else if crate::strutil::str_eq(sname.as_str(), "Incomplete") {
        State::Incomplete
    } else {
        return None;
    };
    let ghost t5 = text@.skip(i8 as int);
    proof {
        assert(t4.skip(i8 - i7) =~= t5);
    }
    let meta = MetaData { filename: fname, link: link, total_size: total, state: state };
    if n - i8 == 1 && match_at(text, i8, "}") {
        proof {
            reveal_strlit("}");
            assert(t5 =~= text@.subrange(i8 as int, i8 + 1));
        }
        return Some((meta, 0));
    }
    proof {
        reveal_strlit("}");
        assert(t5 != "}"@) by {
            if t5 == "}"@ {
                assert(text@.subrange(i8 as int, i8 + 1) =~= t5);
            }
        }
    }
    let l5 = ",\"bandwidth\":";
    let l5n = l5.unicode_len();
    if !match_at(text, i8, l5) {
        proof {
            if l5@.len() <= n - i8 {
                assert(t5.take(l5@.len() as int) =~= text@.subrange(i8 as int, i8 + l5@.len()));
            }
        }
        return None;
    }
    let i9 = i8 + l5n;
    let ghost t6 = text@.skip(i9 as int);
    proof {
        assert(t5.take(l5@.len() as int) =~= text@.subrange(i8 as int, i8 + l5@.len()));
        assert(t5.skip(l5@.len() as int) =~= t6);
    }
    let (bw, i10) = match parse_number(text, i9) {
        Some(p) => p,
        None => {
            return None;
        },
    };
    let ghost t7 = text@.skip(i10 as int);
    proof {
        assert(t6.skip(i10 - i9) =~= t7);
    }
    if n - i10 == 1 && match_at(text, i10, "}") {
        proof {
            reveal_strlit("}");
            assert(t7 =~= text@.subrange(i10 as int, i10 + 1));
        }
        Some((meta, bw))
    } else {
        proof {
            reveal_strlit("}");
            assert(t7 != "}"@) by {
                if t7 == "}"@ {
                    assert(text@.subrange(i10 as int, i10 + 1) =~= t7);
                }
            }
        }
        None
    }
}


/// Removing a literal from the front of a text that starts with it leaves
/// the rest.
proof fn lemma_after_lit_concat(lit: Seq<char>, rest: Seq<char>)
    ensures
        spec_after_lit(lit + rest, lit) == Some(rest),
{
    assert((lit + rest).take(lit.len() as int) =~= lit);
    assert((lit + rest).skip(lit.len() as int) =~= rest);
}

/// Parsing a string body right after writing one recovers the content:
/// for any control-free `s`, the text `escape(s) + '"' + rest` parses to
/// `s`, consuming everything up to and including the quote.
proof fn lemma_parse_body_round_trip(s: Seq<char>, rest: Seq<char>)
    requires
        ctrl_free(s),
    ensures
        spec_parse_string_body(spec_escape(s) + seq!['"'] + rest) == Some(
            (s, spec_escape(s).len() as int + 1),
        ),
    decreases s.len(),
{
    let t = spec_escape(s) + seq!['"'] + rest;
    if s.len() == 0 {
        assert(spec_escape(s) =~= Seq::<char>::empty());
        assert(t =~= seq!['"'] + rest);
        assert(t[0] == '"');
        assert(s =~= Seq::<char>::empty());
    } else {
        let s1 = s.drop_first();
        assert(forall|i: int| 0 <= i < s1.len() ==> s1[i] == s[i + 1]);
        assert(ctrl_free(s1));
        lemma_parse_body_round_trip(s1, rest);
        let e1 = spec_escape(s1);
        let c = s[0];
        if c == '"' {
            assert(spec_escape(s) == seq!['\\', '"'] + e1);
            assert(t =~= seq!['\\', '"'] + (e1 + seq!['"'] + rest));
            assert(t[0] == '\\');
            assert(t[1] == '"');
            assert(t.len() >= 2);
            assert(t.skip(2) =~= e1 + seq!['"'] + rest);
            assert(seq![t[1]] + s1 =~= s);
        } else if c == '\\' {
            assert(spec_escape(s) == seq!['\\', '\\'] + e1);
            assert(t =~= seq!['\\', '\\'] + (e1 + seq!['"'] + rest));
            assert(t[0] == '\\');
            assert(t[1] == '\\');
            assert(t.len() >= 2);
            assert(t.skip(2) =~= e1 + seq!['"'] + rest);
            assert(seq![t[1]] + s1 =~= s);
        } else {
            assert(spec_escape(s) == seq![c] + e1);
            assert(t =~= seq![c] + (e1 + seq!['"'] + rest));
            assert(t[0] == c);
            assert((c as u32) >= 32);
            assert(t.skip(1) =~= e1 + seq!['"'] + rest);
            assert(seq![t[0]] + s1 =~= s);
        }
    }
}

/// Parsing a number right after writing one recovers the value, when what
/// follows does not begin with a digit.
proof fn lemma_parse_number_of_digits(v: usize, rest: Seq<char>)
    requires
        rest.len() >= 1,
        digit_val(rest[0]) < 0,
    ensures
        spec_parse_number(spec_digits(v as nat) + rest) == Some(
            (v, spec_digits(v as nat).len() as int),
        ),
{
    let d = spec_digits(v as nat);
    let t = d + rest;
    crate::strutil::lemma_spec_digits_are_digits(v as nat);
    assert(forall|j: int| 0 <= j < d.len() ==> digit_val(#[trigger] t[j]) >= 0);
    assert(t[d.len() as int] == rest[0]);
    lemma_digit_prefix_len(t, d.len() as int);
    assert(t.take(d.len() as int) =~= d);
    crate::strutil::lemma_dec_val_of_digits(v as nat);
}

/// The state-and-bandwidth tail of a sidecar text parses back to what was
/// written: the state name's string body, the bandwidth literal, the
/// number, and the closing brace.
#[verifier::rlimit(100)]
#[verifier::spinoff_prover]
proof fn lemma_round_trip_tail(state: State, bw: usize)
    ensures
        ({
            let sn = spec_state_name(state);
            let db = spec_digits(bw as nat);
            let t6 = db + "}"@;
            let t5 = ",\"bandwidth\":"@ + t6;
            &&& spec_parse_string_body(spec_escape(sn) + seq!['"'] + t5) == Some(
                (sn, spec_escape(sn).len() as int + 1),
            )
            &&& t5 != "}"@
            &&& spec_after_lit(t5, ",\"bandwidth\":"@) == Some(t6)
            &&& spec_parse_number(t6) == Some((bw, db.len() as int))
            &&& t6.skip(db.len() as int) == "}"@
            &&& (sn == "Complete"@ <==> state is Complete)
            &&& (sn == "Incomplete"@ <==> state is Incomplete)
        }),
{
    let sn = spec_state_name(state);
    let db = spec_digits(bw as nat);
    let rb = "}"@;
    let t6 = db + rb;
    let t5 = ",\"bandwidth\":"@ + t6;
    lemma_state_name_plain(state);
    lemma_parse_body_round_trip(sn, t5);
    reveal_strlit("Complete");
    reveal_strlit("Incomplete");
    assert("Complete"@.len() == 8);
    assert("Incomplete"@.len() == 10);
    reveal_strlit(",\"bandwidth\":");
    reveal_strlit("}");
    crate::strutil::lemma_spec_digits_are_digits(bw as nat);
    assert(t5.len() > 1);
    assert(t5 != "}"@);
    lemma_after_lit_concat(",\"bandwidth\":"@, t6);
    assert(rb[0] == '}');
    assert(digit_val('}') < 0);
    lemma_parse_number_of_digits(bw, rb);
    assert(t6.skip(db.len() as int) =~= rb);
}

/// THE ROUND TRIP: parsing a sidecar text that `encode_sidecar` wrote
/// yields back exactly the record and bandwidth that were written, for
/// every record whose filename and link are free of control characters.
#[verifier::rlimit(100)]
#[verifier::spinoff_prover]
pub proof fn lemma_sidecar_round_trip(mv: MetaDataView, bw: usize)
    requires
        ctrl_free(mv.filename),
        ctrl_free(mv.link),
    ensures
        spec_parse_sidecar(spec_sidecar_json(mv, bw)) == Some((mv, bw)),
{
    let f = mv.filename;
    let l = mv.link;
    let sn = spec_state_name(mv.state);
    let ef = spec_escape(f);
    let el = spec_escape(l);
    lemma_state_name_plain(mv.state);
    let es = spec_escape(sn);
    let dt = spec_digits(mv.total_size as nat);
    let db = spec_digits(bw as nat);
    let rb = "}"@;
    let t6 = db + rb;
    let t5 = ",\"bandwidth\":"@ + t6;
    let t4 = es + seq!['"'] + t5;
    let t4a = ",\"state\":\""@ + t4;
    let t3 = dt + t4a;
    let t3a = ",\"total_size\":"@ + t3;
    let t2 = el + seq!['"'] + t3a;
    let t2a = ",\"link\":\""@ + t2;
    let t1 = ef + seq!['"'] + t2a;
    let j = spec_sidecar_json(mv, bw);
    reveal_strlit("\"");
    assert("\""@ =~= seq!['"']);
    assert(j =~= "{\"filename\":\""@ + t1);
    lemma_after_lit_concat("{\"filename\":\""@, t1);
    lemma_parse_body_round_trip(f, t2a);
    assert(t1.skip(ef.len() as int + 1) =~= t2a);
    lemma_after_lit_concat(",\"link\":\""@, t2);
    lemma_parse_body_round_trip(l, t3a);
    assert(t2.skip(el.len() as int + 1) =~= t3a);
    lemma_after_lit_concat(",\"total_size\":"@, t3);
    reveal_strlit(",\"state\":\"");
    assert(t4a[0] == ',');
    assert(digit_val(',') < 0);
    lemma_parse_number_of_digits(mv.total_size, t4a);
    assert(t3.skip(dt.len() as int) =~= t4a);
    lemma_after_lit_concat(",\"state\":\""@, t4);
    lemma_round_trip_tail(mv.state, bw);
    assert(t4.skip(es.len() as int + 1) =~= t5);
    assert(mv == MetaDataView {
        filename: f,
        link: l,
        total_size: mv.total_size,
        state: mv.state,
    });
}

/// The name of the sidecar beside a data file: hidden by a leading dot,
/// suffixed `.metadata`.
pub open spec fn spec_sidecar_name(file: Seq<char>) -> Seq<char> {
    seq!['.'] + file + ".metadata"@
}

/// The sidecar path component for a data file's name.
pub fn sidecar_name(file: &str) -> (r: String)
    ensures
        r@ == spec_sidecar_name(file@),
{
    let mut out = String::new();
    push_char(&mut out, '.');
    out.append(file);
    out.append(".metadata");
    proof {
        assert(out@ =~= spec_sidecar_name(file@));
    }
    out
}

/// Whether a directory entry's name marks it as a sidecar rather than a
/// data file.
pub fn is_sidecar_name(name: &str) -> (r: bool)
    ensures
        r == crate::strutil::spec_contains_str(name@, ".metadata"@),
{
    crate::strutil::contains_str(name, ".metadata")
}

/// The record a checkpoint writes for a session: the declared filename is
/// the name chosen on disk, and the state is Complete exactly when every
/// declared byte is on disk at the time of the write.
pub open spec fn spec_checkpoint(f: crate::file2dl::File2Dl, filename: Seq<char>) -> MetaDataView {
    MetaDataView {
        filename: filename,
        link: f.url.link@,
        total_size: f.url.total_size,
        state: if f.size_on_disk == f.url.total_size {
            State::Complete
        } else {
            State::Incomplete
        },
    }
}

/// The sidecar write after a chunk lands: the sidecar's name and its new
/// contents, or nothing when the server does not support ranges (without a
/// valid resume point there is no state worth persisting).
pub fn init_tmp_if_supported(f2dl: &crate::file2dl::File2Dl, filename: &str) -> (r: Option<
    (String, String),
>)
    ensures
        f2dl.url.range_support ==> (r matches Some(p) && p.0@ == spec_sidecar_name(filename@)
            && p.1@ == spec_sidecar_json(spec_checkpoint(*f2dl, filename@), f2dl.bandwidth)),
        !f2dl.url.range_support ==> r is None,
{
    if f2dl.url.range_support {
        let state = if f2dl.size_on_disk == f2dl.url.total_size {
            State::Complete
        } else {
            State::Incomplete
        };
        let meta = MetaData {
            filename: filename.to_owned(),
            link: f2dl.url.link.clone(),
            total_size: f2dl.url.total_size,
            state,
        };
        let contents = encode_sidecar(&meta, f2dl.bandwidth);
        Some((sidecar_name(filename), contents))
    } else {
        None
    }
}

/// Reads a sidecar's contents, when the file beside a managed download
/// exists: `Ok(None)` when there is no sidecar, the parsed record and
/// recorded bandwidth when it parses, and an error on malformed text.
pub fn init_meta_data(contents: Option<&String>) -> (r: Result<
    Option<(MetaData, usize)>,
    DirectoryError,
>)
    ensures
        match contents {
            None => r matches Ok(q) && q is None,
            Some(text) => match spec_parse_sidecar(text@) {
                Some(p) => r matches Ok(q) && (q matches Some(m) && m.0@ == p.0 && m.1 == p.1),
                None => r is Err,
            },
        },
{
    match contents {
        None => Ok(None),
        Some(text) => match parse_sidecar(text.as_str()) {
            Some(p) => Ok(Some(p)),
            None => Err(DirectoryError::DirParse("malformed sidecar metadata".to_owned())),
        },
    }
}

} // verus!

//! Small verified string helpers shared by the metadata codec, the URL
//! prober and the naming resolver: decimal formatting and parsing, and
//! exact prefix matching on `&str`.

use vstd::prelude::*;

verus! {

/// The value of `c` as a decimal digit, or -1 when `c` is no digit.
pub open spec fn digit_val(c: char) -> int {
    if c == '0' {
        0
    } else if c == '1' {
        1
    } else if c == '2' {
        2
    } else if c == '3' {
        3
    } else if c == '4' {
        4
    } else if c == '5' {
        5
    } else if c == '6' {
        6
    } else if c == '7' {
        7
    } else if c == '8' {
        8
    } else if c == '9' {
        9
    } else {
        -1
    }
}

/// The character for the decimal digit `d`.
pub open spec fn digit_char(d: int) -> char {
    if d == 0 {
        '0'
    } else if d == 1 {
        '1'
    } else if d == 2 {
        '2'
    } else if d == 3 {
        '3'
    } else if d == 4 {
        '4'
    } else if d == 5 {
        '5'
    } else if d == 6 {
        '6'
    } else if d == 7 {
        '7'
    } else if d == 8 {
        '8'
    } else {
        '9'
    }
}

/// The usual decimal rendering of `n`: no sign, no leading zero except for
/// the number 0 itself.
pub open spec fn spec_digits(n: nat) -> Seq<char>
    decreases n,
{
    if n < 10 {
        seq![digit_char(n as int)]
    } else {
        spec_digits(n / 10).push(digit_char((n % 10) as int))
    }
}

proof fn lemma_digit_char_val(d: int)
    requires
        0 <= d <= 9,
    ensures
        digit_val(digit_char(d)) == d,
{
}

/// Every character of a decimal rendering is a digit, and the rendering is
/// never empty.
pub proof fn lemma_spec_digits_are_digits(n: nat)
    ensures
        spec_digits(n).len() >= 1,
        forall|i: int|
            0 <= i < spec_digits(n).len() ==> 0 <= digit_val(#[trigger] spec_digits(n)[i]) <= 9,
    decreases n,
{
    if n < 10 {
        lemma_digit_char_val(n as int);
    } else {
        lemma_spec_digits_are_digits(n / 10);
        lemma_digit_char_val((n % 10) as int);
    }
}

/// The decimal rendering of a number denotes that number.
pub proof fn lemma_dec_val_of_digits(n: nat)
    ensures
        spec_dec_val(spec_digits(n)) == n,
    decreases n,
{
    if n < 10 {
        lemma_digit_char_val(n as int);
    } else {
        lemma_dec_val_of_digits(n / 10);
        let d = spec_digits(n);
        lemma_spec_digits_are_digits(n / 10);
        assert(d.drop_last() =~= spec_digits(n / 10));
        lemma_digit_char_val((n % 10) as int);
        vstd::arithmetic::div_mod::lemma_fundamental_div_mod(n as int, 10);
    }
}

/// Relies on `String::push` of std: appends one character at the end.
#[verifier::external_body]
pub fn push_char(s: &mut String, c: char)
    ensures
        final (s)@ == old(s)@.push(c),
{
    s.push(c)
}

/// The digit character for `d`, as executable code.
pub fn digit_to_char(d: usize) -> (c: char)
    requires
        d <= 9,
    ensures
        c == digit_char(d as int),
{
    match d {
        0 => '0',
        1 => '1',
        2 => '2',
        3 => '3',
        4 => '4',
        5 => '5',
        6 => '6',
        7 => '7',
        8 => '8',
        _ => '9',
    }
}

/// The digit value of `c`, or 10 when `c` is no digit.
pub fn char_to_digit(c: char) -> (d: usize)
    ensures
        digit_val(c) >= 0 ==> d == digit_val(c),
        digit_val(c) < 0 ==> d == 10,
{
    match c {
        '0' => 0,
        '1' => 1,
        '2' => 2,
        '3' => 3,
        '4' => 4,
        '5' => 5,
        '6' => 6,
        '7' => 7,
        '8' => 8,
        '9' => 9,
        _ => 10,
    }
}

/// Appends the decimal rendering of `n` to `out`.
pub fn append_usize(out: &mut String, n: usize)
    ensures
        final (out)@ == old(out)@ + spec_digits(n as nat),
{
    let mut rev: Vec<char> = Vec::new();
    let mut m: usize = n;
    proof {
        assert(spec_digits(n as nat) =~= spec_digits(n as nat) + rev@.reverse());
    }
    loop
        invariant_except_break
            spec_digits(n as nat) == spec_digits(m as nat) + rev@.reverse(),
        ensures
            spec_digits(n as nat) == rev@.reverse(),
        decreases m,
    {
        let ghost m0 = m as nat;
        let d = m % 10;
        let ghost prev_rev = rev@;
        rev.push(digit_to_char(d));
        proof {
            assert(rev@.reverse() =~= seq![digit_char(d as int)] + prev_rev.reverse());
        }
        m = m / 10;
        if m == 0 {
            proof {
                assert(m0 < 10);
                assert(spec_digits(m0) =~= seq![digit_char(d as int)]);
                assert(spec_digits(n as nat) =~= rev@.reverse());
            }
            break ;
        }
        proof {
            assert(m0 >= 10);
            assert(spec_digits(m0) == spec_digits(m0 / 10).push(digit_char((m0 % 10) as int)));
            assert(spec_digits(m0 / 10).push(digit_char(d as int)) =~= spec_digits(m0 / 10)
                + seq![digit_char(d as int)]);
            assert(spec_digits(n as nat) =~= spec_digits(m as nat) + rev@.reverse());
        }
    }
    let mut i: usize = rev.len();
    while i > 0
        invariant
            i <= rev@.len(),
            out@ == old(out)@ + rev@.reverse().take(rev@.len() - i),
        decreases i,
    {
        i = i - 1;
        let ghost before = out@;
        push_char(out, rev[i]);
        proof {
            assert(rev@.reverse().take(rev@.len() - i) =~= rev@.reverse().take(
                rev@.len() - (i + 1),
            ).push(rev@[i as int]));
            assert(out@ =~= old(out)@ + rev@.reverse().take(rev@.len() - i));
        }
    }
    proof {
        assert(rev@.reverse().take(rev@.len() as int) =~= rev@.reverse());
    }
}

/// The decimal rendering of `n` on its own.
pub fn usize_to_string(n: usize) -> (r: String)
    ensures
        r@ == spec_digits(n as nat),
{
    let mut s = String::new();
    append_usize(&mut s, n);
    proof {
        assert(s@ =~= spec_digits(n as nat));
    }
    s
}

/// The number that the digits `t[from..to]` denote, or -1 when that span is
/// empty or holds a non-digit.
pub open spec fn spec_dec_val(t: Seq<char>) -> int
    decreases t.len(),
{
    if t.len() == 0 {
        -1
    } else if t.len() == 1 {
        digit_val(t[0])
    } else {
        let prefix = spec_dec_val(t.drop_last());
        let last = digit_val(t.last());
        if prefix < 0 || last < 0 {
            -1
        } else {
            prefix * 10 + last
        }
    }
}

/// Parses `s[from..to]` as an unsigned decimal number. Returns `None` when
/// the span is empty, holds a non-digit, or denotes a value above
/// `usize::MAX`.
pub fn parse_dec_range(s: &str, from: usize, to: usize) -> (r: Option<usize>)
    requires
        from <= to <= s@.len(),
    ensures
        match r {
            Some(v) => v == spec_dec_val(s@.subrange(from as int, to as int)),
            None => spec_dec_val(s@.subrange(from as int, to as int)) < 0 || spec_dec_val(
                s@.subrange(from as int, to as int),
            ) > usize::MAX,
        },
{
    if from == to {
        proof {
            assert(s@.subrange(from as int, to as int).len() == 0);
        }
        return None;
    }
    let ghost whole = s@.subrange(from as int, to as int);
    let mut acc: usize = 0;
    let mut i: usize = from;
    while i < to
        invariant
            from <= i <= to <= s@.len(),
            from < to,
            whole == s@.subrange(from as int, to as int),
            i > from ==> acc == spec_dec_val(s@.subrange(from as int, i as int)),
            i > from ==> spec_dec_val(s@.subrange(from as int, i as int)) >= 0,
            i == from ==> acc == 0,
        decreases to - i,
    {
        let c = s.get_char(i);
        let d = char_to_digit(c);
        if d == 10 {
            proof {
                lemma_nondigit_poisons(whole, i - from);
            }
            return None;
        }
        let ghost pre = s@.subrange(from as int, i as int);
        let ghost ext = s@.subrange(from as int, i + 1);
        proof {
            assert(ext =~= pre.push(s@[i as int]));
            assert(ext.drop_last() =~= pre);
            if i == from {
                assert(spec_dec_val(ext) == d);
            } else {
                assert(spec_dec_val(ext) == acc * 10 + d);
            }
            assert(whole.take(i + 1 - from) =~= ext);
        }
        let step = match acc.checked_mul(10) {
            Some(x) => x.checked_add(d),
            None => None,
        };
        match step {
            Some(v) => {
                acc = v;
            },
            None => {
                proof {
                    assert(spec_dec_val(ext) > usize::MAX);
                    lemma_dec_val_monotone(whole, i + 1 - from);
                }
                return None;
            },
        }
        i = i + 1;
    }
    proof {
        assert(s@.subrange(from as int, i as int) =~= whole);
    }
    Some(acc)
}

/// A span with a non-digit at position `k` denotes no number.
proof fn lemma_nondigit_poisons(t: Seq<char>, k: int)
    requires
        0 <= k < t.len(),
        digit_val(t[k]) < 0,
    ensures
        spec_dec_val(t) < 0,
    decreases t.len(),
{
    if t.len() == 1 {
    } else {
        if k == t.len() - 1 {
        } else {
            lemma_nondigit_poisons(t.drop_last(), k);
        }
    }
}

/// A decimal prefix never denotes more than the whole span.
proof fn lemma_dec_val_monotone(t: Seq<char>, k: int)
    requires
        0 < k <= t.len(),
        spec_dec_val(t.take(k)) > usize::MAX,
    ensures
        spec_dec_val(t) < 0 || spec_dec_val(t) > usize::MAX,
    decreases t.len() - k,
{
    if k == t.len() {
        assert(t.take(k) =~= t);
    } else {
        let u = t.take(k + 1);
        assert(u.drop_last() =~= t.take(k));
        if digit_val(u.last()) < 0 {
            lemma_nondigit_poisons(t, k);
        } else {
            assert(spec_dec_val(u) == spec_dec_val(t.take(k)) * 10 + digit_val(u.last()));
            lemma_dec_val_monotone(t, k + 1);
        }
    }
}

/// Parses the whole of `s` as an unsigned decimal number.
pub fn parse_dec(s: &str) -> (r: Option<usize>)
    ensures
        match r {
            Some(v) => v == spec_dec_val(s@),
            None => spec_dec_val(s@) < 0 || spec_dec_val(s@) > usize::MAX,
        },
{
    let n = s.unicode_len();
    let r = parse_dec_range(s, 0, n);
    proof {
        assert(s@.subrange(0, s@.len() as int) =~= s@);
    }
    r
}

/// Whether `s[at..at + pat.len()]` is exactly `pat`.
pub fn match_at(s: &str, at: usize, pat: &str) -> (r: bool)
    requires
        at <= s@.len(),
    ensures
        r == (at + pat@.len() <= s@.len() && s@.subrange(
            at as int,
            at + pat@.len(),
        ) == pat@),
{
    let n = pat.unicode_len();
    let sn = s.unicode_len();
    if n > sn - at {
        return false;
    }
    let mut i: usize = 0;
    while i < n
        invariant
            0 <= i <= n,
            n == pat@.len(),
            sn == s@.len(),
            at + n <= sn,
            forall|j: int| 0 <= j < i ==> s@[at + j] == pat@[j],
        decreases n - i,
    {
        if s.get_char(at + i) != pat.get_char(i) {
            proof {
                assert(s@.subrange(at as int, at + pat@.len())[i as int] != pat@[i as int]);
            }
            return false;
        }
        i = i + 1;
    }
    proof {
        assert(s@.subrange(at as int, at + pat@.len()) =~= pat@);
    }
    true
}

/// Whether `pat` occurs in `s` starting at `i`.
pub open spec fn spec_occurs_at(s: Seq<char>, pat: Seq<char>, i: int) -> bool {
    0 <= i && i + pat.len() <= s.len() && s.subrange(i, i + pat.len()) == pat
}

/// Whether `pat` occurs anywhere in `s`.
pub open spec fn spec_contains_str(s: Seq<char>, pat: Seq<char>) -> bool {
    exists|i: int| spec_occurs_at(s, pat, i)
}

/// Whether `s` contains `pat` as a substring.
pub fn contains_str(s: &str, pat: &str) -> (r: bool)
    ensures
        r == spec_contains_str(s@, pat@),
{
    let sn = s.unicode_len();
    let pn = pat.unicode_len();
    if pn > sn {
        proof {
            assert(forall|i: int| !spec_occurs_at(s@, pat@, i));
        }
        return false;
    }
    if pn == 0 {
        proof {
            assert(s@.subrange(0, 0) =~= pat@);
            assert(spec_occurs_at(s@, pat@, 0));
        }
        return true;
    }
    let mut i: usize = 0;
    while i < sn - pn + 1
        invariant
            0 <= i <= sn - pn + 1,
            1 <= pn <= sn,
            sn == s@.len(),
            pn == pat@.len(),
            forall|j: int| 0 <= j < i ==> !spec_occurs_at(s@, pat@, j),
        decreases sn - pn + 1 - i,
    {
        if match_at(s, i, pat) {
            proof {
                assert(spec_occurs_at(s@, pat@, i as int));
            }
            return true;
        }
        i = i + 1;
    }
    proof {
        assert(forall|j: int| spec_occurs_at(s@, pat@, j) ==> 0 <= j <= sn - pn);
    }
    false
}

/// Whether two string slices hold the same characters.
pub fn str_eq(a: &str, b: &str) -> (r: bool)
    ensures
        r == (a@ == b@),
{
    let la = a.unicode_len();
    let lb = b.unicode_len();
    if la != lb {
        return false;
    }
    let r = match_at(a, 0, b);
    proof {
        if r {
            assert(a@.subrange(0, a@.len() as int) =~= a@);
        } else {
            assert(a@.subrange(0, b@.len() as int) =~= a@);
        }
    }
    r
}

} // verus!

//! Character-level helpers for `String` and `&str`.

use vstd::prelude::*;

verus! {

/// Appends a character to a `String` (`String::push`).
#[verifier::external_body]
pub(crate) fn string_push(s: &mut String, c: char)
    ensures
        final(s)@ == old(s)@.push(c),
{
    s.push(c);
}

/// The characters of a string slice, in order.
pub fn str_chars(s: &str) -> (out: Vec<char>)
    ensures
        out@ == s@,
{
    let n = s.unicode_len();
    let mut out: Vec<char> = Vec::new();
    let mut i: usize = 0;
    while i < n
        invariant
            n == s@.len(),
            i <= n,
            out@ == s@.take(i as int),
        decreases n - i,
    {
        let c = s.get_char(i);
        out.push(c);
        proof {
            assert(s@.take(i as int + 1) == s@.take(i as int).push(s@[i as int]));
        }
        i = i + 1;
    }
    proof {
        assert(s@.take(n as int) == s@);
    }
    out
}

/// Builds a `String` holding exactly the given characters.
pub fn string_from_chars(cs: &[char]) -> (out: String)
    ensures
        out@ == cs@,
{
    let mut out = String::new();
    let mut i: usize = 0;
    while i < cs.len()
        invariant
            i <= cs@.len(),
            out@ == cs@.take(i as int),
        decreases cs@.len() - i,
    {
        string_push(&mut out, cs[i]);
        proof {
            assert(cs@.take(i as int + 1) == cs@.take(i as int).push(cs@[i as int]));
        }
        i = i + 1;
    }
    proof {
        assert(cs@.take(cs@.len() as int) == cs@);
    }
    out
}

/// Whether `c` occurs in `s`.
pub open spec fn has_char(s: Seq<char>, c: char) -> bool {
    exists|i: int| 0 <= i < s.len() && s[i] == c
}

/// Whether the character `c` occurs in the string `s` (`str::contains` with a `char`).
pub fn str_contains_char(s: &str, c: char) -> (r: bool)
    ensures
        r == has_char(s@, c),
{
    let cs = str_chars(s);
    let mut i: usize = 0;
    while i < cs.len()
        invariant
            cs@ == s@,
            i <= cs@.len(),
            forall|j: int| 0 <= j < i ==> cs@[j] != c,
        decreases cs@.len() - i,
    {
        if cs[i] == c {
            return true;
        }
        i = i + 1;
    }
    false
}

/// Whether `pat` occurs in `s` starting at position `i`.
pub open spec fn occurs_at(s: Seq<char>, pat: Seq<char>, i: int) -> bool {
    0 <= i && i + pat.len() <= s.len() && s.subrange(i, i + pat.len()) == pat
}

/// Whether `pat` occurs anywhere in `s` (`str::contains` with a `&str`).
pub open spec fn contains_seq(s: Seq<char>, pat: Seq<char>) -> bool {
    exists|i: int| occurs_at(s, pat, i)
}

/// Replacing every non-overlapping occurrence of a non-empty `pat`, scanning from the
/// left, by `with` (`str::replace`).
pub open spec fn replace_all(s: Seq<char>, pat: Seq<char>, with: Seq<char>) -> Seq<char>
    decreases s.len(),
{
    if pat.len() == 0 || s.len() == 0 {
        s
    } else if occurs_at(s, pat, 0) {
        with + replace_all(s.skip(pat.len() as int), pat, with)
    } else {
        seq![s[0]] + replace_all(s.skip(1), pat, with)
    }
}

/// Whether `s` and `t` agree on `pat.len()` characters from positions `i` and `0`.
fn matches_at(s: &Vec<char>, pat: &Vec<char>, i: usize) -> (r: bool)
    requires
        i <= s@.len(),
    ensures
        r == occurs_at(s@, pat@, i as int),
{
    if pat.len() > s.len() - i {
        return false;
    }
    let mut k: usize = 0;
    while k < pat.len()
        invariant
            i + pat@.len() <= s@.len(),
            s@.len() == s.len(),
            k <= pat@.len(),
            forall|j: int| 0 <= j < k ==> s@[i + j] == pat@[j],
        decreases pat@.len() - k,
    {
        if s[i + k] != pat[k] {
            proof {
                assert(s@.subrange(i as int, i + pat@.len())[k as int] != pat@[k as int]);
            }
            return false;
        }
        k = k + 1;
    }
    proof {
        assert(s@.subrange(i as int, i + pat@.len()) =~= pat@);
    }
    true
}

/// Whether `pat` occurs anywhere in `s`.
pub fn str_contains(s: &str, pat: &str) -> (r: bool)
    ensures
        r == contains_seq(s@, pat@),
{
    let cs = str_chars(s);
    let ps = str_chars(pat);
    if ps.len() == 0 {
        proof {
            assert(s@.subrange(0, 0) =~= pat@);
            assert(occurs_at(s@, pat@, 0));
        }
        return true;
    }
    let mut i: usize = 0;
    while i < cs.len()
        invariant
            cs@ == s@,
            ps@ == pat@,
            i <= cs@.len(),
            forall|j: int| 0 <= j < i ==> !occurs_at(s@, pat@, j),
        decreases cs@.len() - i,
    {
        if matches_at(&cs, &ps, i) {
            return true;
        }
        i = i + 1;
    }
    proof {
        assert forall|j: int| !occurs_at(s@, pat@, j) by {
            if 0 <= j && j < i {
            }
        }
    }
    false
}

proof fn lemma_replace_all_skip(s: Seq<char>, pat: Seq<char>, with: Seq<char>, i: int)
    requires
        pat.len() > 0,
        0 <= i < s.len(),
    ensures
        occurs_at(s, pat, i) ==> replace_all(s.skip(i), pat, with) == with + replace_all(
            s.skip(i + pat.len()),
            pat,
            with,
        ),
        !occurs_at(s, pat, i) ==> replace_all(s.skip(i), pat, with) == seq![s[i]]
            + replace_all(s.skip(i + 1), pat, with),
{
    let t = s.skip(i);
    assert(t.len() > 0);
    assert(t[0] == s[i]);
    assert(t.skip(1) =~= s.skip(i + 1));
    if i + pat.len() <= s.len() {
        assert(t.skip(pat.len() as int) =~= s.skip(i + pat.len()));
        assert(t.subrange(0, pat.len() as int) =~= s.subrange(i, i + pat.len()));
    }
    assert(occurs_at(s, pat, i) == occurs_at(t, pat, 0));
}

/// `s` with every non-overlapping occurrence of `pat` (scanned from the left) replaced
/// by `with`; `s` unchanged when `pat` is empty.
pub fn replace_str(s: &str, pat: &str, with: &str) -> (out: String)
    ensures
        out@ == replace_all(s@, pat@, with@),
{
    let cs = str_chars(s);
    let ps = str_chars(pat);
    let ws = str_chars(with);
    if ps.len() == 0 {
        return string_from_chars(cs.as_slice());
    }
    let mut out: Vec<char> = Vec::new();
    let mut i: usize = 0;
    proof {
        assert(cs@.skip(0) =~= cs@);
        assert(out@ + replace_all(cs@, ps@, ws@) =~= replace_all(cs@, ps@, ws@));
    }
    while i < cs.len()
        invariant
            cs@ == s@,
            ps@ == pat@,
            ws@ == with@,
            ps@.len() > 0,
            i <= cs@.len(),
            out@ + replace_all(cs@.skip(i as int), ps@, ws@) == replace_all(cs@, ps@, ws@),
        decreases cs@.len() - i,
    {
        proof {
            lemma_replace_all_skip(cs@, ps@, ws@, i as int);
        }
        if matches_at(&cs, &ps, i) {
            let mut k: usize = 0;
            let ghost out0 = out@;
            while k < ws.len()
                invariant
                    k <= ws@.len(),
                    out@ == out0 + ws@.take(k as int),
                decreases ws@.len() - k,
            {
                out.push(ws[k]);
                proof {
                    assert(ws@.take(k as int + 1) == ws@.take(k as int).push(ws@[k as int]));
                }
                k = k + 1;
            }
            proof {
                assert(ws@.take(ws@.len() as int) == ws@);
                assert(out0 + (ws@ + replace_all(cs@.skip(i + ps@.len()), ps@, ws@)) == (out0
                    + ws@) + replace_all(cs@.skip(i + ps@.len()), ps@, ws@));
            }
            i = i + ps.len();
        } else {
            let ghost out0 = out@;
            out.push(cs[i]);
            proof {
                assert(out0 + (seq![cs@[i as int]] + replace_all(cs@.skip(i + 1), ps@, ws@))
                    == out0.push(cs@[i as int]) + replace_all(cs@.skip(i + 1), ps@, ws@));
            }
            i = i + 1;
        }
    }
    proof {
        assert(cs@.skip(cs@.len() as int) =~= Seq::<char>::empty());
        assert(out@ + Seq::<char>::empty() =~= out@);
    }
    string_from_chars(out.as_slice())
}

/// An ASCII decimal digit.
pub open spec fn is_ascii_digit(c: char) -> bool {
    '0' <= c && c <= '9'
}

/// The value of the run of ASCII digits that ends `s`, read as a decimal number.
pub open spec fn trailing_value(s: Seq<char>) -> nat
    decreases s.len(),
{
    if s.len() == 0 {
        0
    } else if is_ascii_digit(s.last()) {
        trailing_value(s.drop_last()) * 10 + ((s.last() as int) - ('0' as int)) as nat
    } else {
        0
    }
}

/// Every run of consecutive ASCII digits in `s`, read from its start, has a value that
/// fits in a `u32` (so does every part of it read on the way).
pub open spec fn short_digit_runs(s: Seq<char>) -> bool
    decreases s.len(),
{
    s.len() == 0 || (trailing_value(s) <= u32::MAX && short_digit_runs(s.drop_last()))
}

/// Prefixes keep short digit runs.
pub proof fn lemma_short_digit_runs_prefix(s: Seq<char>, n: int)
    requires
        short_digit_runs(s),
        0 <= n <= s.len(),
    ensures
        short_digit_runs(s.take(n)),
    decreases s.len(),
{
    if n < s.len() {
        assert(s.drop_last().take(n) =~= s.take(n));
        lemma_short_digit_runs_prefix(s.drop_last(), n);
    } else {
        assert(s.take(n) =~= s);
    }
}

/// Whether every run of ASCII digits in `s` is shorter than ten characters (see
/// `short_digit_runs`).
pub fn has_short_digit_runs(s: &str) -> (r: bool)
    ensures
        r == short_digit_runs(s@),
{
    let cs = str_chars(s);
    let mut value: u64 = 0;
    let mut i: usize = 0;
    proof {
        assert(cs@.take(0) =~= Seq::<char>::empty());
    }
    while i < cs.len()
        invariant
            i <= cs@.len(),
            cs@ == s@,
            value == trailing_value(cs@.take(i as int)),
            value <= u32::MAX,
            short_digit_runs(cs@.take(i as int)),
        decreases cs@.len() - i,
    {
        let c = cs[i];
        proof {
            assert(cs@.take(i + 1).drop_last() =~= cs@.take(i as int));
            assert(cs@.take(i + 1).last() == c);
        }
        if '0' <= c && c <= '9' {
            let d = (c as u32) - ('0' as u32);
            value = value * 10 + d as u64;
        } else {
            value = 0;
        }
        proof {
            assert(trailing_value(cs@.take(i + 1)) == value);
        }
        if value > 0xffff_ffff {
            proof {
                assert(!short_digit_runs(cs@.take(i + 1)));
                if short_digit_runs(cs@) {
                    lemma_short_digit_runs_prefix(cs@, i + 1);
                }
                assert(!short_digit_runs(s@));
            }
            return false;
        }
        i = i + 1;
    }
    proof {
        assert(cs@.take(i as int) =~= cs@);
    }
    true
}

} // verus!

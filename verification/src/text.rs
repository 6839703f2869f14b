use vstd::prelude::*;

verus! {

/// `pat` occurs in `s` starting at position `i`.
pub open spec fn matches_at(s: Seq<char>, pat: Seq<char>, i: int) -> bool {
    0 <= i && i + pat.len() <= s.len() && s.subrange(i, i + pat.len() as int) == pat
}

/// `pat` occurs somewhere in `s`.
pub open spec fn contains_seq(s: Seq<char>, pat: Seq<char>) -> bool {
    exists|i: int| matches_at(s, pat, i)
}

/// The result of replacing every occurrence of `pat` in `s` by `rep`,
/// scanning left to right over non-overlapping occurrences, exactly as
/// `str::replace` does.
pub open spec fn replaced(s: Seq<char>, pat: Seq<char>, rep: Seq<char>) -> Seq<char>
    decreases s.len(),
{
    if pat.len() == 0 || s.len() < pat.len() {
        s
    } else if s.subrange(0, pat.len() as int) == pat {
        rep + replaced(s.skip(pat.len() as int), pat, rep)
    } else {
        seq![s[0]] + replaced(s.skip(1), pat, rep)
    }
}

proof fn lemma_skip_skip(s: Seq<char>, i: int, j: int)
    requires
        0 <= i,
        0 <= j,
        i + j <= s.len(),
    ensures
        s.skip(i).skip(j) =~= s.skip(i + j),
{
}

/// Whether `s[i..i+pat.len()]` equals `pat`.
fn slice_matches(s: &str, i: usize, pat: &str) -> (r: bool)
    requires
        i + pat@.len() <= s@.len(),
    ensures
        r == (s@.subrange(i as int, i + pat@.len()) == pat@),
{
    let s_len = s.unicode_len();
    let pat_len = pat.unicode_len();
    let mut k: usize = 0;
    while k < pat_len
        invariant
            k <= pat_len,
            s_len == s@.len(),
            pat_len == pat@.len(),
            i + pat_len <= s_len,
            forall|j: int| 0 <= j < k ==> s@[i + j] == pat@[j],
        decreases pat_len - k,
    {
        if s.get_char(i + k) != pat.get_char(k) {
            assert(s@.subrange(i as int, i + pat@.len())[k as int] != pat@[k as int]);
            return false;
        }
        k = k + 1;
    }
    proof {
        assert(s@.subrange(i as int, i + pat@.len()) =~= pat@);
    }
    true
}

/// Replaces every occurrence of `pat` in `s` by `rep`, left to right.
pub fn replace_all(s: &str, pat: &str, rep: &str) -> (r: String)
    requires
        pat@.len() >= 1,
    ensures
        r@ == replaced(s@, pat@, rep@),
{
    let s_len = s.unicode_len();
    let pat_len = pat.unicode_len();
    let mut r = String::new();
    let mut i: usize = 0;
    proof {
        assert(s@.skip(0) =~= s@);
    }
    while i < s_len
        invariant
            i <= s_len,
            s_len == s@.len(),
            pat_len == pat@.len(),
            pat@.len() >= 1,
            replaced(s@, pat@, rep@) == r@ + replaced(s@.skip(i as int), pat@, rep@),
        decreases s_len - i,
    {
        let ghost rest = s@.skip(i as int);
        assert(rest.len() == s_len - i);
        if pat_len <= s_len - i && slice_matches(s, i, pat) {
            proof {
                assert(rest.subrange(0, pat@.len() as int) =~= s@.subrange(
                    i as int,
                    i + pat@.len(),
                ));
                lemma_skip_skip(s@, i as int, pat@.len() as int);
                assert(replaced(rest, pat@, rep@) == rep@ + replaced(
                    s@.skip(i + pat@.len()),
                    pat@,
                    rep@,
                ));
                assert((r@ + rep@) + replaced(s@.skip(i + pat@.len()), pat@, rep@) =~= r@ + (rep@
                    + replaced(s@.skip(i + pat@.len()), pat@, rep@)));
            }
            r.append(rep);
            i = i + pat_len;
        } else {
            let c = s.substring_char(i, i + 1);
            proof {
                lemma_skip_skip(s@, i as int, 1);
                if pat_len <= s_len - i {
                    assert(rest.subrange(0, pat@.len() as int) =~= s@.subrange(
                        i as int,
                        i + pat@.len(),
                    ));
                    assert(rest.subrange(0, pat@.len() as int) != pat@);
                } else {
                    assert(rest.len() < pat@.len());
                }
                assert(seq![rest[0]] =~= s@.subrange(i as int, i + 1));
                if rest.len() < pat@.len() {
                    // the tail is kept as it is; peel one character off it
                    assert(s@.skip(i + 1).len() < pat@.len());
                    assert(replaced(rest, pat@, rep@) == rest);
                    assert(replaced(s@.skip(i + 1), pat@, rep@) == s@.skip(i + 1));
                    assert(rest =~= s@.subrange(i as int, i + 1) + s@.skip(i + 1));
                } else {
                    assert(replaced(rest, pat@, rep@) == seq![rest[0]] + replaced(
                        s@.skip(i + 1),
                        pat@,
                        rep@,
                    ));
                }
                assert((r@ + s@.subrange(i as int, i + 1)) + replaced(s@.skip(i + 1), pat@, rep@)
                    =~= r@ + (s@.subrange(i as int, i + 1) + replaced(s@.skip(i + 1), pat@, rep@)));
            }
            r.append(c);
            i = i + 1;
        }
    }
    proof {
        assert(s@.skip(s_len as int) =~= Seq::<char>::empty());
        assert(replaced(Seq::<char>::empty(), pat@, rep@) == Seq::<char>::empty());
        assert(r@ + Seq::<char>::empty() =~= r@);
    }
    r
}

/// Whether `pat` occurs anywhere in `s`.
pub fn contains_pattern(s: &str, pat: &str) -> (r: bool)
    requires
        pat@.len() >= 1,
    ensures
        r == contains_seq(s@, pat@),
{
    let s_len = s.unicode_len();
    let pat_len = pat.unicode_len();
    if pat_len > s_len {
        assert(forall|i: int| !matches_at(s@, pat@, i));
        return false;
    }
    let mut i: usize = 0;
    while i <= s_len - pat_len
        invariant
            i <= s_len - pat_len + 1,
            s_len == s@.len(),
            pat_len == pat@.len(),
            1 <= pat_len <= s_len,
            forall|j: int| 0 <= j < i ==> !matches_at(s@, pat@, j),
        decreases s_len - i,
    {
        if slice_matches(s, i, pat) {
            assert(matches_at(s@, pat@, i as int));
            return true;
        }
        assert(!matches_at(s@, pat@, i as int));
        i = i + 1;
    }
    assert(forall|j: int| i <= j ==> !matches_at(s@, pat@, j));
    false
}

/// No occurrence of `pat` in `s` means replacement leaves `s` unchanged.
pub proof fn lemma_replace_absent(s: Seq<char>, pat: Seq<char>, rep: Seq<char>)
    requires
        !contains_seq(s, pat),
    ensures
        replaced(s, pat, rep) == s,
    decreases s.len(),
{
    if pat.len() == 0 || s.len() < pat.len() {
    } else {
        assert(!matches_at(s, pat, 0));
        assert(s.subrange(0, pat.len() as int) != pat);
        assert forall|i: int| !matches_at(s.skip(1), pat, i) by {
            if matches_at(s.skip(1), pat, i) {
                assert(s.subrange(i + 1, i + 1 + pat.len()) =~= s.skip(1).subrange(
                    i,
                    i + pat.len() as int,
                ));
                assert(matches_at(s, pat, i + 1));
            }
        }
        lemma_replace_absent(s.skip(1), pat, rep);
        assert(seq![s[0]] + s.skip(1) =~= s);
    }
}

/// The suffix of `s` after the rightmost occurrence of `pat` at a position
/// at most `i`; `s` itself when there is none.
pub open spec fn suffix_after_last_from(s: Seq<char>, pat: Seq<char>, i: int) -> Seq<char>
    decreases i + 1,
{
    if i < 0 {
        s
    } else if matches_at(s, pat, i) {
        s.skip(i + pat.len())
    } else {
        suffix_after_last_from(s, pat, i - 1)
    }
}

/// The suffix of `s` after the last occurrence of `pat`; `s` itself when
/// `pat` does not occur in `s`.
pub open spec fn suffix_after_last(s: Seq<char>, pat: Seq<char>) -> Seq<char> {
    suffix_after_last_from(s, pat, s.len() - pat.len())
}

/// Returns the part of `s` after the last occurrence of `pat`, or all of `s`
/// when `pat` does not occur.
pub fn substring_after_last(s: &str, pat: &str) -> (r: String)
    requires
        pat@.len() >= 1,
    ensures
        r@ == suffix_after_last(s@, pat@),
{
    let s_len = s.unicode_len();
    let pat_len = pat.unicode_len();
    if pat_len > s_len {
        return s.to_owned();
    }
    let mut j: usize = s_len - pat_len + 1;
    while j > 0
        invariant
            j <= s_len - pat_len + 1,
            s_len == s@.len(),
            pat_len == pat@.len(),
            pat@.len() >= 1,
            pat_len <= s_len,
            suffix_after_last(s@, pat@) == suffix_after_last_from(s@, pat@, j - 1),
        decreases j,
    {
        if slice_matches(s, j - 1, pat) {
            assert(matches_at(s@, pat@, j - 1));
            let tail = s.substring_char(j - 1 + pat_len, s_len);
            proof {
                assert(s@.subrange(j - 1 + pat@.len(), s@.len() as int) =~= s@.skip(
                    j - 1 + pat@.len(),
                ));
            }
            return tail.to_owned();
        }
        assert(!matches_at(s@, pat@, j - 1));
        j = j - 1;
    }
    s.to_owned()
}

/// `c` is a decimal digit.
pub open spec fn is_digit(c: char) -> bool {
    '0' <= c && c <= '9'
}

/// Every character of `s` is a decimal digit.
pub open spec fn all_digits(s: Seq<char>) -> bool {
    forall|i: int| 0 <= i < s.len() ==> is_digit(#[trigger] s[i])
}

/// The numeric value of a sequence of decimal digit characters.
pub open spec fn digits_val(s: Seq<char>) -> int
    decreases s.len(),
{
    if s.len() == 0 {
        0
    } else {
        digits_val(s.drop_last()) * 10 + (s.last() as int - '0' as int)
    }
}

/// The digit characters that `usize::from_str` reads: an optional leading
/// `+` sign is removed.
pub open spec fn digits_of(s: Seq<char>) -> Seq<char> {
    if s.len() > 0 && s[0] == '+' {
        s.skip(1)
    } else {
        s
    }
}

/// `s` is a string that parses as a `usize`: an optional `+` sign, then at
/// least one decimal digit, with a value that fits.
pub open spec fn parses_as_usize(s: Seq<char>) -> bool {
    digits_of(s).len() > 0 && all_digits(digits_of(s)) && digits_val(digits_of(s)) <= usize::MAX
}

proof fn lemma_digits_val_nonneg(s: Seq<char>)
    requires
        all_digits(s),
    ensures
        digits_val(s) >= 0,
    decreases s.len(),
{
    if s.len() > 0 {
        assert(all_digits(s.drop_last())) by {
            assert(forall|i: int|
                0 <= i < s.drop_last().len() ==> s.drop_last()[i] == #[trigger] s[i]);
        }
        lemma_digits_val_nonneg(s.drop_last());
    }
}

proof fn lemma_digits_val_prefix(s: Seq<char>, i: int)
    requires
        all_digits(s),
        0 <= i <= s.len(),
    ensures
        digits_val(s) >= digits_val(s.take(i)),
    decreases s.len() - i,
{
    if i < s.len() {
        lemma_digits_val_prefix(s, i + 1);
        let t = s.take(i + 1);
        assert(t.drop_last() =~= s.take(i));
        assert(all_digits(t)) by {
            assert(forall|k: int| 0 <= k < t.len() ==> t[k] == #[trigger] s[k]);
        }
        assert(all_digits(s.take(i))) by {
            assert(forall|k: int|
                0 <= k < s.take(i).len() ==> s.take(i)[k] == #[trigger] s[k]);
        }
        lemma_digits_val_nonneg(s.take(i));
        assert(digits_val(t) == digits_val(s.take(i)) * 10 + (t.last() as int - '0' as int));
        assert(is_digit(s[i]));
        assert(digits_val(t) >= digits_val(s.take(i)));
    } else {
        assert(s.take(i) =~= s);
    }
}

/// Parses a decimal `usize` as `usize::from_str` does: an optional leading
/// `+`, then one or more digits; `None` on anything else or on overflow.
pub fn parse_usize(s: &str) -> (r: Option<usize>)
    ensures
        match r {
            Some(v) => parses_as_usize(s@) && v == digits_val(digits_of(s@)),
            None => !parses_as_usize(s@),
        },
{
    let s_len = s.unicode_len();
    let start: usize = if s_len > 0 && s.get_char(0) == '+' {
        1
    } else {
        0
    };
    let ghost digits = digits_of(s@);
    proof {
        assert(digits =~= s@.skip(start as int));
    }
    if s_len == start {
        return None;
    }
    let mut v: usize = 0;
    let mut i: usize = start;
    while i < s_len
        invariant
            start <= i <= s_len,
            s_len == s@.len(),
            digits == digits_of(s@),
            digits == s@.skip(start as int),
            digits.len() == s_len - start,
            all_digits(digits.take(i - start)),
            v == digits_val(digits.take(i - start)),
        decreases s_len - i,
    {
        let c = s.get_char(i);
        if c < '0' || c > '9' {
            assert(digits[i - start] == s@[i as int]);
            assert(!is_digit(digits[i - start]));
            return None;
        }
        let d = (c as u32 - '0' as u32) as usize;
        let ghost prev = digits.take(i - start);
        let ghost cur = digits.take(i + 1 - start);
        proof {
            assert(cur.drop_last() =~= prev);
            assert(cur.last() == s@[i as int]);
            assert(all_digits(cur)) by {
                assert(forall|k: int| 0 <= k < i - start ==> cur[k] == #[trigger] prev[k]);
                assert(is_digit(cur[i - start]));
            }
            assert(digits_val(cur) == digits_val(prev) * 10 + (c as int - '0' as int));
        }
        let w = match v.checked_mul(10) {
            Some(w) => w,
            None => {
                proof {
                    lemma_digits_val_nonneg(prev);
                    assert(digits_val(cur) > usize::MAX);
                    lemma_digits_val_prefix_overflow(digits, i + 1 - start);
                }
                return None;
            },
        };
        let v2 = match w.checked_add(d) {
            Some(v2) => v2,
            None => {
                proof {
                    assert(digits_val(cur) > usize::MAX);
                    lemma_digits_val_prefix_overflow(digits, i + 1 - start);
                }
                return None;
            },
        };
        v = v2;
        i = i + 1;
    }
    proof {
        assert(digits.take(i - start) =~= digits);
    }
    Some(v)
}

proof fn lemma_digits_val_prefix_overflow(s: Seq<char>, i: int)
    requires
        0 <= i <= s.len(),
        all_digits(s.take(i)),
        digits_val(s.take(i)) > usize::MAX,
    ensures
        !(all_digits(s) && digits_val(s) <= usize::MAX),
{
    if all_digits(s) {
        lemma_digits_val_prefix(s, i);
    }
}

/// The character for the decimal digit `d`.
pub open spec fn dec_digit(d: int) -> char {
    if d == 0 {
        '0'
    } else if d == 1 {
        '1'
    } else if d == 2 {
        '2'
    } else if d == 3 {
        '3'
    } else if d == 4 {
        '4'
    } else if d == 5 {
        '5'
    } else if d == 6 {
        '6'
    } else if d == 7 {
        '7'
    } else if d == 8 {
        '8'
    } else {
        '9'
    }
}

/// The decimal digit characters of `n`, most significant first.
pub open spec fn dec_digits(n: int) -> Seq<char>
    decreases n,
{
    if n < 10 {
        seq![dec_digit(n)]
    } else {
        dec_digits(n / 10) + seq![dec_digit(n % 10)]
    }
}

fn digit_str(d: u64) -> (r: &'static str)
    requires
        d < 10,
    ensures
        r@ =~= seq![dec_digit(d as int)],
{
    proof {
        reveal_strlit("0");
        reveal_strlit("1");
        reveal_strlit("2");
        reveal_strlit("3");
        reveal_strlit("4");
        reveal_strlit("5");
        reveal_strlit("6");
        reveal_strlit("7");
        reveal_strlit("8");
        reveal_strlit("9");
    }
    match d {
        0 => "0",
        1 => "1",
        2 => "2",
        3 => "3",
        4 => "4",
        5 => "5",
        6 => "6",
        7 => "7",
        8 => "8",
        _ => "9",
    }
}

/// Writes `n` in decimal.
pub fn u64_to_dec_string(n: u64) -> (r: String)
    ensures
        r@ == dec_digits(n as int),
    decreases n,
{
    if n < 10 {
        digit_str(n).to_owned()
    } else {
        let mut r = u64_to_dec_string(n / 10);
        r.append(digit_str(n % 10));
        r
    }
}

} // verus!

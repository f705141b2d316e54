//! Character-level text helpers shared by the solvers and the crawler.
use vstd::prelude::*;

verus! {

broadcast use vstd::string::axiom_spec_iter;

/// Appends one character to a `String` (std `String::push`).
/// Trusted: the new contents are the old contents followed by `c`.
#[verifier::external_body]
pub(crate) fn push_char(s: &mut String, c: char)
    ensures
        final(s)@ == old(s)@.push(c),
{
    s.push(c);
}

/// What std's `Debug` writes for the string `s`: `s` in double quotes, with
/// quotes, backslashes and non-printable characters escaped.
pub uninterp spec fn str_debug(s: Seq<char>) -> Seq<char>;

/// Formats `s` with std's `<str as Debug>::fmt` (`format!("{:?}", s)`).
/// Trusted: the result is `str_debug(s)`; the escaping rules are not restated.
#[verifier::external_body]
pub(crate) fn debug_quoted(s: &str) -> (t: String)
    ensures
        t@ == str_debug(s@),
{
    format!("{:?}", s)
}

/// The text (`Display`) of the `ParseIntError` that std's `str::parse::<i64>`
/// gives for `s`, on which it fails.
pub uninterp spec fn i64_parse_error(s: Seq<char>) -> Seq<char>;

/// The message std's `str::parse::<i64>` fails with on `s`, which is not the
/// text of an `i64` (`spec_parse_i64` is `None`).
/// Trusted: the result is `i64_parse_error(s)`; which of std's messages applies
/// is not restated.
#[verifier::external_body]
pub(crate) fn parse_i64_error_text(s: &str) -> (t: String)
    requires
        spec_parse_i64(s@) is None,
    ensures
        t@ == i64_parse_error(s@),
{
    match s.parse::<i64>() {
        Err(e) => e.to_string(),
        Ok(_) => String::new(),
    }
}

/// The characters of `s`, in order.
pub fn chars_of(s: &str) -> (v: Vec<char>)
    ensures
        v@ == s@,
{
    let mut v: Vec<char> = Vec::new();
    for c in it: s.chars()
        invariant
            v@ == it.seq().take(it.index() as int),
            it.seq() == s@,
    {
        v.push(c);
    }
    v
}

/// A `String` holding exactly the characters `v`.
pub fn string_of(v: &[char]) -> (s: String)
    ensures
        s@ == v@,
{
    let mut s = String::new();
    let mut i: usize = 0;
    while i < v.len()
        invariant
            i <= v.len(),
            s@ == v@.take(i as int),
        decreases v.len() - i,
    {
        push_char(&mut s, v[i]);
        assert(v@.take(i + 1) == v@.take(i as int).push(v@[i as int]));
        i = i + 1;
    }
    assert(v@.take(v.len() as int) == v@);
    s
}


/// The first `n` characters of `v`.
pub fn prefix(v: &[char], n: usize) -> (r: Vec<char>)
    requires
        n <= v.len(),
    ensures
        r@ == v@.take(n as int),
{
    let mut r: Vec<char> = Vec::new();
    let mut i: usize = 0;
    while i < n
        invariant
            i <= n,
            n <= v.len(),
            r@ == v@.take(i as int),
        decreases n - i,
    {
        r.push(v[i]);
        assert(v@.take(i + 1) == v@.take(i as int).push(v@[i as int]));
        i = i + 1;
    }
    r
}

/// `t` occurs in `s` starting at position `i`.
pub open spec fn occurs_at(s: Seq<char>, t: Seq<char>, i: int) -> bool {
    0 <= i && i + t.len() <= s.len() && s.subrange(i, i + t.len()) == t
}

/// `t` occurs somewhere in `s` (std `str::contains` with a string pattern).
pub open spec fn has_substring(s: Seq<char>, t: Seq<char>) -> bool {
    exists|i: int| occurs_at(s, t, i)
}

/// Whether `t` occurs in `s`.
pub fn contains(s: &str, t: &str) -> (b: bool)
    ensures
        b == has_substring(s@, t@),
{
    let sc = chars_of(s);
    let tc = chars_of(t);
    if tc.len() > sc.len() {
        assert forall|i: int| !occurs_at(s@, t@, i) by {}
        return false;
    }
    let last = sc.len() - tc.len();
    let mut i: usize = 0;
    while i <= last
        invariant
            last == sc.len() - tc.len(),
            tc.len() <= sc.len(),
            sc@ == s@,
            tc@ == t@,
            forall|k: int| 0 <= k < i ==> !occurs_at(s@, t@, k),
        decreases last + 1 - i,
    {
        let mut j: usize = 0;
        while j < tc.len() && sc[i + j] == tc[j]
            invariant
                i <= last,
                last == sc.len() - tc.len(),
                j <= tc.len(),
                forall|q: int| 0 <= q < j ==> sc@[i + q] == tc@[q],
            decreases tc.len() - j,
        {
            j = j + 1;
        }
        if j == tc.len() {
            assert(sc@.subrange(i as int, i + tc.len()) == tc@);
            assert(occurs_at(s@, t@, i as int));
            return true;
        }
        assert(sc@.subrange(i as int, i + tc.len())[j as int] != tc@[j as int]);
        i = i + 1;
    }
    assert forall|k: int| !occurs_at(s@, t@, k) by {
        if 0 <= k < i {
        }
    }
    false
}

/// Unicode `White_Space`: the characters for which std's `char::is_whitespace`
/// holds (used by `str::trim` and `str::split_whitespace`).
pub open spec fn is_white_space(c: char) -> bool {
    ||| '\u{9}' <= c <= '\u{d}'
    ||| c == ' '
    ||| c == '\u{85}'
    ||| c == '\u{a0}'
    ||| c == '\u{1680}'
    ||| '\u{2000}' <= c <= '\u{200a}'
    ||| c == '\u{2028}'
    ||| c == '\u{2029}'
    ||| c == '\u{202f}'
    ||| c == '\u{205f}'
    ||| c == '\u{3000}'
}

/// Whether `c` is Unicode white space.
pub fn is_whitespace(c: char) -> (b: bool)
    ensures
        b == is_white_space(c),
{
    ('\u{9}' <= c && c <= '\u{d}') || c == ' ' || c == '\u{85}' || c == '\u{a0}' || c == '\u{1680}'
        || ('\u{2000}' <= c && c <= '\u{200a}') || c == '\u{2028}' || c == '\u{2029}' || c
        == '\u{202f}' || c == '\u{205f}' || c == '\u{3000}'
}

/// Number of leading white-space characters of `s`.
pub open spec fn lead_ws(s: Seq<char>) -> nat
    decreases s.len(),
{
    if s.len() > 0 && is_white_space(s[0]) {
        1 + lead_ws(s.drop_first())
    } else {
        0
    }
}

/// Number of trailing white-space characters of `s`.
pub open spec fn trail_ws(s: Seq<char>) -> nat
    decreases s.len(),
{
    if s.len() > 0 && is_white_space(s.last()) {
        1 + trail_ws(s.drop_last())
    } else {
        0
    }
}

/// Length of the run of non-white-space characters that starts `s`.
pub open spec fn word_len(s: Seq<char>) -> nat
    decreases s.len(),
{
    if s.len() > 0 && !is_white_space(s[0]) {
        1 + word_len(s.drop_first())
    } else {
        0
    }
}

/// `s` without its leading and trailing white space (std `str::trim`).
pub open spec fn spec_trim(s: Seq<char>) -> Seq<char> {
    let t = s.skip(lead_ws(s) as int);
    t.take(t.len() - trail_ws(t))
}

pub proof fn lemma_lead_ws(s: Seq<char>)
    ensures
        lead_ws(s) <= s.len(),
        forall|i: int| 0 <= i < lead_ws(s) ==> is_white_space(#[trigger] s[i]),
        lead_ws(s) < s.len() ==> !is_white_space(s[lead_ws(s) as int]),
    decreases s.len(),
{
    if s.len() > 0 && is_white_space(s[0]) {
        lemma_lead_ws(s.drop_first());
        assert forall|i: int| 0 <= i < lead_ws(s) implies is_white_space(#[trigger] s[i]) by {
            if i > 0 {
                assert(s[i] == s.drop_first()[i - 1]);
            }
        }
    }
}

pub proof fn lemma_trail_ws(s: Seq<char>)
    ensures
        trail_ws(s) <= s.len(),
        forall|i: int| s.len() - trail_ws(s) <= i < s.len() ==> is_white_space(#[trigger] s[i]),
        trail_ws(s) < s.len() ==> !is_white_space(s[s.len() - trail_ws(s) - 1]),
    decreases s.len(),
{
    if s.len() > 0 && is_white_space(s.last()) {
        lemma_trail_ws(s.drop_last());
        assert forall|i: int| s.len() - trail_ws(s) <= i < s.len() implies is_white_space(
            #[trigger] s[i],
        ) by {
            if i < s.len() - 1 {
                assert(s[i] == s.drop_last()[i]);
            }
        }
    }
}

pub proof fn lemma_word_len(s: Seq<char>)
    ensures
        word_len(s) <= s.len(),
        forall|i: int| 0 <= i < word_len(s) ==> !is_white_space(#[trigger] s[i]),
        word_len(s) < s.len() ==> is_white_space(s[word_len(s) as int]),
    decreases s.len(),
{
    if s.len() > 0 && !is_white_space(s[0]) {
        lemma_word_len(s.drop_first());
        assert forall|i: int| 0 <= i < word_len(s) implies !is_white_space(#[trigger] s[i]) by {
            if i > 0 {
                assert(s[i] == s.drop_first()[i - 1]);
            }
        }
    }
}

/// `lead_ws` is the length of the longest all-white-space prefix.
pub proof fn lemma_lead_ws_unique(s: Seq<char>, k: int)
    requires
        0 <= k <= s.len(),
        forall|i: int| 0 <= i < k ==> is_white_space(#[trigger] s[i]),
        k == s.len() || !is_white_space(s[k]),
    ensures
        lead_ws(s) == k,
    decreases s.len(),
{
    if k > 0 {
        assert(is_white_space(s[0]));
        assert forall|i: int| 0 <= i < k - 1 implies is_white_space(#[trigger] s.drop_first()[i]) by {
            assert(s.drop_first()[i] == s[i + 1]);
        }
        if k < s.len() {
            assert(s.drop_first()[k - 1] == s[k]);
        }
        lemma_lead_ws_unique(s.drop_first(), k - 1);
    }
}

/// `trail_ws` is the length of the longest all-white-space suffix.
pub proof fn lemma_trail_ws_unique(s: Seq<char>, k: int)
    requires
        0 <= k <= s.len(),
        forall|i: int| s.len() - k <= i < s.len() ==> is_white_space(#[trigger] s[i]),
        k == s.len() || !is_white_space(s[s.len() - k - 1]),
    ensures
        trail_ws(s) == k,
    decreases s.len(),
{
    if k > 0 {
        assert(is_white_space(s.last()));
        let t = s.drop_last();
        assert forall|i: int| t.len() - (k - 1) <= i < t.len() implies is_white_space(#[trigger] t[i]) by {
            assert(t[i] == s[i]);
        }
        if k < s.len() {
            assert(t[t.len() - (k - 1) - 1] == s[s.len() - k - 1]);
        }
        lemma_trail_ws_unique(t, k - 1);
    }
}

/// `word_len` is the length of the longest white-space-free prefix.
pub proof fn lemma_word_len_unique(s: Seq<char>, k: int)
    requires
        0 <= k <= s.len(),
        forall|i: int| 0 <= i < k ==> !is_white_space(#[trigger] s[i]),
        k == s.len() || is_white_space(s[k]),
    ensures
        word_len(s) == k,
    decreases s.len(),
{
    if k > 0 {
        assert(!is_white_space(s[0]));
        assert forall|i: int| 0 <= i < k - 1 implies !is_white_space(#[trigger] s.drop_first()[i]) by {
            assert(s.drop_first()[i] == s[i + 1]);
        }
        if k < s.len() {
            assert(s.drop_first()[k - 1] == s[k]);
        }
        lemma_word_len_unique(s.drop_first(), k - 1);
    }
}

/// Index of the first non-white-space character at or after `from`, or `s.len()`.
fn skip_ws(s: &[char], from: usize) -> (j: usize)
    requires
        from <= s.len(),
    ensures
        from <= j <= s.len(),
        forall|i: int| from <= i < j ==> is_white_space(#[trigger] s@[i]),
        j == s.len() || !is_white_space(s@[j as int]),
{
    let mut j = from;
    while j < s.len() && is_whitespace(s[j])
        invariant
            from <= j <= s.len(),
            forall|i: int| from <= i < j ==> is_white_space(#[trigger] s@[i]),
        decreases s.len() - j,
    {
        j = j + 1;
    }
    j
}

/// `s` without leading and trailing white space.
pub fn trim(s: &[char]) -> (t: Vec<char>)
    ensures
        t@ == spec_trim(s@),
{
    let n = s.len();
    let i = skip_ws(s, 0);
    let mut j = n;
    while j > i && is_whitespace(s[j - 1])
        invariant
            i <= j <= n,
            n == s.len(),
            forall|k: int| j <= k < n ==> is_white_space(#[trigger] s@[k]),
        decreases j,
    {
        j = j - 1;
    }
    proof {
        lemma_lead_ws_unique(s@, i as int);
        let u = s@.skip(i as int);
        assert forall|k: int| u.len() - (n - j) <= k < u.len() implies is_white_space(#[trigger] u[k]) by {
            assert(u[k] == s@[k + i]);
        }
        if j > i {
            assert(u[u.len() - (n - j) - 1] == s@[j - 1]);
        }
        lemma_trail_ws_unique(u, n - j);
    }
    let mut t: Vec<char> = Vec::new();
    let mut k = i;
    while k < j
        invariant
            i <= k <= j,
            j <= s.len(),
            t@ == s@.subrange(i as int, k as int),
        decreases j - k,
    {
        t.push(s[k]);
        assert(s@.subrange(i as int, k + 1) == s@.subrange(i as int, k as int).push(s@[k as int]));
        k = k + 1;
    }
    assert(t@ == spec_trim(s@));
    t
}


/// Trimming ignores white space appended at the end.
pub proof fn lemma_trim_append_ws(x: Seq<char>, w: Seq<char>)
    requires
        forall|i: int| 0 <= i < w.len() ==> is_white_space(#[trigger] w[i]),
    ensures
        spec_trim(x + w) == spec_trim(x),
{
    let y = x + w;
    lemma_lead_ws(x);
    let a = lead_ws(x) as int;
    if a == x.len() {
        assert forall|i: int| 0 <= i < y.len() implies is_white_space(#[trigger] y[i]) by {
            if i < x.len() {
                assert(y[i] == x[i]);
            } else {
                assert(y[i] == w[i - x.len()]);
            }
        }
        lemma_lead_ws_unique(y, y.len() as int);
        assert(y.skip(y.len() as int) == Seq::<char>::empty());
        assert(x.skip(x.len() as int) == Seq::<char>::empty());
        lemma_trail_ws(Seq::<char>::empty());
    } else {
        assert forall|i: int| 0 <= i < a implies is_white_space(#[trigger] y[i]) by {
            assert(y[i] == x[i]);
        }
        assert(y[a] == x[a]);
        lemma_lead_ws_unique(y, a);
        let v = x.skip(a);
        let u = y.skip(a);
        assert(u == v + w);
        lemma_trail_ws(v);
        let t = trail_ws(v) as int;
        assert(v[0] == x[a]);
        assert(t < v.len());
        let k = t + w.len();
        assert forall|i: int| u.len() - k <= i < u.len() implies is_white_space(#[trigger] u[i]) by {
            if i < v.len() {
                assert(u[i] == v[i]);
            } else {
                assert(u[i] == w[i - v.len()]);
            }
        }
        assert(u[u.len() - k - 1] == v[v.len() - t - 1]);
        lemma_trail_ws_unique(u, k);
        assert(u.take(u.len() - k) == v.take(v.len() - t));
    }
}

/// Replacement distributes over concatenation.
pub proof fn lemma_replace_append(s: Seq<char>, t: Seq<char>, from: char, to: char)
    ensures
        replace_char(s + t, from, to) == replace_char(s, from, to) + replace_char(t, from, to),
{
    assert(replace_char(s + t, from, to) =~= replace_char(s, from, to) + replace_char(t, from, to));
}

/// `s` with every `from` replaced by `to` (std `str::replace` with one-character
/// pattern and replacement).
pub open spec fn replace_char(s: Seq<char>, from: char, to: char) -> Seq<char> {
    s.map_values(|c: char| if c == from { to } else { c })
}

/// Replaces every occurrence of `from` in `s` by `to`.
pub fn replace(s: &[char], from: char, to: char) -> (r: Vec<char>)
    ensures
        r@ == replace_char(s@, from, to),
{
    let mut r: Vec<char> = Vec::new();
    let mut i: usize = 0;
    while i < s.len()
        invariant
            i <= s.len(),
            r@ == replace_char(s@.take(i as int), from, to),
        decreases s.len() - i,
    {
        let c = s[i];
        r.push(if c == from { to } else { c });
        assert(replace_char(s@.take(i + 1), from, to) == replace_char(s@.take(i as int), from, to).push(
            if c == from { to } else { c },
        ));
        i = i + 1;
    }
    assert(s@.take(s.len() as int) == s@);
    r
}

/// The white-space-separated words of `s`, in order (std `str::split_whitespace`).
pub open spec fn split_ws(s: Seq<char>) -> Seq<Seq<char>>
    decreases s.len(),
{
    let a = lead_ws(s);
    if a >= s.len() {
        seq![]
    } else {
        let t = s.skip(a as int);
        let k = word_len(t);
        proof {
            lemma_lead_ws(s);
            lemma_word_len(t);
            if k == 0 {
                assert(t[0] == s[a as int]);
            }
        }
        seq![t.take(k as int)] + split_ws(t.skip(k as int))
    }
}

/// Splits `s` into its white-space-separated words.
pub fn split_whitespace(s: &[char]) -> (words: Vec<Vec<char>>)
    ensures
        words.deep_view() == split_ws(s@),
{
    let n = s.len();
    let mut words: Vec<Vec<char>> = Vec::new();
    let mut i: usize = 0;
    assert(words.deep_view() == Seq::<Seq<char>>::empty());
    assert(s@.skip(0) == s@);
    assert(Seq::<Seq<char>>::empty() + split_ws(s@) == split_ws(s@));
    while i < n
        invariant
            i <= n,
            n == s.len(),
            words.deep_view() + split_ws(s@.skip(i as int)) == split_ws(s@),
        decreases n - i,
    {
        let ghost rest = s@.skip(i as int);
        let j = skip_ws(s, i);
        proof {
            assert forall|k: int| 0 <= k < j - i implies is_white_space(#[trigger] rest[k]) by {
                assert(rest[k] == s@[k + i]);
            }
            if j < n {
                assert(rest[j - i] == s@[j as int]);
            }
            lemma_lead_ws_unique(rest, j - i);
        }
        if j == n {
            assert(split_ws(rest) == Seq::<Seq<char>>::empty());
            assert(s@.skip(n as int) == Seq::<char>::empty());
            assert(split_ws(Seq::<char>::empty()) == Seq::<Seq<char>>::empty());
            assert(words.deep_view() + Seq::<Seq<char>>::empty() == words.deep_view());
            i = n;
        } else {
            let mut k = j;
            while k < n && !is_whitespace(s[k])
                invariant
                    j <= k <= n,
                    n == s.len(),
                    forall|m: int| j <= m < k ==> !is_white_space(#[trigger] s@[m]),
                decreases n - k,
            {
                k = k + 1;
            }
            let mut w: Vec<char> = Vec::new();
            let mut m = j;
            while m < k
                invariant
                    j <= m <= k,
                    k <= n,
                    n == s.len(),
                    w@ == s@.subrange(j as int, m as int),
                decreases k - m,
            {
                w.push(s[m]);
                assert(s@.subrange(j as int, m + 1) == s@.subrange(j as int, m as int).push(
                    s@[m as int],
                ));
                m = m + 1;
            }
            proof {
                let t = rest.skip(j - i);
                assert(t == s@.skip(j as int));
                assert forall|q: int| 0 <= q < k - j implies !is_white_space(#[trigger] t[q]) by {
                    assert(t[q] == s@[q + j]);
                }
                if k < n {
                    assert(t[k - j] == s@[k as int]);
                }
                lemma_word_len_unique(t, k - j);
                assert(t.take(k - j) == s@.subrange(j as int, k as int));
                assert(t.skip(k - j) == s@.skip(k as int));
                assert(split_ws(rest) == seq![w@] + split_ws(s@.skip(k as int)));
                let old_words = words.deep_view();
                assert(old_words.push(w@) + split_ws(s@.skip(k as int)) == old_words + split_ws(
                    rest,
                ));
            }
            let ghost old_words = words.deep_view();
            let ghost wv = w@;
            assert(w.deep_view() =~= w@);
            words.push(w);
            assert(words.deep_view() =~= old_words.push(wv));
            i = k;
        }
    }
    assert(s@.skip(n as int) == Seq::<char>::empty());
    assert(split_ws(Seq::<char>::empty()) == Seq::<Seq<char>>::empty());
    assert(words.deep_view() + Seq::<Seq<char>>::empty() == words.deep_view());
    words
}


/// ASCII decimal digit.
pub open spec fn is_ascii_digit(c: char) -> bool {
    '0' <= c <= '9'
}

/// Numeric value of an ASCII digit.
pub open spec fn digit_value(c: char) -> int {
    c as int - '0' as int
}

/// Every character of `s` is an ASCII digit.
pub open spec fn all_digits(s: Seq<char>) -> bool {
    forall|i: int| 0 <= i < s.len() ==> is_ascii_digit(#[trigger] s[i])
}

/// Value of a string of decimal digits (most significant first).
pub open spec fn digits_value(s: Seq<char>) -> int
    decreases s.len(),
{
    if s.len() == 0 {
        0
    } else {
        digits_value(s.drop_last()) * 10 + digit_value(s.last())
    }
}

/// What std's `str::parse::<i64>` accepts and yields: an optional `+` or `-`, then
/// one or more ASCII digits whose value fits in an `i64`.
pub open spec fn spec_parse_i64(s: Seq<char>) -> Option<i64> {
    let signed = s.len() > 0 && (s[0] == '-' || s[0] == '+');
    let body = if signed { s.drop_first() } else { s };
    if body.len() == 0 || !all_digits(body) {
        None
    } else {
        let v = if s[0] == '-' { -digits_value(body) } else { digits_value(body) };
        if i64::MIN <= v <= i64::MAX {
            Some(v as i64)
        } else {
            None
        }
    }
}

pub proof fn lemma_digits_value_grows(s: Seq<char>, k: int)
    requires
        all_digits(s),
        0 <= k <= s.len(),
    ensures
        0 <= digits_value(s.take(k)) <= digits_value(s),
    decreases s.len(),
{
    if k < s.len() {
        let t = s.drop_last();
        assert(all_digits(t)) by {
            assert forall|i: int| 0 <= i < t.len() implies is_ascii_digit(#[trigger] t[i]) by {
                assert(t[i] == s[i]);
            }
        }
        lemma_digits_value_grows(t, k);
        lemma_digits_value_grows(t, t.len() as int);
        assert(t.take(k) == s.take(k));
        assert(t.take(t.len() as int) == t);
        assert(is_ascii_digit(s[s.len() - 1]));
    } else {
        assert(s.take(k) == s);
        if s.len() > 0 {
            let t = s.drop_last();
            assert(all_digits(t)) by {
                assert forall|i: int| 0 <= i < t.len() implies is_ascii_digit(#[trigger] t[i]) by {
                    assert(t[i] == s[i]);
                }
            }
            lemma_digits_value_grows(t, t.len() as int);
            assert(t.take(t.len() as int) == t);
            assert(is_ascii_digit(s[s.len() - 1]));
        }
    }
}

/// Parses `s` as std's `str::parse::<i64>` does; `None` where std reports an error.
pub fn parse_i64(s: &[char]) -> (r: Option<i64>)
    ensures
        r == spec_parse_i64(s@),
{
    let n = s.len();
    if n == 0 {
        return None;
    }
    let neg = s[0] == '-';
    let start: usize = if s[0] == '-' || s[0] == '+' { 1 } else { 0 };
    let ghost body = if start == 1 { s@.drop_first() } else { s@ };
    assert(body == s@.skip(start as int));
    if start == n {
        return None;
    }
    let limit: u64 = if neg { 9223372036854775808 } else { 9223372036854775807 };
    let mut acc: u64 = 0;
    let mut i = start;
    while i < n
        invariant
            start <= i <= n,
            n == s.len(),
            n > 0,
            neg == (s@[0] == '-'),
            start == (if s@[0] == '-' || s@[0] == '+' { 1usize } else { 0usize }),
            body == (if s@[0] == '-' || s@[0] == '+' { s@.drop_first() } else { s@ }),
            body == s@.skip(start as int),
            all_digits(body.take(i - start)),
            acc == digits_value(body.take(i - start)),
            acc <= limit,
            limit == (if neg { 9223372036854775808u64 } else { 9223372036854775807u64 }),
        decreases n - i,
    {
        let c = s[i];
        assert(c == body[i - start]);
        if !('0' <= c && c <= '9') {
            assert(!all_digits(body));
            return None;
        }
        let d: u64 = (c as u32 - '0' as u32) as u64;
        let ghost pre = body.take(i - start);
        let ghost nxt = body.take(i - start + 1);
        assert(nxt.drop_last() == pre);
        assert(all_digits(nxt)) by {
            assert forall|q: int| 0 <= q < nxt.len() implies is_ascii_digit(#[trigger] nxt[q]) by {
                if q < pre.len() {
                    assert(nxt[q] == pre[q]);
                }
            }
        }
        assert(digits_value(nxt) == acc * 10 + d);
        if acc > (limit - d) / 10 {
            proof {
                if all_digits(body) {
                    lemma_digits_value_grows(body, i - start + 1);
                }
            }
            return None;
        }
        acc = acc * 10 + d;
        i = i + 1;
    }
    assert(body.take(n - start) == body);
    if neg {
        if acc == 9223372036854775808 {
            Some(i64::MIN)
        } else {
            Some(-(acc as i64))
        }
    } else {
        Some(acc as i64)
    }
}

/// The ASCII digit for `d` in `0..10`.
pub open spec fn digit_char(d: int) -> char {
    ('0' as int + d) as char
}

/// Decimal digits of `n`, most significant first, without leading zeros.
pub open spec fn nat_decimal(n: nat) -> Seq<char>
    decreases n,
{
    if n < 10 {
        seq![digit_char(n as int)]
    } else {
        nat_decimal(n / 10) + seq![digit_char((n % 10) as int)]
    }
}

/// Decimal text of `n` as std's `Display` for integers writes it: a `-` for
/// negative numbers, then the digits of the magnitude.
pub open spec fn int_decimal(n: int) -> Seq<char> {
    if n < 0 {
        seq!['-'] + nat_decimal((-n) as nat)
    } else {
        nat_decimal(n as nat)
    }
}

pub proof fn lemma_nat_decimal_digits(n: nat)
    ensures
        nat_decimal(n).len() >= 1,
        all_digits(nat_decimal(n)),
        digits_value(nat_decimal(n)) == n,
    decreases n,
{
    let s = nat_decimal(n);
    if n < 10 {
        assert(digit_char(n as int) as int == '0' as int + n);
        assert(s.drop_last() == Seq::<char>::empty());
        assert(s.last() == digit_char(n as int));
        assert(digits_value(Seq::<char>::empty()) == 0);
        assert(digits_value(s) == digits_value(s.drop_last()) * 10 + digit_value(s.last()));
    } else {
        lemma_nat_decimal_digits(n / 10);
        let d = (n % 10) as int;
        assert(digit_char(d) as int == '0' as int + d);
        assert(s.drop_last() == nat_decimal(n / 10));
        assert(s.last() == digit_char(d));
        assert(digits_value(s) == digits_value(s.drop_last()) * 10 + digit_value(s.last()));
        assert((n / 10) * 10 + n % 10 == n);
        assert forall|i: int| 0 <= i < s.len() implies is_ascii_digit(#[trigger] s[i]) by {
            if i < s.len() - 1 {
                assert(s[i] == nat_decimal(n / 10)[i]);
            }
        }
    }
}

/// Decimal text read back as an `i64` gives the number written.
pub proof fn lemma_decimal_parses_back(v: i64)
    ensures
        spec_parse_i64(int_decimal(v as int)) == Some(v),
{
    let s = int_decimal(v as int);
    if v < 0 {
        lemma_nat_decimal_digits((-v) as nat);
        assert(s.drop_first() == nat_decimal((-v) as nat));
    } else {
        lemma_nat_decimal_digits(v as nat);
        assert(is_ascii_digit(s[0]));
    }
}

fn digit_to_char(d: u64) -> (c: char)
    requires
        d < 10,
    ensures
        c == digit_char(d as int),
{
    let b: u8 = 48u8 + d as u8;
    b as char
}

/// Decimal text of `n`.
pub fn i64_to_decimal(n: i64) -> (s: Vec<char>)
    ensures
        s@ == int_decimal(n as int),
{
    let m: u64 = if n < 0 { (0i128 - n as i128) as u64 } else { n as u64 };
    let mut out: Vec<char> = Vec::new();
    out.push(digit_to_char(m % 10));
    let mut q: u64 = m / 10;
    while q > 0
        invariant
            (if q == 0 { Seq::<char>::empty() } else { nat_decimal(q as nat) }) + out@ == nat_decimal(
                m as nat,
            ),
        decreases q,
    {
        let c = digit_to_char(q % 10);
        let ghost old_out = out@;
        out.insert(0, c);
        assert(out@ == seq![c] + old_out);
        assert(nat_decimal(q as nat) == (if q / 10 == 0 { Seq::<char>::empty() } else { nat_decimal(
            (q / 10) as nat,
        ) }) + seq![c]);
        q = q / 10;
    }
    assert(Seq::<char>::empty() + out@ == out@);
    if n < 0 {
        out.insert(0, '-');
    }
    out
}

} // verus!

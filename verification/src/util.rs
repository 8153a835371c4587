use vstd::prelude::*;
use vstd::string::*;

verus! {

/// Index of the last occurrence of `c` in `s`, or `-1` when `c` does not
/// occur.
pub open spec fn last_index_of(s: Seq<char>, c: char) -> int
    decreases s.len(),
{
    if s.len() == 0 {
        -1
    } else if s[s.len() - 1] == c {
        s.len() - 1
    } else {
        last_index_of(s.drop_last(), c)
    }
}

pub proof fn lemma_last_index_of_bounds(s: Seq<char>, c: char)
    ensures
        -1 <= last_index_of(s, c) < s.len(),
        last_index_of(s, c) >= 0 ==> s[last_index_of(s, c)] == c,
        forall|j: int| last_index_of(s, c) < j < s.len() ==> s[j] != c,
    decreases s.len(),
{
    if s.len() > 0 && s[s.len() - 1] != c {
        lemma_last_index_of_bounds(s.drop_last(), c);
        assert forall|j: int| last_index_of(s, c) < j < s.len() implies s[j] != c by {
            if j < s.len() - 1 {
                assert(s.drop_last()[j] == s[j]);
            }
        }
    }
}

/// Relies on `String::push`: appends the given character to the end of the
/// string.
#[verifier::external_body]
pub(crate) fn push_char(s: &mut String, c: char)
    ensures
        final(s)@ == old(s)@.push(c),
{
    s.push(c)
}

/// Index of the last occurrence of `c` in `s` as an executable search;
/// `None` exactly when `c` does not occur.
pub fn rfind_char(s: &str, c: char) -> (r: Option<usize>)
    ensures
        match r {
            Some(i) => i == last_index_of(s@, c),
            None => last_index_of(s@, c) == -1,
        },
{
    let n: usize = s.unicode_len();
    let mut i: usize = n;
    proof {
        assert(s@.subrange(0, n as int) =~= s@);
    }
    while i > 0
        invariant
            i <= n,
            n == s@.len(),
            last_index_of(s@, c) == last_index_of(s@.subrange(0, i as int), c),
        decreases i,
    {
        let ch = s.get_char(i - 1);
        if ch == c {
            proof {
                let pre = s@.subrange(0, i as int);
                assert(pre[i - 1] == c);
                assert(last_index_of(pre, c) == i - 1);
            }
            return Some(i - 1);
        }
        proof {
            let pre = s@.subrange(0, i as int);
            assert(pre[pre.len() - 1] != c);
            assert(pre.drop_last() =~= s@.subrange(0, i - 1));
        }
        i = i - 1;
    }
    proof {
        assert(s@.subrange(0, 0) =~= Seq::<char>::empty());
        assert(s@.subrange(0, n as int) =~= s@);
    }
    None
}

/// The final segment of a string: everything after the last `/`, or the
/// whole string when it has no `/`.  A string that ends in `/` yields the
/// empty segment.
pub open spec fn spec_last_segment(s: Seq<char>) -> Seq<char> {
    s.subrange(last_index_of(s, '/') + 1, s.len() as int)
}

/// The name a downloaded file gets when no explicit output name is given:
/// the last `/`-separated segment of the URL, or the literal `download`
/// when the URL yields no segment (it is empty or ends in `/`).
pub open spec fn spec_filename_from_url(url: Seq<char>) -> Seq<char> {
    if spec_last_segment(url).len() == 0 {
        "download"@
    } else {
        spec_last_segment(url)
    }
}

/// Derives the file name for a URL: its last path segment, with the
/// fallback name `download` for a URL that ends in `/` or is empty.
pub fn extract_filename_from_url(url: &str) -> (r: String)
    ensures
        r@ == spec_filename_from_url(url@),
{
    proof {
        lemma_last_index_of_bounds(url@, '/');
    }
    let n: usize = url.unicode_len();
    let start: usize = match rfind_char(url, '/') {
        Some(i) => i + 1,
        None => 0,
    };
    if start == n {
        proof {
            assert(spec_last_segment(url@).len() == 0);
        }
        String::from_str("download")
    } else {
        let part = url.substring_char(start, n);
        String::from_str(part)
    }
}

/// Tests whether the character `c` occurs in `s`.
pub fn contains_char(s: &str, c: char) -> (r: bool)
    ensures
        r == s@.contains(c),
{
    let n: usize = s.unicode_len();
    let mut i: usize = 0;
    while i < n
        invariant
            i <= n,
            n == s@.len(),
            forall|j: int| 0 <= j < i ==> s@[j] != c,
        decreases n - i,
    {
        if s.get_char(i) == c {
            return true;
        }
        i = i + 1;
    }
    proof {
        if s@.contains(c) {
            let j = choose|j: int| 0 <= j < s@.len() && s@[j] == c;
        }
    }
    false
}

/// `filename` with `suffix` spliced in just before the final `.`, or
/// appended at the end when the name has no `.` at all.
pub open spec fn spec_add_suffix(filename: Seq<char>, suffix: Seq<char>) -> Seq<char> {
    let p = last_index_of(filename, '.');
    if p >= 0 {
        filename.subrange(0, p) + suffix + filename.subrange(p, filename.len() as int)
    } else {
        filename + suffix
    }
}

/// Splices `suffix` in front of the extension of `filename` (used for the
/// `_1`, `_2`, ... collision disambiguators).
pub fn add_suffix_before_extension(filename: &str, suffix: &str) -> (r: String)
    ensures
        r@ == spec_add_suffix(filename@, suffix@),
{
    proof {
        lemma_last_index_of_bounds(filename@, '.');
    }
    let n: usize = filename.unicode_len();
    match rfind_char(filename, '.') {
        Some(p) => {
            let mut out = String::from_str(filename.substring_char(0, p));
            out.append(suffix);
            out.append(filename.substring_char(p, n));
            out
        },
        None => {
            let mut out = String::from_str(filename);
            out.append(suffix);
            out
        },
    }
}

/// Whether the characters of `s` and `t` agree.
pub fn str_eq(s: &str, t: &str) -> (r: bool)
    ensures
        r == (s@ == t@),
{
    let n: usize = s.unicode_len();
    let m: usize = t.unicode_len();
    if n != m {
        return false;
    }
    let mut i: usize = 0;
    while i < n
        invariant
            i <= n,
            n == s@.len(),
            n == t@.len(),
            forall|j: int| 0 <= j < i ==> s@[j] == t@[j],
        decreases n - i,
    {
        if s.get_char(i) != t.get_char(i) {
            return false;
        }
        i = i + 1;
    }
    proof {
        assert(s@ =~= t@);
    }
    true
}

/// Whether `pat` stands at position `at` of `s`.
pub open spec fn matches_at(s: Seq<char>, pat: Seq<char>, at: int) -> bool {
    0 <= at && at + pat.len() <= s.len() && s.subrange(at, at + pat.len()) == pat
}

/// Whether `pat` occurs anywhere in `s`.
pub open spec fn contains_seq(s: Seq<char>, pat: Seq<char>) -> bool {
    exists|i: int| matches_at(s, pat, i)
}

/// Whether `pat` is a prefix of `s`.
pub open spec fn starts_with_seq(s: Seq<char>, pat: Seq<char>) -> bool {
    pat.len() <= s.len() && s.subrange(0, pat.len() as int) == pat
}

/// Tests whether `pat` stands at position `at` of `s`.
pub fn str_matches_at(s: &str, pat: &str, at: usize) -> (r: bool)
    requires
        at <= s@.len(),
    ensures
        r == matches_at(s@, pat@, at as int),
{
    let n: usize = s.unicode_len();
    let m: usize = pat.unicode_len();
    if m > n - at {
        return false;
    }
    let mut i: usize = 0;
    while i < m
        invariant
            i <= m,
            n == s@.len(),
            m == pat@.len(),
            at + m <= n,
            forall|j: int| 0 <= j < i ==> s@[at + j] == pat@[j],
        decreases m - i,
    {
        if s.get_char(at + i) != pat.get_char(i) {
            proof {
                if matches_at(s@, pat@, at as int) {
                    assert(s@.subrange(at as int, at + pat@.len())[i as int] == pat@[i as int]);
                }
            }
            return false;
        }
        i = i + 1;
    }
    proof {
        assert(s@.subrange(at as int, at + pat@.len()) =~= pat@);
    }
    true
}

/// Tests whether `pat` is a prefix of `s`.
pub fn str_starts_with(s: &str, pat: &str) -> (r: bool)
    ensures
        r == starts_with_seq(s@, pat@),
{
    let m: usize = pat.unicode_len();
    let n: usize = s.unicode_len();
    if m > n {
        return false;
    }
    str_matches_at(s, pat, 0)
}

/// Tests whether `pat` occurs anywhere in `s`.
pub fn str_contains(s: &str, pat: &str) -> (r: bool)
    ensures
        r == contains_seq(s@, pat@),
{
    let n: usize = s.unicode_len();
    let m: usize = pat.unicode_len();
    if m > n {
        proof {
            if contains_seq(s@, pat@) {
                let i = choose|i: int| matches_at(s@, pat@, i);
            }
        }
        return false;
    }
    if m == 0 {
        proof {
            assert(pat@ =~= s@.subrange(0, 0));
            assert(matches_at(s@, pat@, 0));
        }
        return true;
    }
    let mut i: usize = 0;
    while i <= n - m
        invariant
            0 < m <= n,
            n == s@.len(),
            m == pat@.len(),
            i <= n - m + 1,
            forall|j: int| 0 <= j < i ==> !matches_at(s@, pat@, j),
        decreases n - i,
    {
        if str_matches_at(s, pat, i) {
            return true;
        }
        i = i + 1;
    }
    proof {
        if contains_seq(s@, pat@) {
            let j = choose|j: int| matches_at(s@, pat@, j);
        }
    }
    false
}

/// The character for one decimal digit.
pub open spec fn spec_digit_char(d: int) -> char {
    if d == 0 {
        '0'
    } else if d == 1 {
        '1'
    } else if d == 2 {
        '2'
    } else if d == 3 {
        '3'
    } else if d == 4 {
        '4'
    } else if d == 5 {
        '5'
    } else if d == 6 {
        '6'
    } else if d == 7 {
        '7'
    } else if d == 8 {
        '8'
    } else {
        '9'
    }
}

fn digit_char(d: u64) -> (c: char)
    requires
        d < 10,
    ensures
        c == spec_digit_char(d as int),
{
    if d == 0 {
        '0'
    } else if d == 1 {
        '1'
    } else if d == 2 {
        '2'
    } else if d == 3 {
        '3'
    } else if d == 4 {
        '4'
    } else if d == 5 {
        '5'
    } else if d == 6 {
        '6'
    } else if d == 7 {
        '7'
    } else if d == 8 {
        '8'
    } else {
        '9'
    }
}

/// The decimal digits of `n`, most significant first.
pub open spec fn spec_decimal(n: int) -> Seq<char>
    decreases n,
{
    if n < 10 {
        seq![spec_digit_char(n)]
    } else {
        spec_decimal(n / 10).push(spec_digit_char(n % 10))
    }
}

/// Renders an unsigned integer in decimal.
pub fn u64_to_decimal(n: u64) -> (r: String)
    ensures
        r@ == spec_decimal(n as int),
    decreases n,
{
    if n < 10 {
        let mut s = String::new();
        push_char(&mut s, digit_char(n));
        proof {
            assert(s@ =~= spec_decimal(n as int));
        }
        s
    } else {
        let mut s = u64_to_decimal(n / 10);
        push_char(&mut s, digit_char(n % 10));
        s
    }
}

/// Two-digit zero-padded decimal, for the fractional part of a size display.
pub open spec fn spec_two_digits(n: int) -> Seq<char> {
    seq![spec_digit_char(n / 10), spec_digit_char(n % 10)]
}

fn two_digits(n: u64) -> (r: String)
    requires
        n < 100,
    ensures
        r@ == spec_two_digits(n as int),
{
    let mut s = String::new();
    push_char(&mut s, digit_char(n / 10));
    push_char(&mut s, digit_char(n % 10));
    proof {
        assert(s@ =~= spec_two_digits(n as int));
    }
    s
}

/// Human-readable size: at least a million bytes shows as hundredths of a
/// megabyte (`MB`, decimal, rounded half up), at least a thousand as
/// hundredths of a kilobyte (`KB`), anything smaller as plain bytes (`B`).
pub open spec fn spec_format_size(size: u64) -> Seq<char> {
    if size >= 1000000 {
        let h = (size + 5000) / 10000;
        spec_decimal(h / 100) + seq!['.'] + spec_two_digits(h % 100) + seq!['M', 'B']
    } else if size >= 1000 {
        let h = (size + 5) / 10;
        spec_decimal(h / 100) + seq!['.'] + spec_two_digits(h % 100) + seq!['K', 'B']
    } else {
        spec_decimal(size as int) + seq!['B']
    }
}

/// Formats a byte count for progress and log lines.
pub fn format_size(size: u64) -> (r: String)
    ensures
        r@ == spec_format_size(size),
{
    if size >= 1000000 {
        let h: u64 = size / 10000 + if size % 10000 >= 5000 {
            1
        } else {
            0
        };
        proof {
            let q = (size / 10000) as int;
            let r = (size % 10000) as int;
            vstd::arithmetic::div_mod::lemma_fundamental_div_mod(size as int, 10000);
            if r >= 5000 {
                vstd::arithmetic::div_mod::lemma_fundamental_div_mod_converse(
                    size as int + 5000,
                    10000,
                    q + 1,
                    r - 5000,
                );
            } else {
                vstd::arithmetic::div_mod::lemma_fundamental_div_mod_converse(
                    size as int + 5000,
                    10000,
                    q,
                    r + 5000,
                );
            }
            assert(h == (size + 5000) / 10000);
        }
        let mut s = u64_to_decimal(h / 100);
        push_char(&mut s, '.');
        let frac = two_digits(h % 100);
        s.append(frac.as_str());
        push_char(&mut s, 'M');
        push_char(&mut s, 'B');
        proof {
            assert(s@ =~= spec_format_size(size));
        }
        s
    } else if size >= 1000 {
        let h: u64 = (size + 5) / 10;
        let mut s = u64_to_decimal(h / 100);
        push_char(&mut s, '.');
        let frac = two_digits(h % 100);
        s.append(frac.as_str());
        push_char(&mut s, 'K');
        push_char(&mut s, 'B');
        proof {
            assert(s@ =~= spec_format_size(size));
        }
        s
    } else {
        let mut s = u64_to_decimal(size);
        push_char(&mut s, 'B');
        proof {
            assert(s@ =~= spec_format_size(size));
        }
        s
    }
}

} // verus!

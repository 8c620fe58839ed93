//! Character-level helpers on strings: prefixes, infixes, lower-casing and decimal numbers.
use vstd::prelude::*;
use vstd::string::*;

verus! {

/// What `str::to_lowercase` gives for a string: the Unicode lower-case mapping of each
/// character, which can change a string's length.
pub uninterp spec fn lowercase(s: Seq<char>) -> Seq<char>;

/// Calls `str::to_lowercase`. Its result depends on the characters of `s` alone.
#[verifier::external_body]
pub(crate) fn to_lowercase(s: &str) -> (r: String)
    ensures
        r@ == lowercase(s@),
{
    s.to_lowercase()
}

/// Calls `String::push`, which appends one character.
#[verifier::external_body]
pub(crate) fn push_char(s: &mut String, c: char)
    ensures
        final(s)@ == old(s)@.push(c),
{
    s.push(c)
}

/// `needle` occurs somewhere in `hay` as a contiguous run.
pub open spec fn has_infix(hay: Seq<char>, needle: Seq<char>) -> bool {
    exists|i: int| 0 <= i <= hay.len() - needle.len() && #[trigger] hay.subrange(i, i + needle.len()) == needle
}

/// The characters of a string, one by one.
pub fn chars_of(s: &str) -> (v: Vec<char>)
    ensures
        v@ == s@,
{
    let n = s.unicode_len();
    let mut v: Vec<char> = Vec::new();
    let mut i: usize = 0;
    while i < n
        invariant
            n == s@.len(),
            i <= n,
            v@ == s@.subrange(0, i as int),
        decreases n - i,
    {
        let c = s.get_char(i);
        v.push(c);
        i = i + 1;
        assert(v@ == s@.subrange(0, i as int));
    }
    assert(v@ == s@);
    v
}

/// A string made of the given characters.
pub fn string_of(v: &[char]) -> (s: String)
    ensures
        s@ == v@,
{
    let mut s = String::new();
    let mut i: usize = 0;
    while i < v.len()
        invariant
            i <= v.len(),
            s@ == v@.subrange(0, i as int),
        decreases v.len() - i,
    {
        push_char(&mut s, v[i]);
        i = i + 1;
        assert(s@ == v@.subrange(0, i as int));
    }
    assert(s@ == v@);
    s
}

/// Whether `needle` is a prefix of `hay`, on character sequences.
pub fn seq_starts_with(hay: &[char], needle: &[char]) -> (b: bool)
    ensures
        b == needle@.is_prefix_of(hay@),
{
    if needle.len() > hay.len() {
        return false;
    }
    let mut i: usize = 0;
    while i < needle.len()
        invariant
            needle.len() <= hay.len(),
            i <= needle.len(),
            forall|j: int| 0 <= j < i ==> hay@[j] == needle@[j],
        decreases needle.len() - i,
    {
        if hay[i] != needle[i] {
            return false;
        }
        i = i + 1;
    }
    assert(hay@.subrange(0, needle@.len() as int) =~= needle@);
    true
}

/// Whether `hay` starts with `needle`, as `str::starts_with` with a `&str` pattern.
pub fn starts_with(hay: &str, needle: &str) -> (b: bool)
    ensures
        b == needle@.is_prefix_of(hay@),
{
    let h = chars_of(hay);
    let n = chars_of(needle);
    seq_starts_with(h.as_slice(), n.as_slice())
}

/// Whether `needle` occurs at offset `at` of `hay`.
pub fn occurs_at(hay: &[char], needle: &[char], at: usize) -> (b: bool)
    requires
        at + needle.len() <= hay.len(),
    ensures
        b == (hay@.subrange(at as int, at + needle.len()) == needle@),
{
    let mut i: usize = 0;
    while i < needle.len()
        invariant
            at + needle.len() <= hay.len(),
            i <= needle.len(),
            forall|j: int| 0 <= j < i ==> hay@[at + j] == needle@[j],
        decreases needle.len() - i,
    {
        if hay[at + i] != needle[i] {
            assert(hay@.subrange(at as int, at + needle.len())[i as int] != needle@[i as int]);
            return false;
        }
        i = i + 1;
    }
    assert(hay@.subrange(at as int, at + needle.len()) =~= needle@);
    true
}

/// Whether `needle` occurs in `hay`, on character sequences.
pub fn seq_contains(hay: &[char], needle: &[char]) -> (b: bool)
    ensures
        b == has_infix(hay@, needle@),
{
    if needle.len() > hay.len() {
        return false;
    }
    let last = hay.len() - needle.len();
    let mut i: usize = 0;
    while i <= last
        invariant
            last == hay.len() - needle.len(),
            i <= last + 1,
            forall|j: int| 0 <= j < i ==> #[trigger] hay@.subrange(j, j + needle.len()) != needle@,
        decreases last + 1 - i,
    {
        if occurs_at(hay, needle, i) {
            return true;
        }
        if i == last {
            return false;
        }
        i = i + 1;
    }
    false
}

/// Whether `needle` occurs in `hay`, as `str::contains` with a `&str` pattern.
pub fn contains(hay: &str, needle: &str) -> (b: bool)
    ensures
        b == has_infix(hay@, needle@),
{
    let h = chars_of(hay);
    let n = chars_of(needle);
    seq_contains(h.as_slice(), n.as_slice())
}

/// The character of a decimal digit.
pub open spec fn digit_char(d: nat) -> char {
    if d == 0 { '0' }
    else if d == 1 { '1' }
    else if d == 2 { '2' }
    else if d == 3 { '3' }
    else if d == 4 { '4' }
    else if d == 5 { '5' }
    else if d == 6 { '6' }
    else if d == 7 { '7' }
    else if d == 8 { '8' }
    else { '9' }
}

/// The decimal digits of `n`, most significant first, without leading zeros.
pub open spec fn decimal(n: nat) -> Seq<char>
    decreases n,
{
    if n < 10 {
        seq![digit_char(n)]
    } else {
        decimal(n / 10).push(digit_char(n % 10))
    }
}

fn digit_of(d: u64) -> (c: char)
    requires
        d < 10,
    ensures
        c == digit_char(d as nat),
{
    if d == 0 { '0' }
    else if d == 1 { '1' }
    else if d == 2 { '2' }
    else if d == 3 { '3' }
    else if d == 4 { '4' }
    else if d == 5 { '5' }
    else if d == 6 { '6' }
    else if d == 7 { '7' }
    else if d == 8 { '8' }
    else { '9' }
}

/// Appends the decimal digits of `n` to `s`.
pub fn push_decimal(s: &mut String, n: u64)
    ensures
        final(s)@ == old(s)@ + decimal(n as nat),
    decreases n,
{
    if n >= 10 {
        push_decimal(s, n / 10);
    }
    push_char(s, digit_of(n % 10));
    assert(final(s)@ =~= old(s)@ + decimal(n as nat));
}

/// The value of a decimal digit character, as `char::to_digit(10)`.
pub open spec fn digit_value(c: char) -> Option<nat> {
    if '0' <= c && c <= '9' {
        Some((c as nat - '0' as nat) as nat)
    } else {
        None
    }
}

/// Reads a decimal digit.
pub fn to_digit(c: char) -> (r: Option<usize>)
    ensures
        r matches Some(d) ==> digit_value(c) == Some(d as nat) && d < 10,
        r is None ==> digit_value(c) is None,
{
    if '0' <= c && c <= '9' {
        Some((c as u32 - '0' as u32) as usize)
    } else {
        None
    }
}

/// The first offset at or after `from` where `pat` occurs in `s`.
pub open spec fn first_occurrence_from(s: Seq<char>, pat: Seq<char>, from: int) -> Option<int>
    decreases s.len() + 1 - from,
{
    if from < 0 || from + pat.len() > s.len() {
        None
    } else if s.subrange(from, from + pat.len()) == pat {
        Some(from)
    } else {
        first_occurrence_from(s, pat, from + 1)
    }
}

/// Finds the first offset at or after `from` where `pat` occurs in `hay`.
pub fn find_from(hay: &[char], pat: &[char], from: usize) -> (r: Option<usize>)
    ensures
        r matches Some(k) ==> first_occurrence_from(hay@, pat@, from as int) == Some(k as int),
        r is None ==> first_occurrence_from(hay@, pat@, from as int) is None,
    decreases hay.len() - from,
{
    if pat.len() > hay.len() || from > hay.len() - pat.len() {
        return None;
    }
    if occurs_at(hay, pat, from) {
        Some(from)
    } else {
        assert(pat@.len() > 0) by {
            if pat@.len() == 0 {
                assert(hay@.subrange(from as int, from as int) =~= pat@);
            }
        }
        find_from(hay, pat, from + 1)
    }
}

/// An occurrence found from `from` on starts there or later and ends within `s`.
pub proof fn lemma_first_occurrence_bounds(s: Seq<char>, pat: Seq<char>, from: int)
    ensures
        first_occurrence_from(s, pat, from) matches Some(k) ==> from <= k && k + pat.len() <= s.len(),
    decreases s.len() + 1 - from,
{
    if from >= 0 && from + pat.len() <= s.len() && s.subrange(from, from + pat.len()) != pat {
        lemma_first_occurrence_bounds(s, pat, from + 1);
    }
}

/// The characters of `s` before the first `c`, or all of them.
pub open spec fn before_char(s: Seq<char>, c: char) -> Seq<char> {
    match first_occurrence_from(s, seq![c], 0) {
        Some(k) => s.subrange(0, k),
        None => s,
    }
}

/// The characters `v[from..to]`.
pub fn slice_chars(v: &[char], from: usize, to: usize) -> (r: Vec<char>)
    requires
        from <= to <= v.len(),
    ensures
        r@ == v@.subrange(from as int, to as int),
{
    let mut r: Vec<char> = Vec::new();
    let mut i = from;
    while i < to
        invariant
            from <= i <= to <= v.len(),
            r@ == v@.subrange(from as int, i as int),
        decreases to - i,
    {
        r.push(v[i]);
        i = i + 1;
        assert(r@ == v@.subrange(from as int, i as int));
    }
    r
}

/// Characters with the Unicode `White_Space` property, which `char::is_whitespace` tests.
pub open spec fn is_ws(c: char) -> bool {
    ||| ('\u{9}' <= c && c <= '\u{d}')
    ||| c == ' '
    ||| c == '\u{85}'
    ||| c == '\u{a0}'
    ||| c == '\u{1680}'
    ||| ('\u{2000}' <= c && c <= '\u{200a}')
    ||| c == '\u{2028}'
    ||| c == '\u{2029}'
    ||| c == '\u{202f}'
    ||| c == '\u{205f}'
    ||| c == '\u{3000}'
}

fn char_is_ws(c: char) -> (b: bool)
    ensures
        b == is_ws(c),
{
    ('\u{9}' <= c && c <= '\u{d}') || c == ' ' || c == '\u{85}' || c == '\u{a0}' || c == '\u{1680}'
        || ('\u{2000}' <= c && c <= '\u{200a}') || c == '\u{2028}' || c == '\u{2029}' || c == '\u{202f}'
        || c == '\u{205f}' || c == '\u{3000}'
}

/// `s` without its leading and trailing whitespace, as `str::trim` gives it.
pub open spec fn trimmed(s: Seq<char>) -> Seq<char> {
    if exists|i: int| 0 <= i < s.len() && !is_ws(s[i]) {
        let first = choose|i: int| 0 <= i < s.len() && !is_ws(s[i]) && forall|j: int| 0 <= j < i ==> is_ws(#[trigger] s[j]);
        let last = choose|i: int| 0 <= i < s.len() && !is_ws(s[i]) && forall|j: int| i < j < s.len() ==> is_ws(#[trigger] s[j]);
        s.subrange(first, last + 1)
    } else {
        Seq::empty()
    }
}

/// `s` without its leading and trailing whitespace.
pub fn trim(s: &str) -> (r: String)
    ensures
        r@ == trimmed(s@),
{
    let v = chars_of(s);
    let n = v.len();
    let mut a: usize = 0;
    while a < n && char_is_ws(v[a])
        invariant
            a <= n,
            n == v@.len(),
            forall|j: int| 0 <= j < a ==> is_ws(#[trigger] v@[j]),
        decreases n - a,
    {
        a = a + 1;
    }
    if a == n {
        proof {
            assert(!exists|i: int| 0 <= i < s@.len() && !is_ws(s@[i]));
        }
        return String::new();
    }
    let mut b: usize = n;
    while b > a + 1 && char_is_ws(v[b - 1])
        invariant
            a < b <= n,
            n == v@.len(),
            !is_ws(v@[a as int]),
            forall|j: int| b <= j < n ==> is_ws(#[trigger] v@[j]),
        decreases b,
    {
        b = b - 1;
    }
    proof {
        let s1 = s@;
        assert(0 <= a < s1.len() && !is_ws(s1[a as int]));
        let first = choose|i: int| 0 <= i < s1.len() && !is_ws(s1[i]) && forall|j: int| 0 <= j < i ==> is_ws(#[trigger] s1[j]);
        assert(first == a) by {
            if first < a {
                assert(is_ws(s1[first]));
            } else if (a as int) < first {
                assert(is_ws(s1[a as int]));
            }
        }
        let lb = (b - 1) as int;
        if b == a + 1 {
            assert(!is_ws(s1[lb]));
        } else {
            assert(!is_ws(s1[lb]));
        }
        assert(0 <= lb < s1.len() && !is_ws(s1[lb]) && forall|j: int| lb < j < s1.len() ==> is_ws(#[trigger] s1[j]));
        let last = choose|i: int| 0 <= i < s1.len() && !is_ws(s1[i]) && forall|j: int| i < j < s1.len() ==> is_ws(#[trigger] s1[j]);
        assert(last == lb) by {
            if last < lb {
                assert(is_ws(s1[lb]));
            } else if lb < last {
                assert(is_ws(s1[last]));
            }
        }
    }
    let part = slice_chars(v.as_slice(), a, b);
    string_of(part.as_slice())
}

/// The value of a string of decimal digits.
pub open spec fn digits_value(s: Seq<char>) -> nat
    decreases s.len(),
{
    if s.len() == 0 {
        0
    } else {
        digits_value(s.drop_last()) * 10 + match digit_value(s.last()) {
            Some(d) => d,
            None => 0,
        }
    }
}

/// Reading back the decimal digits of `n` gives `n`.
pub proof fn lemma_decimal_value(n: nat)
    ensures
        digits_value(decimal(n)) == n,
        decimal(n).len() > 0,
    decreases n,
{
    if n < 10 {
        let d = decimal(n);
        assert(d.drop_last() =~= Seq::<char>::empty());
        assert(d.last() == digit_char(n));
        assert(digit_value(digit_char(n)) == Some(n));
        assert(digits_value(d.drop_last()) == 0);
        assert(digits_value(d) == n);
    } else {
        lemma_decimal_value(n / 10);
        let d = decimal(n);
        assert(d.drop_last() =~= decimal(n / 10));
        assert(d.last() == digit_char(n % 10));
        assert(digit_value(digit_char(n % 10)) == Some(n % 10));
        assert(digits_value(d) == digits_value(decimal(n / 10)) * 10 + n % 10);
        assert((n / 10) * 10 + n % 10 == n) by (nonlinear_arith);
        assert(digits_value(d) == n);
    }
}

/// Every character is a decimal digit.
pub open spec fn all_digits(s: Seq<char>) -> bool {
    forall|i: int| 0 <= i < s.len() ==> #[trigger] digit_value(s[i]) is Some
}

/// What `str::parse::<usize>` gives: an optional `+` and then at least one decimal digit, with
/// a value that fits.
pub open spec fn parse_usize_spec(s: Seq<char>) -> Option<usize> {
    let d = if s.len() > 0 && s[0] == '+' { s.drop_first() } else { s };
    if d.len() > 0 && all_digits(d) && digits_value(d) <= usize::MAX {
        Some(digits_value(d) as usize)
    } else {
        None
    }
}

proof fn lemma_digits_value_mono(s: Seq<char>, i: int)
    requires
        0 <= i <= s.len(),
    ensures
        digits_value(s.subrange(0, i)) <= digits_value(s),
    decreases s.len() - i,
{
    if i < s.len() {
        lemma_digits_value_mono(s, i + 1);
        assert(s.subrange(0, i + 1).drop_last() =~= s.subrange(0, i));
        assert(digits_value(s.subrange(0, i)) <= digits_value(s.subrange(0, i + 1))) by (nonlinear_arith)
            requires
                digits_value(s.subrange(0, i + 1)) >= digits_value(s.subrange(0, i + 1).drop_last()) * 10,
                s.subrange(0, i + 1).drop_last() == s.subrange(0, i),
        ;
    } else {
        assert(s.subrange(0, i) =~= s);
    }
}

/// Reads a decimal number as `str::parse::<usize>` does.
pub fn parse_usize(s: &str) -> (r: Option<usize>)
    ensures
        r == parse_usize_spec(s@),
{
    let v = chars_of(s);
    let start: usize = if v.len() > 0 && v[0] == '+' { 1 } else { 0 };
    let ghost d = if s@.len() > 0 && s@[0] == '+' { s@.drop_first() } else { s@ };
    assert(d =~= v@.subrange(start as int, v@.len() as int));
    if start == v.len() {
        return None;
    }
    let mut value: usize = 0;
    let mut i: usize = start;
    while i < v.len()
        invariant
            start <= i <= v.len(),
            v@ == s@,
            d == (if s@.len() > 0 && s@[0] == '+' { s@.drop_first() } else { s@ }),
            d == v@.subrange(start as int, v@.len() as int),
            all_digits(v@.subrange(start as int, i as int)),
            value == digits_value(v@.subrange(start as int, i as int)),
        decreases v.len() - i,
    {
        let dg = match to_digit(v[i]) {
            Some(x) => x,
            None => {
                proof {
                    assert(d[i - start] == v@[i as int]);
                    assert(!all_digits(d));
                    assert(parse_usize_spec(s@) is None);
                }
                return None;
            },
        };
        proof {
            let p = v@.subrange(start as int, i + 1);
            assert(p.drop_last() =~= v@.subrange(start as int, i as int));
            assert(p.last() == v@[i as int]);
        }
        let next = match value.checked_mul(10) {
            Some(x) => x.checked_add(dg),
            None => None,
        };
        match next {
            Some(x) => {
                value = x;
            },
            None => {
                proof {
                    let p = v@.subrange(start as int, i + 1);
                    assert(digits_value(p) > usize::MAX);
                    assert(p =~= d.subrange(0, (i + 1 - start) as int));
                    lemma_digits_value_mono(d, (i + 1 - start) as int);
                    assert(parse_usize_spec(s@) is None);
                }
                return None;
            },
        }
        i = i + 1;
        proof {
            let p = v@.subrange(start as int, i as int);
            assert forall|k: int| 0 <= k < p.len() implies #[trigger] digit_value(p[k]) is Some by {
                if k < p.len() - 1 {
                    assert(p[k] == v@.subrange(start as int, (i - 1) as int)[k]);
                }
            }
        }
    }
    Some(value)
}

} // verus!

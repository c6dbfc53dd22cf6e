//! Text as sequences of characters: conversions, decimal numerals,
//! whitespace, trimming and line splitting.

use vstd::prelude::*;

verus! {

/// The characters of a string slice.
#[verifier::external_body]
pub(crate) fn chars_of(s: &str) -> (v: Vec<char>)
    ensures
        v@ == s@,
{
    s.chars().collect()
}

/// The string made of the given characters.
#[verifier::external_body]
pub(crate) fn string_of(v: &[char]) -> (s: String)
    ensures
        s@ == v@,
{
    v.iter().collect()
}

/// The decimal digit for a value below ten.
pub open spec fn digit_char(d: nat) -> char {
    seq!['0', '1', '2', '3', '4', '5', '6', '7', '8', '9'][d as int]
}

/// Decimal numeral of a natural number, without leading zeros.
pub open spec fn spec_decimal(n: nat) -> Seq<char>
    decreases n,
{
    if n < 10 {
        seq![digit_char(n)]
    } else {
        spec_decimal(n / 10).push(digit_char(n % 10))
    }
}

/// Decimal numeral of an integer, with a leading '-' when negative.
pub open spec fn spec_signed_decimal(n: int) -> Seq<char> {
    if n < 0 {
        seq!['-'] + spec_decimal((-n) as nat)
    } else {
        spec_decimal(n as nat)
    }
}

/// Appends the decimal numeral of `n` to `out`.
fn push_decimal(n: u64, out: &mut Vec<char>)
    ensures
        final(out)@ == old(out)@ + spec_decimal(n as nat),
    decreases n,
{
    let digits = ['0', '1', '2', '3', '4', '5', '6', '7', '8', '9'];
    if n >= 10 {
        push_decimal(n / 10, out);
    }
    let d = digits[(n % 10) as usize];
    let ghost mid = out@;
    out.push(d);
    proof {
        assert(d == digit_char((n % 10) as nat));
        if n >= 10 {
            assert(out@ =~= old(out)@ + spec_decimal((n / 10) as nat).push(d));
        } else {
            assert(out@ =~= old(out)@ + seq![d]);
        }
    }
}

/// The decimal numeral of `n`, as `u64::to_string` writes it.
pub(crate) fn u64_to_decimal(n: u64) -> (s: String)
    ensures
        s@ == spec_decimal(n as nat),
{
    let mut v: Vec<char> = Vec::new();
    push_decimal(n, &mut v);
    proof {
        assert(v@ =~= spec_decimal(n as nat));
    }
    string_of(v.as_slice())
}

/// The decimal numeral of `n`, with '-' before a negative one, as
/// `i64::to_string` writes it.
pub(crate) fn i64_to_decimal(n: i64) -> (s: String)
    ensures
        s@ == spec_signed_decimal(n as int),
{
    let mut v: Vec<char> = Vec::new();
    if n < 0 {
        v.push('-');
        let a: u64 = (-(n as i128)) as u64;
        push_decimal(a, &mut v);
        proof {
            assert(v@ =~= seq!['-'] + spec_decimal((-n) as nat));
        }
    } else {
        push_decimal(n as u64, &mut v);
        proof {
            assert(v@ =~= spec_decimal(n as nat));
        }
    }
    string_of(v.as_slice())
}

/// Whether a character is an ASCII decimal digit.
pub open spec fn is_digit(c: char) -> bool {
    '0' <= c && c <= '9'
}

/// Whether a character is an ASCII decimal digit.
pub fn char_is_digit(c: char) -> (r: bool)
    ensures
        r == is_digit(c),
{
    '0' <= c && c <= '9'
}

/// Unicode White_Space, the set `char::is_whitespace` tests.
pub open spec fn is_white(c: char) -> bool {
    let u = c as u32;
    ||| 0x09 <= u && u <= 0x0D
    ||| u == 0x20
    ||| u == 0x85
    ||| u == 0xA0
    ||| u == 0x1680
    ||| 0x2000 <= u && u <= 0x200A
    ||| u == 0x2028
    ||| u == 0x2029
    ||| u == 0x202F
    ||| u == 0x205F
    ||| u == 0x3000
}

/// Whether a character is Unicode white space.
pub fn char_is_white(c: char) -> (r: bool)
    ensures
        r == is_white(c),
{
    let u = c as u32;
    (0x09 <= u && u <= 0x0D) || u == 0x20 || u == 0x85 || u == 0xA0 || u == 0x1680 || (0x2000 <= u
        && u <= 0x200A) || u == 0x2028 || u == 0x2029 || u == 0x202F || u == 0x205F || u == 0x3000
}

/// Value of a numeral of ASCII digits.
pub open spec fn digits_value(s: Seq<char>) -> nat
    decreases s.len(),
{
    if s.len() == 0 {
        0
    } else {
        digits_value(s.drop_last()) * 10 + ((s.last() as u32 - '0' as u32) as nat)
    }
}

/// `FromStr` of an unsigned integer no larger than `max`: an optional
/// '+', then one or more ASCII digits, with a value at most `max`.
pub open spec fn spec_parse_unsigned(s: Seq<char>, max: nat) -> Option<nat> {
    if numeral_body(s).len() > 0 && all_digits(numeral_body(s)) && digits_value(numeral_body(s)) <= max {
        Some(digits_value(numeral_body(s)))
    } else {
        None
    }
}

/// A numeral without its optional leading '+'.
pub open spec fn numeral_body(s: Seq<char>) -> Seq<char> {
    if s.len() > 0 && s[0] == '+' {
        s.drop_first()
    } else {
        s
    }
}

/// Whether every character is an ASCII digit.
pub open spec fn all_digits(s: Seq<char>) -> bool {
    forall|i: int| 0 <= i < s.len() ==> is_digit(s[i])
}

proof fn lemma_digits_value_step(s: Seq<char>, i: int)
    requires
        0 <= i < s.len(),
    ensures
        digits_value(s.take(i + 1)) == digits_value(s.take(i)) * 10 + ((s[i] as u32 - '0' as u32) as nat),
{
    assert(s.take(i + 1).drop_last() =~= s.take(i));
}

proof fn lemma_digits_value_monotone(s: Seq<char>, i: int)
    requires
        0 <= i <= s.len(),
        forall|j: int| 0 <= j < s.len() ==> is_digit(s[j]),
    ensures
        digits_value(s.take(i)) <= digits_value(s),
    decreases s.len() - i,
{
    if i < s.len() {
        lemma_digits_value_step(s, i);
        lemma_digits_value_monotone(s, i + 1);
    } else {
        assert(s.take(i) =~= s);
    }
}

/// Parses an unsigned decimal no larger than `max`, as `FromStr` does for
/// `u8`, `u16`, `u32` and `u64`.
pub fn parse_unsigned(s: &[char], max: u64) -> (r: Option<u64>)
    ensures
        match r {
            Some(v) => spec_parse_unsigned(s@, max as nat) == Some(v as nat),
            None => spec_parse_unsigned(s@, max as nat) is None,
        },
{
    let start: usize = if s.len() > 0 && s[0] == '+' { 1 } else { 0 };
    let ghost body = numeral_body(s@);
    assert(body =~= s@.skip(start as int));
    if start >= s.len() {
        return None;
    }
    let mut value: u64 = 0;
    let mut i: usize = start;
    while i < s.len()
        invariant
            start <= i <= s@.len(),
            body == s@.skip(start as int),
            body == numeral_body(s@),
            forall|j: int| start <= j < i ==> is_digit(s@[j]),
            value as nat == digits_value(body.take(i - start)),
            value <= max,
        decreases s@.len() - i,
    {
        let c = s[i];
        if !char_is_digit(c) {
            proof {
                assert(body[i - start] == s@[i as int]);
                assert(!is_digit(body[i - start]));
                assert(!all_digits(body));
                assert(spec_parse_unsigned(s@, max as nat) is None);
            }
            return None;
        }
        let d: u64 = (c as u32 - '0' as u32) as u64;
        proof {
            assert(body[i - start] == s@[i as int]);
            lemma_digits_value_step(body, i - start);
        }
        if d > max || value > (max - d) / 10 {
            proof {
                if d <= max {
                    assert(value * 10 + d > max) by (nonlinear_arith)
                        requires
                            value > (max - d) / 10,
                            d <= max,
                    ;
                }
                if all_digits(body) {
                    lemma_digits_value_monotone(body, i - start + 1);
                }
            }
            return None;
        }
        proof {
            assert(value * 10 + d <= max) by (nonlinear_arith)
                requires
                    value <= (max - d) / 10,
                    d <= max,
            ;
        }
        value = value * 10 + d;
        i = i + 1;
    }
    assert(body.take(s@.len() - start) =~= body);
    Some(value)
}

/// `FromStr` of an `i64`: an optional '+' or '-', then one or more ASCII
/// digits, with a value within the range of `i64`.
pub open spec fn spec_parse_i64(s: Seq<char>) -> Option<int> {
    if s.len() > 0 && s[0] == '-' {
        let b = s.drop_first();
        if b.len() > 0 && all_digits(b) && digits_value(b) <= 0x8000_0000_0000_0000 {
            Some(-(digits_value(b) as int))
        } else {
            None
        }
    } else {
        match spec_parse_unsigned(s, i64::MAX as nat) {
            Some(v) => Some(v as int),
            None => None,
        }
    }
}

/// Parses a signed decimal, as `FromStr` does for `i64`.
pub fn parse_i64(s: &[char]) -> (r: Option<i64>)
    ensures
        match r {
            Some(v) => spec_parse_i64(s@) == Some(v as int),
            None => spec_parse_i64(s@) is None,
        },
{
    if s.len() > 0 && s[0] == '-' {
        if s.len() < 2 || s[1] == '+' {
            proof {
                if s@.len() >= 2 {
                    assert(!is_digit(s@.drop_first()[0]));
                }
            }
            return None;
        }
        let mut rest: Vec<char> = Vec::new();
        let mut i: usize = 1;
        while i < s.len()
            invariant
                1 <= i <= s@.len(),
                rest@ == s@.subrange(1, i as int),
            decreases s@.len() - i,
        {
            rest.push(s[i]);
            i += 1;
            assert(rest@ =~= s@.subrange(1, i as int));
        }
        proof {
            assert(rest@ =~= s@.drop_first());
            assert(numeral_body(rest@) == rest@);
        }
        match parse_unsigned(rest.as_slice(), 0x8000_0000_0000_0000) {
            Some(v) => {
                if v == 0x8000_0000_0000_0000 {
                    Some(i64::MIN)
                } else {
                    Some(-(v as i64))
                }
            },
            None => None,
        }
    } else {
        match parse_unsigned(s, i64::MAX as u64) {
            Some(v) => Some(v as i64),
            None => None,
        }
    }
}

} // verus!

verus! {

/// Equality of two string slices.
pub fn str_eq(a: &str, b: &str) -> (r: bool)
    ensures
        r == (a@ == b@),
{
    let x: String = a.to_owned();
    let y: String = b.to_owned();
    x == y
}

/// The concatenation of two string slices.
pub fn concat2(a: &str, b: &str) -> (s: String)
    ensures
        s@ == a@ + b@,
{
    let mut s = a.to_owned();
    s.append(b);
    s
}

} // verus!

verus! {

/// A text without its leading and trailing white space (`str::trim`).
pub open spec fn trim_ws(s: Seq<char>) -> Seq<char> {
    s.subrange(trim_start(s), trim_end(s, trim_start(s)))
}

/// Position of the first non-white character (or the length).
pub open spec fn trim_start(s: Seq<char>) -> int
    decreases s.len(),
{
    if s.len() > 0 && is_white(s[0]) {
        1 + trim_start(s.drop_first())
    } else {
        0
    }
}

/// End of the text once trailing white space from `lo` on is dropped.
pub open spec fn trim_end(s: Seq<char>, lo: int) -> int
    decreases s.len(),
{
    if s.len() > 0 && s.len() > lo && is_white(s.last()) {
        trim_end(s.drop_last(), lo)
    } else {
        s.len() as int
    }
}

proof fn lemma_trim_start_bounds(s: Seq<char>)
    ensures
        0 <= trim_start(s) <= s.len(),
        forall|j: int| 0 <= j < trim_start(s) ==> is_white(s[j]),
        trim_start(s) < s.len() ==> !is_white(s[trim_start(s)]),
    decreases s.len(),
{
    if s.len() > 0 && is_white(s[0]) {
        lemma_trim_start_bounds(s.drop_first());
        assert forall|j: int| 0 <= j < trim_start(s) implies is_white(s[j]) by {
            if j > 0 {
                assert(s[j] == s.drop_first()[j - 1]);
            }
        }
    }
}

proof fn lemma_trim_end_bounds(s: Seq<char>, lo: int)
    requires
        0 <= lo <= s.len(),
    ensures
        lo <= trim_end(s, lo) <= s.len(),
        forall|j: int| trim_end(s, lo) <= j < s.len() ==> is_white(s[j]),
        trim_end(s, lo) > lo ==> !is_white(s[trim_end(s, lo) - 1]),
    decreases s.len(),
{
    if s.len() > 0 && s.len() > lo && is_white(s.last()) {
        lemma_trim_end_bounds(s.drop_last(), lo);
        assert forall|j: int| trim_end(s, lo) <= j < s.len() implies is_white(s[j]) by {
            if j < s.len() - 1 {
                assert(s[j] == s.drop_last()[j]);
            }
        }
    }
}

/// The characters without leading and trailing white space.
pub fn trim_chars(s: &[char]) -> (t: Vec<char>)
    ensures
        t@ == trim_ws(s@),
{
    proof {
        lemma_trim_start_bounds(s@);
    }
    let mut lo: usize = 0;
    while lo < s.len() && char_is_white(s[lo])
        invariant
            lo <= s@.len(),
            lo <= trim_start(s@),
            0 <= trim_start(s@) <= s@.len(),
            forall|j: int| 0 <= j < trim_start(s@) ==> is_white(s@[j]),
            trim_start(s@) < s@.len() ==> !is_white(s@[trim_start(s@)]),
        decreases s@.len() - lo,
    {
        lo = lo + 1;
    }
    assert(lo == trim_start(s@));
    proof {
        lemma_trim_end_bounds(s@, lo as int);
    }
    let mut hi: usize = s.len();
    while hi > lo && char_is_white(s[hi - 1])
        invariant
            lo <= hi <= s@.len(),
            lo == trim_start(s@),
            trim_end(s@, lo as int) <= hi,
            lo <= trim_end(s@, lo as int) <= s@.len(),
            forall|j: int| trim_end(s@, lo as int) <= j < s@.len() ==> is_white(s@[j]),
            trim_end(s@, lo as int) > lo ==> !is_white(s@[trim_end(s@, lo as int) - 1]),
        decreases hi,
    {
        hi = hi - 1;
    }
    assert(hi == trim_end(s@, lo as int));
    let mut t: Vec<char> = Vec::new();
    let mut i: usize = lo;
    while i < hi
        invariant
            lo <= i <= hi,
            hi <= s@.len(),
            t@ == s@.subrange(lo as int, i as int),
        decreases hi - i,
    {
        t.push(s[i]);
        i = i + 1;
        proof {
            assert(t@ =~= s@.subrange(lo as int, i as int));
        }
    }
    t
}

/// Whether `pat` occurs in `s` at position `i`.
pub open spec fn occurs_at(s: Seq<char>, pat: Seq<char>, i: int) -> bool {
    0 <= i && i + pat.len() <= s.len() && s.subrange(i, i + pat.len()) == pat
}

/// Whether `pat` occurs in `s`.
pub open spec fn contains_text(s: Seq<char>, pat: Seq<char>) -> bool {
    exists|i: int| occurs_at(s, pat, i)
}

/// The first position at which `pat` occurs in `s`, if any.
pub open spec fn first_occurrence(s: Seq<char>, pat: Seq<char>) -> Option<int> {
    if contains_text(s, pat) {
        Some(choose|i: int| occurs_at(s, pat, i) && forall|j: int| 0 <= j < i ==> !occurs_at(s, pat, j))
    } else {
        None
    }
}

/// Whether `pat` occurs in `s` at position `i`.
fn occurs_at_exec(s: &[char], pat: &[char], i: usize) -> (r: bool)
    requires
        i + pat@.len() <= s@.len(),
    ensures
        r == occurs_at(s@, pat@, i as int),
{
    let mut k: usize = 0;
    while k < pat.len()
        invariant
            i + pat@.len() <= s@.len(),
            k <= pat@.len(),
            forall|m: int| 0 <= m < k ==> s@[i + m] == pat@[m],
        decreases pat@.len() - k,
    {
        let n = s.len();
        assert(i + k < n);
        if s[i + k] != pat[k] {
            proof {
                assert(s@.subrange(i as int, i + pat@.len())[k as int] != pat@[k as int]);
            }
            return false;
        }
        k = k + 1;
    }
    proof {
        assert(s@.subrange(i as int, i + pat@.len()) =~= pat@);
    }
    true
}

/// The first position at which `pat` occurs in `s`.
pub fn find_text(s: &[char], pat: &[char]) -> (r: Option<usize>)
    ensures
        match r {
            Some(i) => occurs_at(s@, pat@, i as int) && forall|j: int| 0 <= j < i ==> !occurs_at(s@, pat@, j),
            None => !contains_text(s@, pat@),
        },
        r matches Some(i) ==> first_occurrence(s@, pat@) == Some(i as int),
        r is None ==> first_occurrence(s@, pat@) is None,
{
    if pat.len() > s.len() {
        return None;
    }
    let last = s.len() - pat.len();
    let mut i: usize = 0;
    while i <= last
        invariant
            last == s@.len() - pat@.len(),
            forall|j: int| 0 <= j < i ==> !occurs_at(s@, pat@, j),
        decreases last + 1 - i,
    {
        if occurs_at_exec(s, pat, i) {
            proof {
                let w = choose|w: int| occurs_at(s@, pat@, w) && forall|j: int| 0 <= j < w ==> !occurs_at(s@, pat@, j);
                assert(w == i as int) by {
                    if w < i as int {
                    } else if w > i as int {
                    }
                }
            }
            return Some(i);
        }
        if i == last {
            proof {
                assert forall|j: int| !occurs_at(s@, pat@, j) by {
                    if 0 <= j && j + pat@.len() <= s@.len() {
                        assert(j <= i);
                    }
                }
            }
            return None;
        }
        i = i + 1;
    }
    None
}

/// Whether `pat` occurs in `s` (`str::contains`).
pub fn str_contains(s: &str, pat: &str) -> (r: bool)
    ensures
        r == contains_text(s@, pat@),
{
    let cs = chars_of(s);
    let ps = chars_of(pat);
    match find_text(cs.as_slice(), ps.as_slice()) {
        Some(_) => true,
        None => false,
    }
}

/// A line without the carriage return before its line feed.
pub open spec fn strip_cr(s: Seq<char>) -> Seq<char> {
    if s.len() > 0 && s.last() == '\r' {
        s.drop_last()
    } else {
        s
    }
}

/// Position of the first line feed (the length when there is none).
pub open spec fn first_newline(s: Seq<char>) -> int
    decreases s.len(),
{
    if s.len() == 0 {
        0
    } else if s[0] == '\n' {
        0
    } else {
        1 + first_newline(s.drop_first())
    }
}

/// The lines of a text, as `str::lines` gives them: split at each line
/// feed, with a carriage return just before it dropped; a final line feed
/// ends the last line without starting another.
pub open spec fn lines_of(s: Seq<char>) -> Seq<Seq<char>>
    decreases s.len(),
{
    if s.len() == 0 {
        Seq::empty()
    } else if 0 <= first_newline(s) < s.len() {
        seq![strip_cr(s.take(first_newline(s)))] + lines_of(s.skip(first_newline(s) + 1))
    } else {
        seq![s]
    }
}

/// The first line feed is at `j` when none comes before it.
proof fn lemma_first_newline(s: Seq<char>, j: int)
    requires
        0 <= j <= s.len(),
        forall|m: int| 0 <= m < j ==> s[m] != '\n',
        j < s.len() ==> s[j] == '\n',
    ensures
        first_newline(s) == j,
    decreases s.len(),
{
    if s.len() > 0 && j > 0 {
        lemma_first_newline(s.drop_first(), j - 1);
    }
}

} // verus!

verus! {

/// The characters of `s` from `lo` to `hi`.
fn copy_range(s: &[char], lo: usize, hi: usize) -> (v: Vec<char>)
    requires
        lo <= hi <= s@.len(),
    ensures
        v@ == s@.subrange(lo as int, hi as int),
{
    let mut v: Vec<char> = Vec::new();
    let mut k: usize = lo;
    while k < hi
        invariant
            lo <= k <= hi,
            hi <= s@.len(),
            v@ == s@.subrange(lo as int, k as int),
        decreases hi - k,
    {
        v.push(s[k]);
        k = k + 1;
        proof {
            assert(v@ =~= s@.subrange(lo as int, k as int));
        }
    }
    v
}

/// The lines of a text, as `str::lines` gives them.
pub fn lines(s: &[char]) -> (ls: Vec<Vec<char>>)
    ensures
        ls@.map_values(|l: Vec<char>| l@) == lines_of(s@),
{
    let mut ls: Vec<Vec<char>> = Vec::new();
    let mut start: usize = 0;
    proof {
        assert(s@.skip(0) =~= s@);
    }
    while start < s.len()
        invariant
            start <= s@.len(),
            ls@.map_values(|l: Vec<char>| l@) + lines_of(s@.skip(start as int)) == lines_of(s@),
        decreases s@.len() - start,
    {
        let ghost rest = s@.skip(start as int);
        let ghost before = ls@.map_values(|l: Vec<char>| l@);
        let mut j: usize = start;
        while j < s.len() && s[j] != '\n'
            invariant
                start <= j <= s@.len(),
                forall|m: int| start <= m < j ==> s@[m] != '\n',
            decreases s@.len() - j,
        {
            j = j + 1;
        }
        proof {
            lemma_first_newline(rest, j - start);
        }
        if j < s.len() {
            let mut line = copy_range(s, start, j);
            if line.len() > 0 && line[line.len() - 1] == '\r' {
                line.pop();
            }
            proof {
                assert(s@.subrange(start as int, j as int) =~= rest.take(j - start));
                assert(line@ == strip_cr(rest.take(j - start)));
                assert(rest.skip(j - start + 1) =~= s@.skip(j + 1));
            }
            ls.push(line);
            proof {
                assert(ls@.map_values(|l: Vec<char>| l@) =~= before.push(strip_cr(rest.take(j - start))));
                assert(before.push(strip_cr(rest.take(j - start))) + lines_of(s@.skip(j + 1)) =~= before + (
                seq![strip_cr(rest.take(j - start))] + lines_of(rest.skip(j - start + 1))));
            }
            start = j + 1;
        } else {
            let line = copy_range(s, start, s.len());
            proof {
                assert(line@ =~= rest);
                assert(s@.skip(s@.len() as int) =~= Seq::<char>::empty());
            }
            ls.push(line);
            proof {
                assert(ls@.map_values(|l: Vec<char>| l@) =~= before.push(rest));
                assert(before.push(rest) =~= before + seq![rest]);
            }
            start = s.len();
        }
    }
    proof {
        assert(s@.skip(start as int) =~= Seq::<char>::empty());
        assert(ls@.map_values(|l: Vec<char>| l@) + Seq::<Seq<char>>::empty() =~= ls@.map_values(|l: Vec<char>| l@));
    }
    ls
}

} // verus!

verus! {

/// Position of the first non-white character at or after `i`.
pub open spec fn skip_white_from(s: Seq<char>, i: int) -> int
    decreases s.len() - i,
{
    if 0 <= i < s.len() && is_white(s[i]) {
        skip_white_from(s, i + 1)
    } else {
        i
    }
}

/// Position of the first white character at or after `i`.
pub open spec fn word_end_from(s: Seq<char>, i: int) -> int
    decreases s.len() - i,
{
    if 0 <= i < s.len() && !is_white(s[i]) {
        word_end_from(s, i + 1)
    } else {
        i
    }
}

/// The first white-space separated word of a text (empty when there is
/// none), as `split_whitespace().next()` gives it.
pub open spec fn first_word(s: Seq<char>) -> Seq<char> {
    let b = skip_white_from(s, 0);
    s.subrange(b, word_end_from(s, b))
}

} // verus!

verus! {

/// The first white-space separated word of the characters.
pub fn first_word_of(s: &[char]) -> (w: Vec<char>)
    ensures
        w@ == first_word(s@),
{
    let mut i: usize = 0;
    while i < s.len() && char_is_white(s[i])
        invariant
            i <= s@.len(),
            skip_white_from(s@, i as int) == skip_white_from(s@, 0),
        decreases s@.len() - i,
    {
        i = i + 1;
    }
    let b = i;
    let mut w: Vec<char> = Vec::new();
    while i < s.len() && !char_is_white(s[i])
        invariant
            b <= i <= s@.len(),
            b == skip_white_from(s@, 0),
            word_end_from(s@, i as int) == word_end_from(s@, b as int),
            w@ == s@.subrange(b as int, i as int),
        decreases s@.len() - i,
    {
        w.push(s[i]);
        i = i + 1;
        proof {
            assert(w@ =~= s@.subrange(b as int, i as int));
        }
    }
    w
}

} // verus!

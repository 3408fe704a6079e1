//! Text forms of the primitive values carried by NMEA fields, and their parsers.
use vstd::prelude::*;
use vstd::string::*;

verus! {

pub open spec fn is_digit(c: char) -> bool {
    '0' <= c && c <= '9'
}

pub open spec fn digit_value(c: char) -> int {
    c as int - '0' as int
}

/// Number of consecutive decimal digits of `s` starting at index `i`.
pub open spec fn digit_run(s: Seq<char>, i: int) -> nat
    decreases s.len() - i,
{
    if 0 <= i < s.len() && is_digit(s[i]) {
        1 + digit_run(s, i + 1)
    } else {
        0
    }
}

/// Value of a string of decimal digits, most significant first.
pub open spec fn dec_value(s: Seq<char>) -> int
    decreases s.len(),
{
    if s.len() == 0 {
        0
    } else {
        10 * dec_value(s.drop_last()) + digit_value(s.last())
    }
}

pub open spec fn is_sign(c: char) -> bool {
    c == '+' || c == '-'
}

/// Length of the optional leading sign of `s` at index `i` (0 or 1).
pub open spec fn sign_len(s: Seq<char>, i: int) -> int {
    if 0 <= i < s.len() && is_sign(s[i]) {
        1
    } else {
        0
    }
}

/// The integer written by `s`: an optional sign (a minus only when `signed`)
/// followed by one or more decimal digits and nothing else.
pub open spec fn int_text_value(s: Seq<char>, signed: bool) -> Option<int> {
    let start = sign_len(s, 0);
    let negative = start == 1 && s[0] == '-';
    if digit_run(s, start) > 0 && start + digit_run(s, start) == s.len() && (signed
        || !negative) {
        let m = dec_value(s.subrange(start, s.len() as int));
        Some(if negative { -m } else { m })
    } else {
        None
    }
}

/// The integer written by `s` when it lies in `min..=max`.
pub open spec fn int_in_range(s: Seq<char>, signed: bool, min: int, max: int) -> Option<int> {
    match int_text_value(s, signed) {
        Some(v) => if min <= v <= max {
            Some(v)
        } else {
            None
        },
        None => None,
    }
}

pub open spec fn lower_ascii(c: char) -> char {
    if 'A' <= c && c <= 'Z' {
        (c as int + 32) as char
    } else {
        c
    }
}

/// `s` equals the lower-case word `w`, ignoring ASCII case.
pub open spec fn matches_word(s: Seq<char>, w: Seq<char>) -> bool {
    s.len() == w.len() && forall|i: int| 0 <= i < s.len() ==> lower_ascii(#[trigger] s[i]) == w[i]
}

pub open spec fn is_special_float(t: Seq<char>) -> bool {
    matches_word(t, seq!['i', 'n', 'f']) || matches_word(
        t,
        seq!['i', 'n', 'f', 'i', 'n', 'i', 't', 'y'],
    ) || matches_word(t, seq!['n', 'a', 'n'])
}

/// Decimal number with optional fraction and exponent:
/// `Digit+ | Digit+ '.' Digit* | Digit* '.' Digit+`, then `([eE] Sign? Digit+)?`.
pub open spec fn is_decimal_number(t: Seq<char>) -> bool {
    let a = digit_run(t, 0) as int;
    let has_dot = a < t.len() && t[a] == '.';
    let f: int = if has_dot {
        digit_run(t, a + 1) as int
    } else {
        0
    };
    let b: int = if has_dot {
        a + 1 + f
    } else {
        a
    };
    let c = b + 1 + sign_len(t, b + 1);
    &&& a + f > 0
    &&& (b == t.len() || ((t[b] == 'e' || t[b] == 'E') && digit_run(t, c) > 0 && c + digit_run(
        t,
        c,
    ) == t.len()))
}

/// The text of a real number as the standard library's float parser accepts it:
/// an optional sign, then `inf`, `infinity`, `nan` (any case) or a decimal number.
pub open spec fn is_real_text(s: Seq<char>) -> bool {
    let t = s.subrange(sign_len(s, 0), s.len() as int);
    is_special_float(t) || is_decimal_number(t)
}

pub proof fn lemma_digit_run_bound(s: Seq<char>, i: int)
    requires
        0 <= i <= s.len(),
    ensures
        i + digit_run(s, i) <= s.len(),
        forall|k: int| i <= k < i + digit_run(s, i) ==> is_digit(#[trigger] s[k]),
        i + digit_run(s, i) < s.len() ==> !is_digit(s[i + digit_run(s, i)]),
    decreases s.len() - i,
{
    if i < s.len() && is_digit(s[i]) {
        lemma_digit_run_bound(s, i + 1);
    }
}

proof fn lemma_dec_value_nonneg(s: Seq<char>)
    requires
        forall|k: int| 0 <= k < s.len() ==> is_digit(#[trigger] s[k]),
    ensures
        dec_value(s) >= 0,
    decreases s.len(),
{
    if s.len() > 0 {
        lemma_dec_value_nonneg(s.drop_last());
    }
}

/// The value of a digit string is at least that of each of its prefixes.
proof fn lemma_dec_value_prefix(s: Seq<char>, k: int)
    requires
        0 <= k <= s.len(),
        forall|j: int| 0 <= j < s.len() ==> is_digit(#[trigger] s[j]),
    ensures
        dec_value(s) >= dec_value(s.subrange(0, k)),
    decreases s.len() - k,
{
    if k < s.len() {
        lemma_dec_value_prefix(s.drop_last(), k);
        lemma_dec_value_nonneg(s.drop_last());
        assert(s.drop_last().subrange(0, k) =~= s.subrange(0, k));
    } else {
        assert(s.subrange(0, k) =~= s);
    }
}

/// Counts the decimal digits of `s` from index `i`.
fn count_digits(s: &str, len: usize, i: usize) -> (r: usize)
    requires
        len == s@.len(),
        i <= len,
    ensures
        r == digit_run(s@, i as int),
        i + r <= len,
{
    let mut j = i;
    while j < len && is_digit_char(s.get_char(j))
        invariant
            i <= j <= len,
            len == s@.len(),
            digit_run(s@, i as int) == (j - i) + digit_run(s@, j as int),
        decreases len - j,
    {
        j = j + 1;
    }
    proof {
        lemma_digit_run_bound(s@, i as int);
    }
    j - i
}

fn is_digit_char(c: char) -> (r: bool)
    ensures
        r == is_digit(c),
{
    '0' <= c && c <= '9'
}

fn sign_length(s: &str, len: usize, i: usize) -> (r: usize)
    requires
        len == s@.len(),
        i <= len,
    ensures
        r == sign_len(s@, i as int),
{
    if i < len {
        let c = s.get_char(i);
        if c == '+' || c == '-' {
            return 1;
        }
    }
    0
}

/// Parses a decimal integer with optional sign, accepting it only within `min..=max`.
pub fn parse_integer(s: &str, signed: bool, min: i64, max: i64) -> (r: Option<i64>)
    requires
        -0x8000_0000_0000 <= min <= 0 <= max <= 0x8000_0000_0000,
    ensures
        r matches Some(v) ==> int_in_range(s@, signed, min as int, max as int) == Some(v as int),
        r is None ==> int_in_range(s@, signed, min as int, max as int) is None,
{
    let len = s.unicode_len();
    let start = sign_length(s, len, 0);
    let negative = start == 1 && s.get_char(0) == '-';
    if negative && !signed {
        return None;
    }
    let n = count_digits(s, len, start);
    if n == 0 || start + n != len {
        return None;
    }
    let bound: u64 = if negative {
        (0 - min) as u64
    } else {
        max as u64
    };
    let ghost t = s@.subrange(start as int, len as int);
    proof {
        lemma_digit_run_bound(s@, start as int);
        assert forall|j: int| 0 <= j < t.len() implies is_digit(#[trigger] t[j]) by {
            assert(t[j] == s@[start + j]);
        }
        assert(int_text_value(s@, signed) == Some(
            if negative {
                -dec_value(t)
            } else {
                dec_value(t)
            },
        ));
    }
    let mut acc: u64 = 0;
    let mut k: usize = start;
    while k < len
        invariant
            start <= k <= len,
            len == s@.len(),
            t == s@.subrange(start as int, len as int),
            forall|j: int| 0 <= j < t.len() ==> is_digit(#[trigger] t[j]),
            acc as int == dec_value(t.subrange(0, k - start)),
            acc <= bound,
            bound <= 0x8000_0000_0000,
            negative ==> bound == -min,
            !negative ==> bound == max,
            int_text_value(s@, signed) == Some(
                if negative {
                    -dec_value(t)
                } else {
                    dec_value(t)
                },
            ),
        decreases len - k,
    {
        let c = s.get_char(k);
        proof {
            assert(c == t[k - start]);
            assert(is_digit(t[k - start]));
            assert(t.subrange(0, k - start + 1).drop_last() =~= t.subrange(0, k - start));
        }
        let d = (c as u32 - '0' as u32) as u64;
        acc = acc * 10 + d;
        if acc > bound {
            proof {
                lemma_dec_value_prefix(t, k - start + 1);
                assert(t.subrange(0, len - start) =~= t);
                assert(dec_value(t) > bound);
            }
            return None;
        }
        k = k + 1;
    }
    proof {
        assert(t.subrange(0, len - start) =~= t);
    }
    if negative {
        Some(0 - (acc as i64))
    } else {
        Some(acc as i64)
    }
}

/// Checks that `s` is the text of a real number (see `is_real_text`).
pub fn is_real(s: &str) -> (r: bool)
    ensures
        r == is_real_text(s@),
{
    let len = s.unicode_len();
    let start = sign_length(s, len, 0);
    let t = s.substring_char(start, len);
    let tl = len - start;
    assert(t@.len() == tl);
    if is_special_word(t, tl) {
        return true;
    }
    let a = count_digits(t, tl, 0);
    let has_dot = a < tl && t.get_char(a) == '.';
    let f = if has_dot {
        count_digits(t, tl, a + 1)
    } else {
        0
    };
    let b = if has_dot {
        a + 1 + f
    } else {
        a
    };
    if a + f == 0 {
        return false;
    }
    if b == tl {
        return true;
    }
    let e = t.get_char(b);
    if e != 'e' && e != 'E' {
        return false;
    }
    let c = b + 1 + sign_length(t, tl, b + 1);
    if c > tl {
        return false;
    }
    let g = count_digits(t, tl, c);
    g > 0 && c + g == tl
}

fn lower_char(c: char) -> (r: char)
    ensures
        r == lower_ascii(c),
{
    if 'A' <= c && c <= 'Z' {
        ((c as u32 + 32) as u8) as char
    } else {
        c
    }
}

fn matches_word_exec(s: &str, len: usize, w: &str) -> (r: bool)
    requires
        len == s@.len(),
    ensures
        r == matches_word(s@, w@),
{
    let wl = w.unicode_len();
    if wl != len {
        return false;
    }
    let mut i: usize = 0;
    while i < len
        invariant
            i <= len,
            len == s@.len(),
            wl == w@.len(),
            wl == len,
            forall|j: int| 0 <= j < i ==> lower_ascii(#[trigger] s@[j]) == w@[j],
        decreases len - i,
    {
        if lower_char(s.get_char(i)) != w.get_char(i) {
            return false;
        }
        i = i + 1;
    }
    true
}

fn is_special_word(t: &str, len: usize) -> (r: bool)
    requires
        len == t@.len(),
    ensures
        r == is_special_float(t@),
{
    proof {
        reveal_strlit("inf");
        reveal_strlit("infinity");
        reveal_strlit("nan");
        assert("inf"@ =~= seq!['i', 'n', 'f']);
        assert("infinity"@ =~= seq!['i', 'n', 'f', 'i', 'n', 'i', 't', 'y']);
        assert("nan"@ =~= seq!['n', 'a', 'n']);
    }
    matches_word_exec(t, len, "inf") || matches_word_exec(t, len, "infinity") || matches_word_exec(
        t,
        len,
        "nan",
    )
}

/// Value of a hexadecimal digit (either case).
pub open spec fn hex_value(c: char) -> Option<int> {
    if is_digit(c) {
        Some(digit_value(c))
    } else if 'a' <= c && c <= 'f' {
        Some(c as int - 'a' as int + 10)
    } else if 'A' <= c && c <= 'F' {
        Some(c as int - 'A' as int + 10)
    } else {
        None
    }
}

/// The byte written by exactly two hexadecimal digits.
pub open spec fn hex_byte(s: Seq<char>) -> Option<int> {
    if s.len() == 2 && hex_value(s[0]) is Some && hex_value(s[1]) is Some {
        Some(16 * hex_value(s[0])->0 + hex_value(s[1])->0)
    } else {
        None
    }
}

fn hex_digit(c: char) -> (r: Option<i32>)
    ensures
        r matches Some(v) ==> hex_value(c) == Some(v as int),
        r is None ==> hex_value(c) is None,
{
    if '0' <= c && c <= '9' {
        Some((c as u32 - '0' as u32) as i32)
    } else if 'a' <= c && c <= 'f' {
        Some((c as u32 - 'a' as u32 + 10) as i32)
    } else if 'A' <= c && c <= 'F' {
        Some((c as u32 - 'A' as u32 + 10) as i32)
    } else {
        None
    }
}

/// Parses the two hexadecimal digits of a sentence checksum.
pub fn parse_checksum(hexstr: &str) -> (r: Option<i32>)
    ensures
        r matches Some(v) ==> hex_byte(hexstr@) == Some(v as int),
        r is None ==> hex_byte(hexstr@) is None,
{
    if hexstr.unicode_len() != 2 {
        return None;
    }
    match (hex_digit(hexstr.get_char(0)), hex_digit(hexstr.get_char(1))) {
        (Some(h), Some(l)) => Some(16 * h + l),
        _ => None,
    }
}

} // verus!

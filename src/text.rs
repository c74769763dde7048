//! Character-level helpers: ASCII case folding, decimal numbers and
//! substring tests, each stated over the characters of a string.
use vstd::prelude::*;

verus! {

pub open spec fn lower_code(c: char) -> u32 {
    if 65 <= (c as u32) && (c as u32) <= 90 {
        ((c as u32) + 32) as u32
    } else {
        c as u32
    }
}

/// Two character sequences that agree up to ASCII case.
pub open spec fn eq_ignore_case(a: Seq<char>, b: Seq<char>) -> bool {
    a.len() == b.len() && forall|i: int| 0 <= i < a.len() ==> lower_code(#[trigger] a[i]) == lower_code(b[i])
}

/// `r` is `a` with its ASCII upper-case letters lowered.
pub open spec fn is_ascii_lower_of(r: Seq<char>, a: Seq<char>) -> bool {
    r.len() == a.len() && forall|i: int| 0 <= i < a.len() ==> (#[trigger] r[i]) as u32 == lower_code(a[i])
}

/// `c` with an ASCII upper-case letter lowered.
fn to_lower(c: char) -> (r: char)
    ensures
        r as u32 == lower_code(c),
{
    let u = c as u32;
    if 65 <= u && u <= 90 {
        ((u + 32) as u8) as char
    } else {
        c
    }
}

/// Relies on String::push: appends one character.
#[verifier::external_body]
pub(crate) fn push_char(s: &mut String, c: char)
    ensures
        final(s)@ == old(s)@.push(c),
{
    s.push(c)
}

pub open spec fn is_digit(c: char) -> bool {
    48 <= (c as u32) && (c as u32) <= 57
}

pub open spec fn all_digits(s: Seq<char>) -> bool {
    forall|i: int| 0 <= i < s.len() ==> is_digit(#[trigger] s[i])
}

pub open spec fn digit_value(c: char) -> int {
    (c as u32) as int - 48
}

/// The number that a run of decimal digits writes.
pub open spec fn decimal_value(s: Seq<char>) -> int
    decreases s.len(),
{
    if s.len() == 0 {
        0
    } else {
        decimal_value(s.drop_last()) * 10 + digit_value(s.last())
    }
}

/// The decimal digits of `n`, most significant first, without leading zeros
/// ("0" for zero).
pub open spec fn decimal_text(n: nat) -> Seq<char>
    decreases n,
{
    if n < 10 {
        seq![digit_char(n)]
    } else {
        decimal_text(n / 10).push(digit_char(n % 10))
    }
}

pub open spec fn digit_char(d: nat) -> char {
    if d == 0 { '0' }
    else if d == 1 { '1' }
    else if d == 2 { '2' }
    else if d == 3 { '3' }
    else if d == 4 { '4' }
    else if d == 5 { '5' }
    else if d == 6 { '6' }
    else if d == 7 { '7' }
    else if d == 8 { '8' }
    else { '9' }
}

/// Why a run of characters is not a number that fits a `u16`.
#[derive(Debug, Clone, Copy, PartialEq, Eq, Structural)]
pub enum IntParseError {
    /// There were no characters.
    Empty,
    /// A character is not an ASCII digit.
    InvalidDigit,
    /// The digits write a number above 65535.
    Overflow,
}

/// What a run of characters that should be all digits reads as, with the
/// bound `max`.
pub open spec fn spec_parse_digits(s: Seq<char>, max: u64) -> Result<u64, IntParseError> {
    if s.len() == 0 {
        Err(IntParseError::Empty)
    } else if !all_digits(s) {
        Err(IntParseError::InvalidDigit)
    } else if decimal_value(s) > max {
        Err(IntParseError::Overflow)
    } else {
        Ok(decimal_value(s) as u64)
    }
}

/// The digits of `s`, without a leading '+' if it has one.
pub open spec fn unsigned_digits(s: Seq<char>) -> Seq<char> {
    if s.len() > 0 && s[0] == '+' {
        s.skip(1)
    } else {
        s
    }
}

/// What `parse_decimal` returns for the characters `s` and the bound `max`:
/// an optional '+' followed by at least one ASCII digit.
pub open spec fn spec_parse_decimal(s: Seq<char>, max: u64) -> Result<u64, IntParseError> {
    if s.len() == 0 {
        Err(IntParseError::Empty)
    } else if unsigned_digits(s).len() == 0 {
        Err(IntParseError::InvalidDigit)
    } else {
        spec_parse_digits(unsigned_digits(s), max)
    }
}

/// What `parse_u16` returns for the characters `s`.
pub open spec fn spec_parse_u16(s: Seq<char>) -> Result<u16, IntParseError> {
    match spec_parse_decimal(s, 65535) {
        Ok(v) => Ok(v as u16),
        Err(e) => Err(e),
    }
}

proof fn lemma_decimal_nonneg(s: Seq<char>)
    requires
        all_digits(s),
    ensures
        decimal_value(s) >= 0,
    decreases s.len(),
{
    if s.len() > 0 {
        assert(all_digits(s.drop_last())) by {
            assert forall|i: int| 0 <= i < s.drop_last().len() implies is_digit(
                #[trigger] s.drop_last()[i],
            ) by {
                assert(is_digit(s[i]));
            }
        }
        lemma_decimal_nonneg(s.drop_last());
        assert(is_digit(s[s.len() - 1]));
    }
}

/// Reads an optional '+' and a non-empty run of ASCII decimal digits as a
/// number no larger than `max`.
pub fn parse_decimal(s: &str, max: u64) -> (r: Result<u64, IntParseError>)
    ensures
        r == spec_parse_decimal(s@, max),
{
    let n = s.unicode_len();
    if n == 0 {
        return Err(IntParseError::Empty);
    }
    if s.get_char(0) == '+' {
        if n == 1 {
            return Err(IntParseError::InvalidDigit);
        }
        let digits = s.substring_char(1, n);
        assert(digits@ == unsigned_digits(s@));
        parse_digits(digits, max)
    } else {
        assert(s@ == unsigned_digits(s@));
        parse_digits(s, max)
    }
}

fn parse_digits(s: &str, max: u64) -> (r: Result<u64, IntParseError>)
    ensures
        r == spec_parse_digits(s@, max),
{
    let n = s.unicode_len();
    if n == 0 {
        return Err(IntParseError::Empty);
    }
    let mut i: usize = 0;
    while i < n
        invariant
            n == s@.len(),
            i <= n,
            all_digits(s@.take(i as int)),
        decreases n - i,
    {
        let c = s.get_char(i);
        if !((c as u32) >= 48 && (c as u32) <= 57) {
            assert(!all_digits(s@)) by {
                assert(!is_digit(s@[i as int]));
            }
            return Err(IntParseError::InvalidDigit);
        }
        assert(all_digits(s@.take(i + 1))) by {
            assert forall|k: int| 0 <= k < i + 1 implies is_digit(#[trigger] s@.take(i + 1)[k]) by {
                if k < i {
                    assert(s@.take(i + 1)[k] == s@.take(i as int)[k]);
                }
            }
        }
        i = i + 1;
    }
    assert(s@.take(n as int) =~= s@);
    let mut acc: u64 = 0;
    let mut over = false;
    i = 0;
    while i < n
        invariant
            n == s@.len(),
            i <= n,
            all_digits(s@),
            !over ==> acc as int == decimal_value(s@.take(i as int)),
            !over ==> acc <= max,
            over ==> decimal_value(s@.take(i as int)) > max,
        decreases n - i,
    {
        let c = s.get_char(i);
        let d = ((c as u32) - 48) as u64;
        let ghost pre = s@.take(i as int);
        let ghost next = s@.take(i + 1);
        assert(next.drop_last() =~= pre);
        assert(next.last() == c);
        assert(is_digit(s@[i as int]));
        assert(decimal_value(next) == decimal_value(pre) * 10 + digit_value(c));
        if !over {
            if acc > max / 10 {
                assert(acc * 10 > max) by (nonlinear_arith)
                    requires
                        acc > max / 10,
                ;
                over = true;
            } else {
                assert(acc * 10 <= max) by (nonlinear_arith)
                    requires
                        acc <= max / 10,
                ;
                if d > max - acc * 10 {
                    over = true;
                } else {
                    acc = acc * 10 + d;
                }
            }
        } else {
            proof {
                assert(all_digits(pre)) by {
                    assert forall|k: int| 0 <= k < pre.len() implies is_digit(#[trigger] pre[k]) by {
                        assert(pre[k] == s@[k]);
                    }
                }
                lemma_decimal_nonneg(pre);
                assert(decimal_value(pre) * 10 >= decimal_value(pre)) by (nonlinear_arith)
                    requires
                        decimal_value(pre) >= 0,
                ;
            }
        }
        i = i + 1;
    }
    assert(s@.take(n as int) =~= s@);
    if over {
        Err(IntParseError::Overflow)
    } else {
        Ok(acc)
    }
}

/// Reads an optional '+' and a non-empty run of ASCII decimal digits as a
/// `u16`.
pub fn parse_u16(s: &str) -> (r: Result<u16, IntParseError>)
    ensures
        r == spec_parse_u16(s@),
{
    match parse_decimal(s, 65535) {
        Ok(v) => Ok(v as u16),
        Err(e) => Err(e),
    }
}

/// Whether `i` is the first position in `s` that holds `a` or `b`.
pub open spec fn is_first_of(s: Seq<char>, i: int, a: char, b: char) -> bool {
    0 <= i < s.len() && (s[i] == a || s[i] == b) && forall|j: int|
        0 <= j < i ==> #[trigger] s[j] != a && s[j] != b
}

/// The first position in `s` that holds `a` or `b`, if any.
pub open spec fn first_of(s: Seq<char>, a: char, b: char) -> Option<int> {
    if exists|i: int| is_first_of(s, i, a, b) {
        Some(choose|i: int| is_first_of(s, i, a, b))
    } else {
        None
    }
}

proof fn lemma_first_of_unique(s: Seq<char>, i: int, a: char, b: char)
    requires
        is_first_of(s, i, a, b),
    ensures
        first_of(s, a, b) == Some(i),
{
    let c = choose|k: int| is_first_of(s, k, a, b);
    assert(is_first_of(s, c, a, b));
    if c < i {
        assert(s[c] != a && s[c] != b);
    } else if c > i {
        assert(s[i] != a && s[i] != b);
    }
}

/// Finds the first position in `s` that holds `a` or `b`.
pub fn find_first_of(s: &str, a: char, b: char) -> (r: Option<usize>)
    ensures
        r matches Some(i) ==> first_of(s@, a, b) == Some(i as int),
        r is None ==> first_of(s@, a, b) is None,
{
    let n = s.unicode_len();
    let mut i: usize = 0;
    while i < n
        invariant
            n == s@.len(),
            i <= n,
            forall|j: int| 0 <= j < i ==> #[trigger] s@[j] != a && s@[j] != b,
        decreases n - i,
    {
        let c = s.get_char(i);
        if c == a || c == b {
            proof {
                lemma_first_of_unique(s@, i as int, a, b);
            }
            return Some(i);
        }
        i = i + 1;
    }
    assert(!exists|k: int| is_first_of(s@, k, a, b));
    None
}

fn digit_to_char(d: u16) -> (c: char)
    requires
        d < 10,
    ensures
        c == digit_char(d as nat),
{
    if d == 0 { '0' }
    else if d == 1 { '1' }
    else if d == 2 { '2' }
    else if d == 3 { '3' }
    else if d == 4 { '4' }
    else if d == 5 { '5' }
    else if d == 6 { '6' }
    else if d == 7 { '7' }
    else if d == 8 { '8' }
    else { '9' }
}

/// Appends the decimal digits of `n`.
fn write_decimal(n: u16, out: &mut String)
    ensures
        final(out)@ == old(out)@ + decimal_text(n as nat),
    decreases n,
{
    if n >= 10 {
        write_decimal(n / 10, out);
    }
    push_char(out, digit_to_char(n % 10));
    assert(out@ =~= old(out)@ + decimal_text(n as nat));
}

/// The decimal digits of `n`, most significant first.
pub(crate) fn u16_text(n: u16) -> (r: String)
    ensures
        r@ == decimal_text(n as nat),
{
    let mut r = String::new();
    write_decimal(n, &mut r);
    assert(r@ =~= decimal_text(n as nat));
    r
}

/// Whether `a` and `b` are equal up to ASCII case.
pub fn eq_ignore_ascii_case(a: &str, b: &str) -> (r: bool)
    ensures
        r == eq_ignore_case(a@, b@),
{
    let n = a.unicode_len();
    if n != b.unicode_len() {
        return false;
    }
    let mut i: usize = 0;
    while i < n
        invariant
            n == a@.len(),
            n == b@.len(),
            i <= n,
            forall|k: int| 0 <= k < i ==> lower_code(#[trigger] a@[k]) == lower_code(b@[k]),
        decreases n - i,
    {
        let x = to_lower(a.get_char(i));
        let y = to_lower(b.get_char(i));
        if x != y {
            assert(lower_code(a@[i as int]) != lower_code(b@[i as int]));
            return false;
        }
        i = i + 1;
    }
    true
}

/// `s` with its ASCII letters lowered.
pub fn ascii_lowercase(s: &str) -> (r: String)
    ensures
        is_ascii_lower_of(r@, s@),
        eq_ignore_case(r@, s@),
{
    let n = s.unicode_len();
    let mut r = String::new();
    let mut i: usize = 0;
    while i < n
        invariant
            n == s@.len(),
            i <= n,
            r@.len() == i,
            forall|k: int| 0 <= k < i ==> (#[trigger] r@[k]) as u32 == lower_code(s@[k]),
            forall|k: int| 0 <= k < i ==> lower_code(#[trigger] r@[k]) == lower_code(s@[k]),
        decreases n - i,
    {
        let c = to_lower(s.get_char(i));
        push_char(&mut r, c);
        proof {
            // lowering an already lowered code changes nothing
            let k = lower_code(s@[i as int]);
            assert(c as u32 == k);
        }
        i = i + 1;
    }
    assert(s@.take(n as int) =~= s@);
    r
}

/// Whether the last characters of `s` are those of `suffix`.
pub fn ends_with(s: &str, suffix: &str) -> (r: bool)
    ensures
        r == (suffix@.len() <= s@.len() && s@.subrange(s@.len() - suffix@.len(), s@.len() as int)
            == suffix@),
{
    let n = s.unicode_len();
    let m = suffix.unicode_len();
    if m > n {
        return false;
    }
    let off = n - m;
    let mut i: usize = 0;
    while i < m
        invariant
            n == s@.len(),
            m == suffix@.len(),
            off == n - m,
            i <= m,
            forall|k: int| 0 <= k < i ==> s@[off + k] == #[trigger] suffix@[k],
        decreases m - i,
    {
        if s.get_char(off + i) != suffix.get_char(i) {
            assert(s@.subrange(off as int, n as int)[i as int] != suffix@[i as int]);
            return false;
        }
        i = i + 1;
    }
    assert(s@.subrange(off as int, n as int) =~= suffix@);
    true
}

} // verus!

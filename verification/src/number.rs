//! Numbers as text: decimal digits, integers, and floating-point literals.
use vstd::prelude::*;
use vstd::slice::slice_subrange;

verus! {

/// A decimal digit.
pub open spec fn is_digit(c: char) -> bool {
    '0' <= c && c <= '9'
}

/// The value of a decimal digit.
pub open spec fn digit_value(c: char) -> int {
    c as int - '0' as int
}

/// The decimal digit with the given value.
pub open spec fn digit_of(d: int) -> char {
    (d + '0' as int) as char
}

/// One decimal digit or more, and nothing else.
pub open spec fn all_digits(s: Seq<char>) -> bool {
    &&& s.len() > 0
    &&& forall|i: int| 0 <= i < s.len() ==> is_digit(#[trigger] s[i])
}

/// The number that the digits of `s` write.
pub open spec fn digits_value(s: Seq<char>) -> nat
    decreases s.len(),
{
    if s.len() == 0 {
        0
    } else {
        (digits_value(s.drop_last()) * 10 + digit_value(s.last())) as nat
    }
}

/// The decimal digits of `n`, without leading zeros.
pub open spec fn decimal(n: nat) -> Seq<char>
    decreases n,
{
    if n < 10 {
        seq![digit_of(n as int)]
    } else {
        decimal(n / 10).push(digit_of((n % 10) as int))
    }
}

/// The decimal digits of `n`, after a minus sign where `n` is negative.
pub open spec fn signed_decimal(n: int) -> Seq<char> {
    if n < 0 {
        seq!['-'] + decimal((-n) as nat)
    } else {
        decimal(n as nat)
    }
}

/// `s` without the plus sign at its start, if it has one.
pub open spec fn without_plus(s: Seq<char>) -> Seq<char> {
    if s.len() > 0 && s[0] == '+' {
        s.skip(1)
    } else {
        s
    }
}

/// The number that `s` writes as an integer: digits, with an optional plus or minus sign.
pub open spec fn integer_value(s: Seq<char>) -> Option<int> {
    if s.len() > 0 && s[0] == '-' {
        if all_digits(s.skip(1)) {
            Some(-(digits_value(s.skip(1)) as int))
        } else {
            None
        }
    } else if all_digits(without_plus(s)) {
        Some(digits_value(without_plus(s)) as int)
    } else {
        None
    }
}

/// The number that `s` writes as an `i64`.
pub open spec fn i64_value(s: Seq<char>) -> Option<i64> {
    match integer_value(s) {
        Some(v) if i64::MIN <= v <= i64::MAX => Some(v as i64),
        _ => None,
    }
}

/// The number that `s` writes as a `u32`. A minus sign is no part of an unsigned number.
pub open spec fn u32_value(s: Seq<char>) -> Option<u32> {
    if all_digits(without_plus(s)) && digits_value(without_plus(s)) <= u32::MAX {
        Some(digits_value(without_plus(s)) as u32)
    } else {
        None
    }
}

/// Why a text is no integer, or none that fits.
#[derive(Clone, Copy, Debug, PartialEq, Eq, Structural)]
pub enum IntegerFault {
    /// There is no text.
    Empty,
    /// There is a character that is no digit, or no digit at all.
    InvalidDigit,
    /// The number is too large.
    PosOverflow,
    /// The number is too small.
    NegOverflow,
}

/// Why a text is no floating-point literal.
#[derive(Clone, Copy, Debug, PartialEq, Eq, Structural)]
pub enum FloatFault {
    /// There is no text.
    Empty,
    /// The text is something else.
    Invalid,
}

/// `s` has a digit at every place before `i`, but none at `i`, and the number that those digits
/// write is at most `limit`.
pub open spec fn strays_at(s: Seq<char>, limit: nat, i: int) -> bool {
    &&& 0 <= i < s.len()
    &&& !is_digit(s[i])
    &&& forall|j: int| 0 <= j < i ==> is_digit(#[trigger] s[j])
    &&& digits_value(s.take(i)) <= limit
}

/// Reading `s` as digits, from the left, ends at a character that is no digit, before the
/// number exceeds `limit`; or there are no digits to read.
pub open spec fn has_stray(s: Seq<char>, limit: nat) -> bool {
    s.len() == 0 || exists|i: int| strays_at(s, limit, i)
}

/// Why `s` writes no `i64`, where it writes none.
pub open spec fn i64_fault(s: Seq<char>) -> IntegerFault {
    if s.len() == 0 {
        IntegerFault::Empty
    } else if s[0] == '-' {
        if has_stray(s.skip(1), 0x8000_0000_0000_0000) {
            IntegerFault::InvalidDigit
        } else {
            IntegerFault::NegOverflow
        }
    } else if has_stray(without_plus(s), 0x7fff_ffff_ffff_ffff) {
        IntegerFault::InvalidDigit
    } else {
        IntegerFault::PosOverflow
    }
}

/// Why `s` writes no `u32`, where it writes none.
pub open spec fn u32_fault(s: Seq<char>) -> IntegerFault {
    if s.len() == 0 {
        IntegerFault::Empty
    } else if has_stray(without_plus(s), 0xffff_ffff) {
        IntegerFault::InvalidDigit
    } else {
        IntegerFault::PosOverflow
    }
}

/// Why `s` is no floating-point literal, where it is none.
pub open spec fn float_fault(s: Seq<char>) -> FloatFault {
    if s.len() == 0 {
        FloatFault::Empty
    } else {
        FloatFault::Invalid
    }
}

/// `s` without the sign at its start, if it has one.
pub open spec fn without_sign(s: Seq<char>) -> Seq<char> {
    if s.len() > 0 && (s[0] == '+' || s[0] == '-') {
        s.skip(1)
    } else {
        s
    }
}

/// How many digits `s` starts with.
pub open spec fn leading_digits(s: Seq<char>) -> nat
    decreases s.len(),
{
    if s.len() > 0 && is_digit(s[0]) {
        1 + leading_digits(s.skip(1))
    } else {
        0
    }
}

/// Nothing, or an exponent: the letter `e` and an integer.
pub open spec fn is_optional_exponent(s: Seq<char>) -> bool {
    s.len() == 0 || ((s[0] == 'e' || s[0] == 'E') && all_digits(without_sign(s.skip(1))))
}

/// Digits, of which some may follow a decimal point, and an optional exponent.
pub open spec fn is_plain_number(s: Seq<char>) -> bool {
    let whole = leading_digits(s);
    let rest = s.skip(whole as int);
    if rest.len() > 0 && rest[0] == '.' {
        let fraction = leading_digits(rest.skip(1));
        whole + fraction > 0 && is_optional_exponent(
            rest.skip(1).skip(fraction as int),
        )
    } else {
        whole > 0 && is_optional_exponent(rest)
    }
}

/// The lower-case form of an ASCII letter; every other character as it is.
pub open spec fn lower(c: char) -> char {
    if 'A' <= c && c <= 'Z' {
        (c as int + 32) as char
    } else {
        c
    }
}

/// `s`, in either case of letters, is `word`.
pub open spec fn reads_as(s: Seq<char>, word: Seq<char>) -> bool {
    s.map_values(|c: char| lower(c)) == word
}

/// A floating-point literal: an optional sign, then a number, an infinity or not-a-number.
pub open spec fn is_float(s: Seq<char>) -> bool {
    let body = without_sign(s);
    ||| is_plain_number(body)
    ||| reads_as(body, seq!['i', 'n', 'f'])
    ||| reads_as(body, seq!['i', 'n', 'f', 'i', 'n', 'i', 't', 'y'])
    ||| reads_as(body, seq!['n', 'a', 'n'])
}

proof fn lemma_digits_value_monotone(s: Seq<char>, n: int)
    requires
        all_digits(s),
        0 <= n <= s.len(),
    ensures
        digits_value(s.take(n)) <= digits_value(s),
    decreases s.len() - n,
{
    if n < s.len() {
        lemma_digits_value_monotone(s, n + 1);
        assert(s.take(n + 1).drop_last() =~= s.take(n));
        assert(is_digit(s[n]));
    } else {
        assert(s.take(n) =~= s);
    }
}

proof fn lemma_no_stray(s: Seq<char>, limit: nat, n: int)
    requires
        0 < n <= s.len(),
        forall|j: int| 0 <= j < n ==> is_digit(#[trigger] s[j]),
        digits_value(s.take(n)) > limit,
    ensures
        !has_stray(s, limit),
{
    assert forall|i: int| !strays_at(s, limit, i) by {
        if strays_at(s, limit, i) {
            assert(i >= n);
            if i > 0 {
                lemma_digits_value_monotone(s.take(i), n);
                assert(s.take(i).take(n) =~= s.take(n));
            }
        }
    }
}

/// What ends the reading of digits early.
enum DigitsFault {
    /// A character that is no digit, or that there are no digits.
    Stray,
    /// A digit with which the number is too large.
    Overflow,
}

/// The number that the digits of `s` write, where it is at most `limit`.
fn parse_digits(s: &[char], limit: u64) -> (r: Result<u64, DigitsFault>)
    ensures
        match r {
            Ok(v) => all_digits(s@) && v == digits_value(s@) && v <= limit,
            Err(f) => {
                &&& !all_digits(s@) || digits_value(s@) > limit
                &&& f is Stray <==> has_stray(s@, limit as nat)
            },
        },
{
    if s.len() == 0 {
        return Err(DigitsFault::Stray);
    }
    let mut value: u64 = 0;
    let mut i: usize = 0;
    while i < s.len()
        invariant
            s@.len() > 0,
            i <= s.len(),
            forall|j: int| 0 <= j < i ==> is_digit(#[trigger] s@[j]),
            value == digits_value(s@.take(i as int)),
            value <= limit,
        decreases s.len() - i,
    {
        let c = s[i];
        if !('0' <= c && c <= '9') {
            assert(strays_at(s@, limit as nat, i as int));
            return Err(DigitsFault::Stray);
        }
        let d: u64 = c as u64 - '0' as u64;
        proof {
            assert(s@.take(i + 1).drop_last() =~= s@.take(i as int));
            if all_digits(s@) {
                lemma_digits_value_monotone(s@, i + 1);
            }
            if digits_value(s@.take(i + 1)) > limit {
                lemma_no_stray(s@, limit as nat, i + 1);
            }
        }
        if value > limit / 10 {
            return Err(DigitsFault::Overflow);
        }
        let shifted: u64 = value * 10;
        if d > limit - shifted {
            return Err(DigitsFault::Overflow);
        }
        value = shifted + d;
        i += 1;
    }
    assert(s@.take(i as int) =~= s@);
    Ok(value)
}

/// Reads `s` as an `i64`: digits, with an optional plus or minus sign.
pub fn parse_i64(s: &[char]) -> (r: Result<i64, IntegerFault>)
    ensures
        match r {
            Ok(v) => i64_value(s@) == Some(v),
            Err(f) => i64_value(s@) is None && f == i64_fault(s@),
        },
{
    if s.len() == 0 {
        return Err(IntegerFault::Empty);
    }
    if s[0] == '-' {
        let digits = slice_subrange(s, 1, s.len());
        assert(digits@ =~= s@.skip(1));
        match parse_digits(digits, 0x8000_0000_0000_0000) {
            Ok(v) => Ok((-(v as i128)) as i64),
            Err(DigitsFault::Stray) => Err(IntegerFault::InvalidDigit),
            Err(DigitsFault::Overflow) => Err(IntegerFault::NegOverflow),
        }
    } else {
        match parse_digits(after_plus(s), 0x7fff_ffff_ffff_ffff) {
            Ok(v) => Ok(v as i64),
            Err(DigitsFault::Stray) => Err(IntegerFault::InvalidDigit),
            Err(DigitsFault::Overflow) => Err(IntegerFault::PosOverflow),
        }
    }
}

/// Reads `s` as a `u32`: digits, with an optional plus sign.
pub fn parse_u32(s: &[char]) -> (r: Result<u32, IntegerFault>)
    ensures
        match r {
            Ok(v) => u32_value(s@) == Some(v),
            Err(f) => u32_value(s@) is None && f == u32_fault(s@),
        },
{
    if s.len() == 0 {
        return Err(IntegerFault::Empty);
    }
    match parse_digits(after_plus(s), 0xffff_ffff) {
        Ok(v) => Ok(v as u32),
        Err(DigitsFault::Stray) => Err(IntegerFault::InvalidDigit),
        Err(DigitsFault::Overflow) => Err(IntegerFault::PosOverflow),
    }
}

fn after_plus(s: &[char]) -> (r: &[char])
    ensures
        r@ == without_plus(s@),
{
    if s.len() > 0 && s[0] == '+' {
        let rest = slice_subrange(s, 1, s.len());
        assert(rest@ =~= s@.skip(1));
        rest
    } else {
        s
    }
}

fn after_sign(s: &[char]) -> (r: &[char])
    ensures
        r@ == without_sign(s@),
{
    if s.len() > 0 && (s[0] == '+' || s[0] == '-') {
        let rest = slice_subrange(s, 1, s.len());
        assert(rest@ =~= s@.skip(1));
        rest
    } else {
        s
    }
}

fn after_digits(s: &[char]) -> (r: &[char])
    ensures
        leading_digits(s@) <= s@.len(),
        r@ == s@.skip(leading_digits(s@) as int),
{
    let mut i: usize = 0;
    assert(s@.skip(0) =~= s@);
    while i < s.len() && '0' <= s[i] && s[i] <= '9'
        invariant
            i <= s.len(),
            leading_digits(s@) == i + leading_digits(s@.skip(i as int)),
        decreases s.len() - i,
    {
        assert(s@.skip(i as int).skip(1) =~= s@.skip(i + 1));
        i += 1;
    }
    let rest = slice_subrange(s, i, s.len());
    assert(rest@ =~= s@.skip(i as int));
    rest
}

fn are_digits(s: &[char]) -> (r: bool)
    ensures
        r == all_digits(s@),
{
    let mut i: usize = 0;
    while i < s.len()
        invariant
            i <= s.len(),
            forall|j: int| 0 <= j < i ==> is_digit(#[trigger] s@[j]),
        decreases s.len() - i,
    {
        if !('0' <= s[i] && s[i] <= '9') {
            return false;
        }
        i += 1;
    }
    s.len() > 0
}

fn optional_exponent(s: &[char]) -> (r: bool)
    ensures
        r == is_optional_exponent(s@),
{
    if s.len() == 0 {
        true
    } else if s[0] == 'e' || s[0] == 'E' {
        let power = slice_subrange(s, 1, s.len());
        assert(power@ =~= s@.skip(1));
        are_digits(after_sign(power))
    } else {
        false
    }
}

fn plain_number(s: &[char]) -> (r: bool)
    ensures
        r == is_plain_number(s@),
{
    let rest = after_digits(s);
    let whole: bool = rest.len() < s.len();
    if rest.len() > 0 && rest[0] == '.' {
        let fraction = slice_subrange(rest, 1, rest.len());
        assert(fraction@ =~= rest@.skip(1));
        let tail = after_digits(fraction);
        (whole || tail.len() < fraction.len()) && optional_exponent(tail)
    } else {
        whole && optional_exponent(rest)
    }
}

fn word(s: &[char], w: &[char]) -> (r: bool)
    ensures
        r == reads_as(s@, w@),
{
    let ghost lowered = s@.map_values(|c: char| lower(c));
    if s.len() != w.len() {
        assert(lowered.len() != w@.len());
        return false;
    }
    let mut i: usize = 0;
    while i < s.len()
        invariant
            i <= s.len(),
            s.len() == w.len(),
            lowered == s@.map_values(|c: char| lower(c)),
            forall|j: int| 0 <= j < i ==> lowered[j] == w@[j],
        decreases s.len() - i,
    {
        let c = s[i];
        let l: char = if 'A' <= c && c <= 'Z' {
            ((c as u8) + 32) as char
        } else {
            c
        };
        assert(lowered[i as int] == l);
        if l != w[i] {
            return false;
        }
        i += 1;
    }
    assert(lowered =~= w@);
    true
}

/// Whether `s` is a floating-point literal.
pub fn is_float_literal(s: &[char]) -> (r: bool)
    ensures
        r == is_float(s@),
{
    let body = after_sign(s);
    let inf: [char; 3] = ['i', 'n', 'f'];
    let infinity: [char; 8] = ['i', 'n', 'f', 'i', 'n', 'i', 't', 'y'];
    let nan: [char; 3] = ['n', 'a', 'n'];
    assert(inf@ =~= seq!['i', 'n', 'f']);
    assert(infinity@ =~= seq!['i', 'n', 'f', 'i', 'n', 'i', 't', 'y']);
    assert(nan@ =~= seq!['n', 'a', 'n']);
    plain_number(body) || word(body, &inf) || word(body, &infinity) || word(body, &nan)
}

/// Checks that `s` is a floating-point literal.
pub fn check_float(s: &[char]) -> (r: Result<(), FloatFault>)
    ensures
        match r {
            Ok(()) => is_float(s@),
            Err(f) => !is_float(s@) && f == float_fault(s@),
        },
{
    if is_float_literal(s) {
        Ok(())
    } else if s.len() == 0 {
        Err(FloatFault::Empty)
    } else {
        Err(FloatFault::Invalid)
    }
}

/// Writes `n` in decimal digits.
pub fn decimal_string(n: u64) -> (r: String)
    ensures
        r@ == decimal(n as nat),
    decreases n,
{
    let last: char = ((n % 10) as u8 + '0' as u8) as char;
    let mut out = if n < 10 {
        String::new()
    } else {
        decimal_string(n / 10)
    };
    out.push(last);
    assert(n < 10 ==> out@ =~= seq![digit_of(n as int)]);
    out
}

/// The digits of a number write that number.
pub proof fn lemma_decimal(n: nat)
    ensures
        all_digits(decimal(n)),
        digits_value(decimal(n)) == n,
    decreases n,
{
    if n < 10 {
        let s = decimal(n);
        assert(s.drop_last() =~= Seq::empty());
        assert(digits_value(s.drop_last()) == 0);
    } else {
        lemma_decimal(n / 10);
        let s = decimal(n);
        assert(s.drop_last() =~= decimal(n / 10));
    }
}

/// Two numbers with the same digits are equal.
pub proof fn lemma_decimal_injective(m: nat, n: nat)
    requires
        decimal(m) == decimal(n),
    ensures
        m == n,
{
    lemma_decimal(m);
    lemma_decimal(n);
}

/// One more digit makes ten times the number, plus the digit; no digits make zero.
pub proof fn law_digits_are_positional(s: Seq<char>, c: char)
    requires
        '0' <= c && c <= '9',
    ensures
        digits_value(Seq::empty()) == 0,
        digits_value(s.push(c)) == 10 * digits_value(s) + (c as int - '0' as int),
{
    assert(s.push(c).drop_last() =~= s);
}

/// A number is written in digits that write it, without leading zeros.
pub proof fn law_decimal_writes_the_number(n: nat)
    ensures
        forall|i: int|
            0 <= i < decimal(n).len() ==> '0' <= #[trigger] decimal(n)[i] && decimal(n)[i] <= '9',
        digits_value(decimal(n)) == n,
        decimal(n).len() > 0,
        decimal(n)[0] == '0' ==> n == 0,
    decreases n,
{
    lemma_decimal(n);
    assert forall|i: int| 0 <= i < decimal(n).len() implies '0' <= #[trigger] decimal(n)[i]
        && decimal(n)[i] <= '9' by {
        assert(is_digit(decimal(n)[i]));
    }
    if n >= 10 {
        law_decimal_writes_the_number(n / 10);
    }
}

/// Digits, with a plus sign or without, read as the number that they write, and with a minus sign
/// as its negation, wherever it is in range; an unsigned number has no minus sign.
pub proof fn law_integers_read_by_their_digits(digits: Seq<char>)
    requires
        digits.len() > 0,
        forall|i: int| 0 <= i < digits.len() ==> '0' <= #[trigger] digits[i] && digits[i] <= '9',
    ensures
        ({
            let n = digits_value(digits);
            let (plus, minus) = (seq!['+'] + digits, seq!['-'] + digits);
            &&& i64_value(digits) is Some <==> n <= 9_223_372_036_854_775_807
            &&& i64_value(digits) matches Some(v) ==> v == n
            &&& i64_value(plus) == i64_value(digits)
            &&& i64_value(minus) is Some <==> n <= 9_223_372_036_854_775_808
            &&& i64_value(minus) matches Some(v) ==> v == -n
            &&& u32_value(digits) is Some <==> n <= 4_294_967_295
            &&& u32_value(digits) matches Some(v) ==> v == n
            &&& u32_value(plus) == u32_value(digits)
            &&& u32_value(minus) is None
        }),
{
    let (plus, minus) = (seq!['+'] + digits, seq!['-'] + digits);
    assert(is_digit(digits[0]));
    assert(plus.skip(1) =~= digits);
    assert(minus.skip(1) =~= digits);
    assert(minus[0] == '-' && plus[0] == '+');
    assert(!is_digit(minus[0]));
}

/// What reads as an integer is made of digits, but for a sign at the start, and has at least one.
pub proof fn law_integers_are_made_of_digits(s: Seq<char>, i: int)
    requires
        i64_value(s) is Some || u32_value(s) is Some,
    ensures
        s.len() > 0,
        '0' <= s.last() && s.last() <= '9',
        0 < i < s.len() ==> '0' <= s[i] && s[i] <= '9',
        s[0] == '+' || s[0] == '-' || ('0' <= s[0] && s[0] <= '9'),
{
    let signed = s.len() > 0 && (s[0] == '+' || s[0] == '-');
    let body = if signed {
        s.skip(1)
    } else {
        s
    };
    assert(all_digits(body)) by {
        if s.len() > 0 && s[0] == '-' && u32_value(s) is Some {
            assert(is_digit(s[0]));
        }
    }
    assert(is_digit(body[body.len() - 1]));
    assert(body[body.len() - 1] == s.last());
    if signed {
        if 0 < i < s.len() {
            assert(is_digit(body[i - 1]));
        }
    } else {
        assert(is_digit(body[0]));
        if 0 < i < s.len() {
            assert(is_digit(body[i]));
        }
    }
}

proof fn lemma_stray_at(digits: Seq<char>, c: char, tail: Seq<char>, limit: nat)
    requires
        forall|i: int| 0 <= i < digits.len() ==> is_digit(#[trigger] digits[i]),
        !is_digit(c),
        digits_value(digits) <= limit,
    ensures
        has_stray(digits + seq![c] + tail, limit),
{
    let s = digits + seq![c] + tail;
    assert(s.take(digits.len() as int) =~= digits);
    assert(s[digits.len() as int] == c);
    assert(strays_at(s, limit, digits.len() as int));
}

proof fn lemma_exceeds(digits: Seq<char>, tail: Seq<char>, limit: nat)
    requires
        all_digits(digits),
        digits_value(digits) > limit,
    ensures
        !has_stray(digits + tail, limit),
{
    let s = digits + tail;
    assert(s.take(digits.len() as int) =~= digits);
    assert forall|j: int| 0 <= j < digits.len() implies is_digit(#[trigger] s[j]) by {
        assert(s[j] == digits[j]);
    }
    lemma_no_stray(s, limit, digits.len() as int);
}

/// Why a text is no integer is decided by its first character that is no digit, or with which the
/// number is out of range, whatever follows; a text without digits is empty, or has an invalid
/// one.
pub proof fn law_first_fault_counts(digits: Seq<char>, c: char, tail: Seq<char>)
    requires
        forall|i: int| 0 <= i < digits.len() ==> '0' <= #[trigger] digits[i] && digits[i] <= '9',
        !('0' <= c && c <= '9'),
    ensures
        ({
            let n = digits_value(digits);
            let stray = digits + seq![c] + tail;
            let (plus, minus) = (seq!['+'], seq!['-']);
            &&& i64_fault(Seq::empty()) == IntegerFault::Empty
            &&& u32_fault(Seq::empty()) == IntegerFault::Empty
            &&& i64_fault(plus) == IntegerFault::InvalidDigit
            &&& i64_fault(minus) == IntegerFault::InvalidDigit
            &&& u32_fault(plus) == IntegerFault::InvalidDigit
            &&& n <= 9_223_372_036_854_775_807 ==> i64_fault(plus + stray)
                == IntegerFault::InvalidDigit
            &&& n <= 9_223_372_036_854_775_808 ==> i64_fault(minus + stray)
                == IntegerFault::InvalidDigit
            &&& n <= 4_294_967_295 ==> u32_fault(plus + stray) == IntegerFault::InvalidDigit
            &&& digits.len() > 0 && n <= 9_223_372_036_854_775_807 ==> i64_fault(stray)
                == IntegerFault::InvalidDigit
            &&& digits.len() > 0 && n <= 4_294_967_295 ==> u32_fault(stray)
                == IntegerFault::InvalidDigit
            &&& n > 9_223_372_036_854_775_807 ==> i64_fault(digits + tail)
                == IntegerFault::PosOverflow && i64_fault(plus + (digits + tail))
                == IntegerFault::PosOverflow
            &&& n > 9_223_372_036_854_775_808 ==> i64_fault(minus + (digits + tail))
                == IntegerFault::NegOverflow
            &&& n > 4_294_967_295 ==> u32_fault(digits + tail) == IntegerFault::PosOverflow
                && u32_fault(plus + (digits + tail)) == IntegerFault::PosOverflow
        }),
{
    let n = digits_value(digits);
    let stray = digits + seq![c] + tail;
    let over = digits + tail;
    let (plus, minus) = (seq!['+'], seq!['-']);
    assert forall|i: int| 0 <= i < digits.len() implies is_digit(#[trigger] digits[i]) by {}
    assert(plus.skip(1) =~= Seq::empty());
    assert(minus.skip(1) =~= Seq::empty());
    assert((plus + stray).skip(1) =~= stray);
    assert((minus + stray).skip(1) =~= stray);
    assert((plus + over).skip(1) =~= over);
    assert((minus + over).skip(1) =~= over);
    assert((plus + stray)[0] == '+' && (minus + stray)[0] == '-');
    assert((plus + over)[0] == '+' && (minus + over)[0] == '-');
    if digits.len() > 0 {
        assert(stray[0] == digits[0] && over[0] == digits[0]);
        assert(is_digit(digits[0]));
    } else {
        assert(n == 0);
    }
    if n <= 0x7fff_ffff_ffff_ffff {
        lemma_stray_at(digits, c, tail, 0x7fff_ffff_ffff_ffff);
    } else {
        lemma_exceeds(digits, tail, 0x7fff_ffff_ffff_ffff);
    }
    if n <= 0x8000_0000_0000_0000 {
        lemma_stray_at(digits, c, tail, 0x8000_0000_0000_0000);
    } else {
        lemma_exceeds(digits, tail, 0x8000_0000_0000_0000);
    }
    if n <= 0xffff_ffff {
        lemma_stray_at(digits, c, tail, 0xffff_ffff);
    } else {
        lemma_exceeds(digits, tail, 0xffff_ffff);
    }
}

proof fn lemma_leading_digits_of(digits: Seq<char>, tail: Seq<char>)
    requires
        forall|i: int| 0 <= i < digits.len() ==> is_digit(#[trigger] digits[i]),
        tail.len() == 0 || !is_digit(tail[0]),
    ensures
        leading_digits(digits + tail) == digits.len(),
        (digits + tail).skip(digits.len() as int) == tail,
    decreases digits.len(),
{
    let s = digits + tail;
    assert(s.skip(digits.len() as int) =~= tail);
    if digits.len() > 0 {
        assert(is_digit(s[0])) by {
            assert(s[0] == digits[0]);
        }
        assert(s.skip(1) =~= digits.skip(1) + tail);
        lemma_leading_digits_of(digits.skip(1), tail);
    }
}

/// A number with a fraction, an exponent, both or neither, and with a sign or without, is a
/// floating-point literal.
pub proof fn law_numbers_are_float_literals(
    sign: Seq<char>,
    whole: Seq<char>,
    fraction: Seq<char>,
    mark: char,
    power_sign: Seq<char>,
    power: Seq<char>,
)
    requires
        sign == Seq::<char>::empty() || sign == seq!['+'] || sign == seq!['-'],
        power_sign == Seq::<char>::empty() || power_sign == seq!['+'] || power_sign == seq!['-'],
        mark == 'e' || mark == 'E',
        whole.len() + fraction.len() > 0,
        forall|i: int| 0 <= i < whole.len() ==> is_digit(#[trigger] whole[i]),
        forall|i: int| 0 <= i < fraction.len() ==> is_digit(#[trigger] fraction[i]),
        all_digits(power),
    ensures
        ({
            let exponent = seq![mark] + power_sign + power;
            &&& whole.len() > 0 ==> is_float(sign + whole)
            &&& whole.len() > 0 ==> is_float(sign + (whole + exponent))
            &&& is_float(sign + (whole + (seq!['.'] + fraction)))
            &&& is_float(sign + (whole + (seq!['.'] + (fraction + exponent))))
        }),
{
    let exponent = seq![mark] + power_sign + power;
    let none = Seq::<char>::empty();
    let (point, long) = (seq!['.'] + fraction, seq!['.'] + (fraction + exponent));
    assert(is_digit(power[0]));
    assert(exponent.skip(1) =~= power_sign + power);
    assert(without_sign(power_sign + power) =~= power) by {
        if power_sign.len() > 0 {
            assert((power_sign + power).skip(1) =~= power);
        } else {
            assert(power_sign + power =~= power);
        }
    }
    assert(is_optional_exponent(exponent));
    assert(!is_digit(exponent[0]));
    lemma_leading_digits_of(whole, none);
    assert(whole + none =~= whole);
    lemma_leading_digits_of(whole, exponent);
    lemma_leading_digits_of(whole, point);
    lemma_leading_digits_of(whole, long);
    lemma_leading_digits_of(fraction, none);
    assert(fraction + none =~= fraction);
    lemma_leading_digits_of(fraction, exponent);
    assert(point.skip(1) =~= fraction);
    assert(long.skip(1) =~= fraction + exponent);
    lemma_signed_number(sign, whole + point);
    lemma_signed_number(sign, whole + long);
    if whole.len() > 0 {
        assert(whole.skip(whole.len() as int) =~= none);
        lemma_signed_number(sign, whole);
        lemma_signed_number(sign, whole + exponent);
    }
}

proof fn lemma_signed_number(sign: Seq<char>, s: Seq<char>)
    requires
        sign == Seq::<char>::empty() || sign == seq!['+'] || sign == seq!['-'],
        is_plain_number(s),
    ensures
        is_float(sign + s),
{
    assert(s.len() > 0 && s[0] != '+' && s[0] != '-') by {
        if s.len() == 0 || s[0] == '+' || s[0] == '-' {
            assert(leading_digits(s) == 0);
            assert(s.skip(0) =~= s);
        }
    }
    if sign.len() > 0 {
        assert((sign + s).skip(1) =~= s);
    } else {
        assert(sign + s =~= s);
    }
}

/// A floating-point literal is neither empty nor a sign alone, and the names of infinity and of
/// not-a-number are literals in either case of letters.
pub proof fn law_float_literals_without_digits(s: Seq<char>)
    ensures
        is_float(s) ==> s.len() > 0 && s != seq!['+'] && s != seq!['-'],
        s.map_values(|c: char| lower(c)) == seq!['i', 'n', 'f'] ==> is_float(s),
        s.map_values(|c: char| lower(c)) == seq!['n', 'a', 'n'] ==> is_float(s),
        s.map_values(|c: char| lower(c)) == seq!['i', 'n', 'f', 'i', 'n', 'i', 't', 'y']
            ==> is_float(s),
        float_fault(s) is Empty <==> s.len() == 0,
{
    let body = without_sign(s);
    let lowered = s.map_values(|c: char| lower(c));
    if body.len() == 0 {
        assert(!is_plain_number(body)) by {
            assert(leading_digits(body) == 0);
        }
        assert(body.map_values(|c: char| lower(c)).len() == 0);
    }
    if s == seq!['+'] || s == seq!['-'] {
        assert(body =~= Seq::empty());
    }
    if s.len() > 0 {
        assert(lowered[0] == lower(s[0]));
    }
}

/// `s` is made of digits up to `n`, of a point and digits from there up to `k` where it goes on, and
/// of an exponent after `k` where it goes on; there is a digit before the exponent.
pub open spec fn has_number_shape(s: Seq<char>, n: int, k: int) -> bool {
    &&& 0 <= n <= k <= s.len()
    &&& forall|i: int| 0 <= i < n ==> '0' <= #[trigger] s[i] && s[i] <= '9'
    &&& n < k ==> s[n] == '.'
    &&& forall|i: int| n < i < k ==> '0' <= #[trigger] s[i] && s[i] <= '9'
    &&& n > 0 || k > n + 1
    &&& k < s.len() ==> {
        let first = if k + 1 < s.len() && (s[k + 1] == '+' || s[k + 1] == '-') {
            k + 2
        } else {
            k + 1
        };
        &&& s[k] == 'e' || s[k] == 'E'
        &&& first < s.len()
        &&& forall|i: int| first <= i < s.len() ==> '0' <= #[trigger] s[i] && s[i] <= '9'
    }
}

/// The digits that a text starts with are digits, and within it.
pub proof fn lemma_leading_digits(s: Seq<char>)
    ensures
        leading_digits(s) <= s.len(),
        forall|i: int| 0 <= i < leading_digits(s) ==> is_digit(#[trigger] s[i]),
    decreases s.len(),
{
    if s.len() > 0 && is_digit(s[0]) {
        let t = s.skip(1);
        lemma_leading_digits(t);
        assert forall|i: int| 0 <= i < leading_digits(s) implies is_digit(#[trigger] s[i]) by {
            if i > 0 {
                assert(t[i - 1] == s[i]);
            }
        }
    }
}

proof fn lemma_exponent_shape(s: Seq<char>, k: int)
    requires
        0 <= k < s.len(),
        is_optional_exponent(s.skip(k)),
    ensures
        ({
            let first = if k + 1 < s.len() && (s[k + 1] == '+' || s[k + 1] == '-') {
                k + 2
            } else {
                k + 1
            };
            &&& s[k] == 'e' || s[k] == 'E'
            &&& first < s.len()
            &&& forall|i: int| first <= i < s.len() ==> '0' <= #[trigger] s[i] && s[i] <= '9'
        }),
{
    let tail = s.skip(k);
    let power = tail.skip(1);
    let digits = without_sign(power);
    let first = if k + 1 < s.len() && (s[k + 1] == '+' || s[k + 1] == '-') {
        k + 2
    } else {
        k + 1
    };
    assert(tail[0] == s[k]);
    assert(power.len() > 0 ==> power[0] == s[k + 1]);
    assert(digits =~= s.skip(first));
    assert forall|i: int| first <= i < s.len() implies '0' <= #[trigger] s[i] && s[i] <= '9' by {
        assert(digits[i - first] == s[i]);
        assert(is_digit(digits[i - first]));
    }
}

proof fn lemma_digits_at(s: Seq<char>, from: int)
    requires
        0 <= from <= s.len(),
    ensures
        from + leading_digits(s.skip(from)) <= s.len(),
        forall|i: int|
            from <= i < from + leading_digits(s.skip(from)) ==> '0' <= #[trigger] s[i] && s[i]
                <= '9',
{
    let tail = s.skip(from);
    lemma_leading_digits(tail);
    assert forall|i: int| from <= i < from + leading_digits(tail) implies '0' <= #[trigger] s[i]
        && s[i] <= '9' by {
        assert(tail[i - from] == s[i]);
        assert(is_digit(tail[i - from]));
    }
}

proof fn lemma_number_shape(s: Seq<char>) -> (r: (int, int))
    requires
        is_plain_number(s),
    ensures
        has_number_shape(s, r.0, r.1),
{
    assert(s.skip(0) =~= s);
    lemma_digits_at(s, 0);
    let n = leading_digits(s) as int;
    let rest = s.skip(n);
    if rest.len() > 0 && rest[0] == '.' {
        let after = rest.skip(1);
        assert(after =~= s.skip(n + 1));
        assert(s[n] == rest[0]);
        lemma_digits_at(s, n + 1);
        let f = leading_digits(after) as int;
        let k = n + 1 + f;
        assert(after.skip(f) =~= s.skip(k));
        if k < s.len() {
            lemma_exponent_shape(s, k);
        }
        (n, k)
    } else {
        if n < s.len() {
            lemma_exponent_shape(s, n);
        }
        (n, n)
    }
}

/// A floating-point literal is, behind a sign or without one, a number with a point and an
/// exponent or without them, or one of the names of infinity and of not-a-number.
pub proof fn law_float_literals_have_a_shape(sign: Seq<char>, body: Seq<char>)
    requires
        sign == Seq::<char>::empty() || sign == seq!['+'] || sign == seq!['-'],
        sign.len() == 0 && body.len() > 0 ==> body[0] != '+' && body[0] != '-',
        is_float(sign + body),
    ensures
        ({
            let name = body.map_values(|c: char| lower(c));
            ||| exists|n: int, k: int| has_number_shape(body, n, k)
            ||| name == seq!['i', 'n', 'f']
            ||| name == seq!['n', 'a', 'n']
            ||| name == seq!['i', 'n', 'f', 'i', 'n', 'i', 't', 'y']
        }),
{
    assert(without_sign(sign + body) =~= body) by {
        if sign.len() > 0 {
            assert((sign + body).skip(1) =~= body);
        } else {
            assert(sign + body =~= body);
        }
    }
    if is_plain_number(body) {
        let (n, k) = lemma_number_shape(body);
        assert(has_number_shape(body, n, k));
    }
}

} // verus!

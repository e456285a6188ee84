//! Character-level helpers: string equality, decimal rendering and parsing.
//!
//! Every string is reasoned about through its view, the sequence of its
//! Unicode scalar values.

use vstd::prelude::*;
use vstd::string::*;

verus! {

/// Appends one character to a string (std's `String::push`).
#[verifier::external_body]
pub(crate) fn push_char(s: &mut String, c: char)
    ensures
        final(s)@ == old(s)@.push(c),
{
    s.push(c);
}

/// The characters of `s`, in order.
pub fn chars_of(s: &str) -> (r: Vec<char>)
    ensures
        r@ == s@,
{
    let n = s.unicode_len();
    let mut v: Vec<char> = Vec::new();
    let mut i: usize = 0;
    while i < n
        invariant
            n == s@.len(),
            i <= n,
            v@ == s@.take(i as int),
        decreases n - i,
    {
        v.push(s.get_char(i));
        i = i + 1;
        assert(v@ =~= s@.take(i as int));
    }
    assert(s@.take(n as int) =~= s@);
    v
}

/// Appends every character of `cs` to `s`.
pub fn push_chars(s: &mut String, cs: &Vec<char>)
    ensures
        final(s)@ == old(s)@ + cs@,
{
    let mut i: usize = 0;
    while i < cs.len()
        invariant
            i <= cs@.len(),
            s@ == old(s)@ + cs@.take(i as int),
        decreases cs@.len() - i,
    {
        push_char(s, cs[i]);
        i = i + 1;
        assert(s@ =~= old(s)@ + cs@.take(i as int));
    }
    assert(cs@.take(cs@.len() as int) =~= cs@);
}

/// A string whose characters are `cs`.
pub fn string_of(cs: &Vec<char>) -> (r: String)
    ensures
        r@ == cs@,
{
    let mut s = String::new();
    push_chars(&mut s, cs);
    assert(s@ =~= cs@);
    s
}

/// Equality of two strings, character by character.
pub fn str_eq(a: &str, b: &str) -> (r: bool)
    ensures
        r == (a@ == b@),
{
    let n = a.unicode_len();
    let m = b.unicode_len();
    if n != m {
        return false;
    }
    let mut i: usize = 0;
    while i < n
        invariant
            n == a@.len(),
            m == b@.len(),
            n == m,
            i <= n,
            forall|j: int| 0 <= j < i ==> a@[j] == b@[j],
        decreases n - i,
    {
        if a.get_char(i) != b.get_char(i) {
            return false;
        }
        i = i + 1;
    }
    assert(a@ =~= b@);
    true
}

/// Equality of two character vectors.
pub fn chars_eq(a: &Vec<char>, b: &Vec<char>) -> (r: bool)
    ensures
        r == (a@ == b@),
{
    if a.len() != b.len() {
        return false;
    }
    let mut i: usize = 0;
    while i < a.len()
        invariant
            a@.len() == b@.len(),
            i <= a@.len(),
            forall|j: int| 0 <= j < i ==> a@[j] == b@[j],
        decreases a@.len() - i,
    {
        if a[i] != b[i] {
            return false;
        }
        i = i + 1;
    }
    assert(a@ =~= b@);
    true
}

/// The character of decimal digit `d`.
pub open spec fn digit_char(d: int) -> char {
    if d == 0 { '0' }
    else if d == 1 { '1' }
    else if d == 2 { '2' }
    else if d == 3 { '3' }
    else if d == 4 { '4' }
    else if d == 5 { '5' }
    else if d == 6 { '6' }
    else if d == 7 { '7' }
    else if d == 8 { '8' }
    else { '9' }
}

pub open spec fn is_digit(c: char) -> bool {
    '0' <= c && c <= '9'
}

/// The value of a decimal digit character.
pub open spec fn digit_value(c: char) -> int {
    c as int - '0' as int
}

/// Decimal digits of `n`, most significant first, with no leading zeros
/// (`"0"` for zero).
pub open spec fn decimal(n: nat) -> Seq<char>
    decreases n,
{
    if n < 10 {
        seq![digit_char(n as int)]
    } else {
        decimal(n / 10).push(digit_char((n % 10) as int))
    }
}

/// Decimal rendering of a signed integer, with a leading `-` when negative.
pub open spec fn signed_decimal(n: int) -> Seq<char> {
    if n < 0 {
        seq!['-'] + decimal((-n) as nat)
    } else {
        decimal(n as nat)
    }
}

/// `k` copies of `'0'`.
pub open spec fn zeros(k: nat) -> Seq<char> {
    Seq::new(k, |i: int| '0')
}

/// Decimal rendering of `n` padded with zeros to at least `width` characters,
/// the sign (if any) coming before the padding.
pub open spec fn zero_padded(n: int, width: nat) -> Seq<char> {
    if n < 0 {
        let d = decimal((-n) as nat);
        let pad = if d.len() + 1 < width { (width - d.len() - 1) as nat } else { 0 };
        seq!['-'] + zeros(pad) + d
    } else {
        let d = decimal(n as nat);
        let pad = if d.len() < width { (width - d.len()) as nat } else { 0 };
        zeros(pad) + d
    }
}

fn digit_to_char(d: u64) -> (c: char)
    requires
        d < 10,
    ensures
        c == digit_char(d as int),
{
    if d == 0 { '0' }
    else if d == 1 { '1' }
    else if d == 2 { '2' }
    else if d == 3 { '3' }
    else if d == 4 { '4' }
    else if d == 5 { '5' }
    else if d == 6 { '6' }
    else if d == 7 { '7' }
    else if d == 8 { '8' }
    else { '9' }
}

/// Appends the decimal digits of `n`.
pub fn push_decimal(s: &mut String, n: u64)
    ensures
        final(s)@ == old(s)@ + decimal(n as nat),
    decreases n,
{
    if n >= 10 {
        push_decimal(s, n / 10);
    }
    push_char(s, digit_to_char(n % 10));
    assert(s@ =~= old(s)@ + decimal(n as nat));
}

pub proof fn lemma_decimal_len_pos(n: nat)
    ensures
        decimal(n).len() >= 1,
    decreases n,
{
    if n >= 10 {
        lemma_decimal_len_pos(n / 10);
    }
}

/// Decimal rendering of an unsigned integer.
pub fn u64_to_decimal(n: u64) -> (r: String)
    ensures
        r@ == decimal(n as nat),
{
    let mut s = String::new();
    push_decimal(&mut s, n);
    assert(s@ =~= decimal(n as nat));
    s
}

/// Decimal rendering of a signed integer.
pub fn i64_to_decimal(n: i64) -> (r: String)
    ensures
        r@ == signed_decimal(n as int),
{
    let mut s = String::new();
    if n < 0 {
        push_char(&mut s, '-');
        let m: u64 = (0i128 - n as i128) as u64;
        push_decimal(&mut s, m);
    } else {
        push_decimal(&mut s, n as u64);
    }
    assert(s@ =~= signed_decimal(n as int));
    s
}

fn push_zeros(s: &mut String, k: u64)
    ensures
        final(s)@ == old(s)@ + zeros(k as nat),
{
    let mut i: u64 = 0;
    while i < k
        invariant
            i <= k,
            s@ == old(s)@ + zeros(i as nat),
        decreases k - i,
    {
        push_char(s, '0');
        i = i + 1;
        assert(s@ =~= old(s)@ + zeros(i as nat));
    }
}

proof fn lemma_decimal_len_bound(n: nat)
    ensures
        decimal(n).len() <= n + 1,
    decreases n,
{
    if n >= 10 {
        lemma_decimal_len_bound(n / 10);
    }
}

/// Zero-padded decimal rendering, as `format!("{:0width$}", n)` does.
pub fn push_zero_padded(s: &mut String, n: i64, width: u64)
    ensures
        final(s)@ == old(s)@ + zero_padded(n as int, width as nat),
{
    let mut digits = String::new();
    let neg = n < 0;
    let m: u64 = if neg { (0i128 - n as i128) as u64 } else { n as u64 };
    push_decimal(&mut digits, m);
    let dc = chars_of(digits.as_str());
    let dlen = dc.len() as u64;
    proof {
        lemma_decimal_len_bound(m as nat);
    }
    if neg {
        push_char(s, '-');
        let pad: u64 = if dlen + 1 < width { width - dlen - 1 } else { 0 };
        push_zeros(s, pad);
    } else {
        let pad: u64 = if dlen < width { width - dlen } else { 0 };
        push_zeros(s, pad);
    }
    push_chars(s, &dc);
    assert(s@ =~= old(s)@ + zero_padded(n as int, width as nat));
}


proof fn lemma_digit_char_value(d: int)
    requires
        0 <= d < 10,
    ensures
        is_digit(digit_char(d)),
        digit_value(digit_char(d)) == d,
{
}

/// The digits of a rendering are all decimal digits.
pub proof fn lemma_decimal_all_digits(n: nat)
    ensures
        forall|j: int| 0 <= j < decimal(n).len() ==> is_digit(#[trigger] decimal(n)[j]),
    decreases n,
{
    let d = decimal(n);
    if n >= 10 {
        lemma_decimal_all_digits(n / 10);
        lemma_digit_char_value((n % 10) as int);
        let p = decimal(n / 10);
        assert forall|j: int| 0 <= j < d.len() implies is_digit(#[trigger] d[j]) by {
            if j < p.len() {
                assert(d[j] == p[j]);
            }
        }
    } else {
        lemma_digit_char_value(n as int);
        assert forall|j: int| 0 <= j < d.len() implies is_digit(#[trigger] d[j]) by {
            assert(d[j] == digit_char(n as int));
        }
    }
}

/// Reading a rendering back gives the number.
pub proof fn lemma_dec_value_decimal(n: nat)
    ensures
        dec_value(decimal(n)) == n,
    decreases n,
{
    if n >= 10 {
        lemma_dec_value_decimal(n / 10);
        lemma_digit_char_value((n % 10) as int);
        let d = decimal(n);
        assert(d.drop_last() =~= decimal(n / 10));
        assert(d.last() == digit_char((n % 10) as int));
        assert(dec_value(d) == dec_value(d.drop_last()) * 10 + digit_value(d.last()));
        assert(n == (n / 10) * 10 + n % 10);
    } else {
        lemma_digit_char_value(n as int);
        let d = decimal(n);
        assert(d.drop_last() =~= Seq::<char>::empty());
        assert(d.last() == digit_char(n as int));
        assert(dec_value(d) == dec_value(d.drop_last()) * 10 + digit_value(d.last()));
    }
}

/// Leading zeros do not change the value read.
pub proof fn lemma_dec_value_zeros_prefix(k: nat, t: Seq<char>)
    ensures
        dec_value(zeros(k) + t) == dec_value(t),
    decreases t.len(), k,
{
    if t.len() == 0 {
        assert(zeros(k) + t =~= zeros(k));
        if k > 0 {
            assert(zeros(k).drop_last() =~= zeros((k - 1) as nat));
            lemma_dec_value_zeros_prefix((k - 1) as nat, t);
            assert(zeros((k - 1) as nat) + t =~= zeros((k - 1) as nat));
        }
    } else {
        assert((zeros(k) + t).drop_last() =~= zeros(k) + t.drop_last());
        lemma_dec_value_zeros_prefix(k, t.drop_last());
    }
}

/// A string made only of digits is read whole.
pub proof fn lemma_digit_run_all(s: Seq<char>)
    requires
        forall|j: int| 0 <= j < s.len() ==> is_digit(#[trigger] s[j]),
    ensures
        digit_run(s) == s.len(),
{
    lemma_digit_run_exact(s, s.len() as int);
}

/// A zero-padded rendering of a non-negative number is all digits, and
/// reads back as the number.
pub proof fn lemma_zero_padded_digits(n: nat, width: nat)
    ensures
        zero_padded(n as int, width).len() >= 1,
        forall|j: int| 0 <= j < zero_padded(n as int, width).len() ==> is_digit(#[trigger] zero_padded(n as int, width)[j]),
        dec_value(zero_padded(n as int, width)) == n,
{
    let d = decimal(n);
    lemma_decimal_len_pos(n);
    lemma_decimal_all_digits(n);
    lemma_dec_value_decimal(n);
    let pad: nat = if d.len() < width { (width - d.len()) as nat } else { 0 };
    let s = zeros(pad) + d;
    assert(zero_padded(n as int, width) == s);
    assert forall|j: int| 0 <= j < s.len() implies is_digit(#[trigger] s[j]) by {
        if j >= pad {
            assert(s[j] == d[j - pad]);
        }
    }
    lemma_dec_value_zeros_prefix(pad, d);
}

/// `str::parse` reads a zero-padded rendering of `n` back as `n`.
pub proof fn lemma_parse_zero_padded(n: nat, width: nat, signed: bool, max_pos: int, max_neg: int)
    requires
        n <= max_pos,
    ensures
        parse_int_spec(zero_padded(n as int, width), signed, max_pos, max_neg) == Ok::<int, IntErrorKind>(n as int),
{
    let s = zero_padded(n as int, width);
    lemma_zero_padded_digits(n, width);
    lemma_digit_run_all(s);
    assert(is_digit(s[0]));
    assert(s.take(s.len() as int) =~= s);
}

/// Why an integer failed to parse (as std's `IntErrorKind`).
#[derive(Debug, Clone, Copy, PartialEq, Eq, Structural)]
pub enum IntErrorKind {
    Empty,
    InvalidDigit,
    PosOverflow,
    NegOverflow,
}

impl IntErrorKind {
    /// The message std's `ParseIntError` displays for this kind.
    pub fn message(self) -> (r: &'static str)
        ensures
            r@ == self.spec_message(),
    {
        match self {
            IntErrorKind::Empty => "cannot parse integer from empty string",
            IntErrorKind::InvalidDigit => "invalid digit found in string",
            IntErrorKind::PosOverflow => "number too large to fit in target type",
            IntErrorKind::NegOverflow => "number too small to fit in target type",
        }
    }

    pub open spec fn spec_message(self) -> Seq<char> {
        match self {
            IntErrorKind::Empty => "cannot parse integer from empty string"@,
            IntErrorKind::InvalidDigit => "invalid digit found in string"@,
            IntErrorKind::PosOverflow => "number too large to fit in target type"@,
            IntErrorKind::NegOverflow => "number too small to fit in target type"@,
        }
    }
}

/// Value of a sequence of decimal digits.
pub open spec fn dec_value(s: Seq<char>) -> int
    decreases s.len(),
{
    if s.len() == 0 {
        0
    } else {
        dec_value(s.drop_last()) * 10 + digit_value(s.last())
    }
}

/// Length of the longest prefix of `s` made of decimal digits.
pub open spec fn digit_run(s: Seq<char>) -> nat
    decreases s.len(),
{
    if s.len() == 0 {
        0
    } else if is_digit(s[0]) {
        1 + digit_run(s.drop_first())
    } else {
        0
    }
}

/// What std's `str::parse` gives for an integer type whose positive values
/// go up to `max_pos` and, when `signed`, whose negative values go down to
/// `-max_neg`: an optional sign, then decimal digits; digits are read left to
/// right and the first overflow or non-digit decides the error.
pub open spec fn parse_int_spec(s: Seq<char>, signed: bool, max_pos: int, max_neg: int) -> Result<int, IntErrorKind> {
    if s.len() == 0 {
        Err(IntErrorKind::Empty)
    } else if s.len() == 1 && (s[0] == '+' || s[0] == '-') {
        Err(IntErrorKind::InvalidDigit)
    } else {
        let neg = signed && s[0] == '-';
        let body = if s[0] == '+' || neg { s.drop_first() } else { s };
        let limit = if neg { max_neg } else { max_pos };
        let p = digit_run(body);
        if dec_value(body.take(p as int)) > limit {
            if neg { Err(IntErrorKind::NegOverflow) } else { Err(IntErrorKind::PosOverflow) }
        } else if p < body.len() {
            Err(IntErrorKind::InvalidDigit)
        } else if neg {
            Ok(-dec_value(body))
        } else {
            Ok(dec_value(body))
        }
    }
}

proof fn lemma_digit_run_facts(s: Seq<char>)
    ensures
        digit_run(s) <= s.len(),
        forall|j: int| 0 <= j < digit_run(s) ==> is_digit(#[trigger] s[j]),
        digit_run(s) < s.len() ==> !is_digit(s[digit_run(s) as int]),
    decreases s.len(),
{
    if s.len() > 0 && is_digit(s[0]) {
        lemma_digit_run_facts(s.drop_first());
        assert forall|j: int| 0 <= j < digit_run(s) implies is_digit(#[trigger] s[j]) by {
            if j > 0 {
                assert(s[j] == s.drop_first()[j - 1]);
            }
        }
    }
}

proof fn lemma_digit_run_exact(s: Seq<char>, p: int)
    requires
        0 <= p <= s.len(),
        forall|j: int| 0 <= j < p ==> is_digit(#[trigger] s[j]),
        p < s.len() ==> !is_digit(s[p]),
    ensures
        digit_run(s) == p,
    decreases s.len(),
{
    if s.len() > 0 && p > 0 {
        assert(is_digit(s[0]));
        assert forall|j: int| 0 <= j < p - 1 implies is_digit(#[trigger] s.drop_first()[j]) by {
            assert(s.drop_first()[j] == s[j + 1]);
        }
        if p < s.len() {
            assert(s.drop_first()[p - 1] == s[p]);
        }
        lemma_digit_run_exact(s.drop_first(), p - 1);
    } else if s.len() > 0 {
        assert(!is_digit(s[0]));
    }
}

proof fn lemma_dec_value_mono(s: Seq<char>, i: int, j: int)
    requires
        0 <= i <= j <= s.len(),
        forall|k: int| 0 <= k < j ==> is_digit(#[trigger] s[k]),
    ensures
        0 <= dec_value(s.take(i)) <= dec_value(s.take(j)),
    decreases j - i,
{
    if i < j {
        lemma_dec_value_mono(s, i, j - 1);
        assert(s.take(j).drop_last() =~= s.take(j - 1));
        assert(s.take(j).last() == s[j - 1]);
        assert(is_digit(s[j - 1]));
    } else {
        lemma_dec_value_nonneg(s.take(i));
    }
}

proof fn lemma_dec_value_nonneg(s: Seq<char>)
    requires
        forall|k: int| 0 <= k < s.len() ==> is_digit(#[trigger] s[k]),
    ensures
        dec_value(s) >= 0,
    decreases s.len(),
{
    if s.len() > 0 {
        assert forall|k: int| 0 <= k < s.drop_last().len() implies is_digit(#[trigger] s.drop_last()[k]) by {
            assert(s.drop_last()[k] == s[k]);
        }
        lemma_dec_value_nonneg(s.drop_last());
        assert(is_digit(s[s.len() - 1]));
    }
}

fn char_digit(c: char) -> (r: Option<u64>)
    ensures
        r matches Some(d) ==> is_digit(c) && d as int == digit_value(c),
        r is None ==> !is_digit(c),
{
    if '0' <= c && c <= '9' {
        Some((c as u32 - '0' as u32) as u64)
    } else {
        None
    }
}

/// Parses the magnitude in `cs[start..]` as `str::parse` does, against the
/// bound `limit`; `neg` only selects which overflow is reported.
fn parse_magnitude(cs: &Vec<char>, start: usize, limit: u64, neg: bool) -> (r: Result<u64, IntErrorKind>)
    requires
        start <= cs@.len(),
    ensures
        ({
            let body = cs@.skip(start as int);
            let p = digit_run(body);
            match r {
                Ok(v) => p == body.len() && dec_value(body) <= limit && v as int == dec_value(body),
                Err(e) => {
                    if dec_value(body.take(p as int)) > limit {
                        e == (if neg { IntErrorKind::NegOverflow } else { IntErrorKind::PosOverflow })
                    } else {
                        p < body.len() && e == IntErrorKind::InvalidDigit
                    }
                },
            }
        }),
{
    let ghost body = cs@.skip(start as int);
    let mut i: usize = start;
    let mut acc: u64 = 0;
    while i < cs.len()
        invariant
            start <= i <= cs@.len(),
            body == cs@.skip(start as int),
            forall|k: int| 0 <= k < i - start ==> is_digit(#[trigger] body[k]),
            acc as int == dec_value(body.take(i - start)),
            acc <= limit,
        decreases cs@.len() - i,
    {
        let c = cs[i];
        assert(body[i - start] == c);
        match char_digit(c) {
            None => {
                proof {
                    lemma_digit_run_exact(body, i - start);
                }
                return Err(IntErrorKind::InvalidDigit);
            },
            Some(d) => {
                assert(body.take(i - start + 1).drop_last() =~= body.take(i - start));
                assert(body.take(i - start + 1).last() == c);
                let next: u128 = acc as u128 * 10 + d as u128;
                if next > limit as u128 {
                    proof {
                        lemma_digit_run_facts(body);
                        let p = digit_run(body);
                        if (p as int) < i - start + 1 {
                            assert(!is_digit(body[p as int]));
                        }
                        assert(p as int >= i - start + 1);
                        lemma_dec_value_mono(body, i - start + 1, p as int);
                    }
                    return Err(if neg { IntErrorKind::NegOverflow } else { IntErrorKind::PosOverflow });
                }
                acc = next as u64;
            },
        }
        i = i + 1;
    }
    proof {
        assert(body.take(body.len() as int) =~= body);
        lemma_digit_run_exact(body, body.len() as int);
    }
    Ok(acc)
}

/// `str::parse::<u64>`.
pub fn parse_u64(s: &str) -> (r: Result<u64, IntErrorKind>)
    ensures
        r == (match parse_int_spec(s@, false, u64::MAX as int, 0) {
            Ok(v) => Ok(v as u64),
            Err(e) => Err(e),
        }),
        parse_int_spec(s@, false, u64::MAX as int, 0) matches Ok(v) ==> 0 <= v <= u64::MAX,
{
    let cs = chars_of(s);
    if cs.len() == 0 {
        return Err(IntErrorKind::Empty);
    }
    if cs.len() == 1 && (cs[0] == '+' || cs[0] == '-') {
        return Err(IntErrorKind::InvalidDigit);
    }
    let start: usize = if cs[0] == '+' { 1 } else { 0 };
    proof {
        if start == 1 {
            assert(cs@.skip(1) =~= s@.drop_first());
        } else {
            assert(cs@.skip(0) =~= s@);
        }
    }
    let r = parse_magnitude(&cs, start, u64::MAX, false);
    proof {
        let body = cs@.skip(start as int);
        assert(body.take(body.len() as int) =~= body);
    }
    r
}

/// `str::parse::<u32>`.
pub fn parse_u32(s: &str) -> (r: Result<u32, IntErrorKind>)
    ensures
        r == (match parse_int_spec(s@, false, u32::MAX as int, 0) {
            Ok(v) => Ok(v as u32),
            Err(e) => Err(e),
        }),
        parse_int_spec(s@, false, u32::MAX as int, 0) matches Ok(v) ==> 0 <= v <= u32::MAX,
{
    let cs = chars_of(s);
    if cs.len() == 0 {
        return Err(IntErrorKind::Empty);
    }
    if cs.len() == 1 && (cs[0] == '+' || cs[0] == '-') {
        return Err(IntErrorKind::InvalidDigit);
    }
    let start: usize = if cs[0] == '+' { 1 } else { 0 };
    proof {
        if start == 1 {
            assert(cs@.skip(1) =~= s@.drop_first());
        } else {
            assert(cs@.skip(0) =~= s@);
        }
    }
    let r = parse_magnitude(&cs, start, 0xffff_ffff, false);
    proof {
        let body = cs@.skip(start as int);
        assert(body.take(body.len() as int) =~= body);
    }
    match r {
        Ok(v) => Ok(v as u32),
        Err(e) => Err(e),
    }
}

/// `str::parse::<i32>`.
pub fn parse_i32(s: &str) -> (r: Result<i32, IntErrorKind>)
    ensures
        r == (match parse_int_spec(s@, true, i32::MAX as int, 0x8000_0000) {
            Ok(v) => Ok(v as i32),
            Err(e) => Err(e),
        }),
        parse_int_spec(s@, true, i32::MAX as int, 0x8000_0000) matches Ok(v) ==> i32::MIN <= v <= i32::MAX,
{
    let cs = chars_of(s);
    if cs.len() == 0 {
        return Err(IntErrorKind::Empty);
    }
    if cs.len() == 1 && (cs[0] == '+' || cs[0] == '-') {
        return Err(IntErrorKind::InvalidDigit);
    }
    let neg = cs[0] == '-';
    let start: usize = if cs[0] == '+' || neg { 1 } else { 0 };
    proof {
        if start == 1 {
            assert(cs@.skip(1) =~= s@.drop_first());
        } else {
            assert(cs@.skip(0) =~= s@);
        }
    }
    let limit: u64 = if neg { 0x8000_0000 } else { 0x7fff_ffff };
    let r = parse_magnitude(&cs, start, limit, neg);
    proof {
        let body = cs@.skip(start as int);
        assert(body.take(body.len() as int) =~= body);
    }
    match r {
        Ok(m) => {
            if neg {
                Ok((0i64 - m as i64) as i32)
            } else {
                Ok(m as i32)
            }
        },
        Err(e) => Err(e),
    }
}

} // verus!

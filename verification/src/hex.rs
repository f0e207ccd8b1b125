//! Resource hashes as text: thirty-two lowercase hexadecimal digits on the
//! way out, any hexadecimal number that fits in 128 bits on the way in.

use vstd::prelude::*;
use vstd::string::is_ascii_spec_bytes;

verus! {

/// The character that stands for a digit below sixteen.
pub open spec fn hex_digit_char(d: nat) -> char {
    if d == 0 {
        '0'
    } else if d == 1 {
        '1'
    } else if d == 2 {
        '2'
    } else if d == 3 {
        '3'
    } else if d == 4 {
        '4'
    } else if d == 5 {
        '5'
    } else if d == 6 {
        '6'
    } else if d == 7 {
        '7'
    } else if d == 8 {
        '8'
    } else if d == 9 {
        '9'
    } else if d == 10 {
        'a'
    } else if d == 11 {
        'b'
    } else if d == 12 {
        'c'
    } else if d == 13 {
        'd'
    } else if d == 14 {
        'e'
    } else {
        'f'
    }
}

/// The digit that a character code stands for, where it is a hexadecimal
/// digit of either case.
pub open spec fn hex_code_value(code: u32) -> Option<nat> {
    if 48 <= code <= 57 {
        Some((code - 48) as nat)
    } else if 97 <= code <= 102 {
        Some((code - 87) as nat)
    } else if 65 <= code <= 70 {
        Some((code - 55) as nat)
    } else {
        None
    }
}

/// The digit that a character stands for, where it is a hexadecimal digit.
pub open spec fn hex_digit_value(c: char) -> Option<nat> {
    hex_code_value(c as u32)
}

/// `v` written with exactly `n` hexadecimal digits, most significant first
/// (digits beyond the `n`-th are cut off).
pub open spec fn hex_digits(v: nat, n: nat) -> Seq<char>
    decreases n,
{
    if n == 0 {
        Seq::empty()
    } else {
        hex_digits(v / 16, (n - 1) as nat).push(hex_digit_char(v % 16))
    }
}

/// The text form of a hash: thirty-two lowercase hexadecimal digits.
pub open spec fn hex_string(h: u128) -> Seq<char> {
    hex_digits(h as nat, 32)
}

/// Every character is a hexadecimal digit.
pub open spec fn is_hex_digits(s: Seq<char>) -> bool {
    forall|i: int| 0 <= i < s.len() ==> (#[trigger] hex_digit_value(s[i])) is Some
}

/// The number that a string of hexadecimal digits denotes.
pub open spec fn hex_value(s: Seq<char>) -> nat
    decreases s.len(),
{
    if s.len() == 0 {
        0
    } else {
        hex_value(s.drop_last()) * 16 + match hex_digit_value(s.last()) {
            Some(d) => d,
            None => 0,
        }
    }
}

/// The text without one leading plus sign.
pub open spec fn strip_sign(s: Seq<char>) -> Seq<char> {
    if s.len() > 0 && s[0] == '+' {
        s.drop_first()
    } else {
        s
    }
}

/// Why a text is not a hash.
#[derive(Debug, Clone, Copy, PartialEq, Eq, Structural)]
pub enum HashParseError {
    /// The text is empty.
    Empty,
    /// The text has no digits, or a character that is no hexadecimal digit.
    InvalidDigit,
    /// The digits denote a number of more than 128 bits.
    Overflow,
}

/// What a text denotes as a hash: an optional plus sign, then one or more
/// hexadecimal digits of either case whose value fits in 128 bits.
pub open spec fn parse_hash_spec(s: Seq<char>) -> Result<u128, HashParseError> {
    let digits = strip_sign(s);
    if s.len() == 0 {
        Err(HashParseError::Empty)
    } else if digits.len() == 0 || !is_hex_digits(digits) {
        Err(HashParseError::InvalidDigit)
    } else if hex_value(digits) > u128::MAX {
        Err(HashParseError::Overflow)
    } else {
        Ok(hex_value(digits) as u128)
    }
}

/// `v` can be written with `n` hexadecimal digits.
pub open spec fn fits_hex(v: nat, n: nat) -> bool
    decreases n,
{
    if n == 0 {
        v == 0
    } else {
        fits_hex(v / 16, (n - 1) as nat)
    }
}

impl HashParseError {
    /// What is said about the failure to whoever sent the text.
    pub open spec fn text(self) -> Seq<char> {
        match self {
            HashParseError::Empty => "cannot parse integer from empty string"@,
            HashParseError::InvalidDigit => "invalid digit found in string"@,
            HashParseError::Overflow => "number too large to fit in target type"@,
        }
    }

    /// What is said about the failure to whoever sent the text.
    pub fn message(&self) -> (m: &'static str)
        ensures
            m@ == self.text(),
    {
        match self {
            HashParseError::Empty => "cannot parse integer from empty string",
            HashParseError::InvalidDigit => "invalid digit found in string",
            HashParseError::Overflow => "number too large to fit in target type",
        }
    }
}

pub(crate) fn hex_digit_str(d: u8) -> (s: &'static str)
    requires
        d < 16,
    ensures
        s@ == seq![hex_digit_char(d as nat)],
{
    proof {
        reveal_strlit("0");
        reveal_strlit("1");
        reveal_strlit("2");
        reveal_strlit("3");
        reveal_strlit("4");
        reveal_strlit("5");
        reveal_strlit("6");
        reveal_strlit("7");
        reveal_strlit("8");
        reveal_strlit("9");
        reveal_strlit("a");
        reveal_strlit("b");
        reveal_strlit("c");
        reveal_strlit("d");
        reveal_strlit("e");
        reveal_strlit("f");
    }
    let s = if d == 0 {
        "0"
    } else if d == 1 {
        "1"
    } else if d == 2 {
        "2"
    } else if d == 3 {
        "3"
    } else if d == 4 {
        "4"
    } else if d == 5 {
        "5"
    } else if d == 6 {
        "6"
    } else if d == 7 {
        "7"
    } else if d == 8 {
        "8"
    } else if d == 9 {
        "9"
    } else if d == 10 {
        "a"
    } else if d == 11 {
        "b"
    } else if d == 12 {
        "c"
    } else if d == 13 {
        "d"
    } else if d == 14 {
        "e"
    } else {
        "f"
    };
    assert(s@ =~= seq![hex_digit_char(d as nat)]);
    s
}

fn push_hex(out: &mut String, v: u128, n: u32)
    ensures
        final(out)@ == old(out)@ + hex_digits(v as nat, n as nat),
    decreases n,
{
    if n > 0 {
        push_hex(out, v / 16, n - 1);
        out.append(hex_digit_str((v % 16) as u8));
        assert(final(out)@ =~= old(out)@ + hex_digits(v as nat, n as nat)) by {
            assert(hex_digits(v as nat, n as nat) == hex_digits((v / 16) as nat, (n - 1) as nat).push(
                hex_digit_char((v % 16) as nat),
            ));
        }
    } else {
        assert(old(out)@ + hex_digits(v as nat, 0) =~= old(out)@);
    }
}

/// Renders a hash as thirty-two lowercase hexadecimal digits.
pub fn hash_to_hex(hash: u128) -> (s: String)
    ensures
        s@ == hex_string(hash),
{
    let mut out = String::new();
    push_hex(&mut out, hash, 32);
    assert(Seq::<char>::empty() + hex_string(hash) =~= hex_string(hash));
    out
}

fn digit_of(b: u8) -> (r: Option<u8>)
    ensures
        match r {
            Some(d) => hex_code_value(b as u32) == Some(d as nat) && d < 16,
            None => hex_code_value(b as u32) is None,
        },
{
    if 48 <= b && b <= 57 {
        Some(b - 48)
    } else if 97 <= b && b <= 102 {
        Some(b - 87)
    } else if 65 <= b && b <= 70 {
        Some(b - 55)
    } else {
        None
    }
}

/// A number is at least the number that any prefix of its digits denotes.
pub proof fn lemma_hex_value_prefix(s: Seq<char>, n: int)
    requires
        0 <= n <= s.len(),
    ensures
        hex_value(s.take(n)) <= hex_value(s),
    decreases s.len() - n,
{
    if n == s.len() {
        assert(s.take(n) == s);
    } else {
        lemma_hex_value_prefix(s, n + 1);
        assert(s.take(n + 1).drop_last() == s.take(n));
    }
}

proof fn lemma_non_ascii_is_no_digit(c: char)
    ensures
        !('\0' <= c <= '\u{7f}') ==> hex_digit_value(c) is None && c != '+',
{
}

proof fn lemma_not_ascii_not_hex(s: Seq<char>)
    requires
        s.len() > 0,
        !vstd::utf8::is_ascii_chars(s),
    ensures
        !is_hex_digits(strip_sign(s)),
{
    let i = choose|i: int| 0 <= i < s.len() && !('\0' <= #[trigger] s[i] <= '\u{7f}');
    let digits = strip_sign(s);
    lemma_non_ascii_is_no_digit(s[i]);
    lemma_non_ascii_is_no_digit(s[0]);
    if s[0] == '+' {
        assert(digits[i - 1] == s[i]);
        assert(hex_digit_value(digits[i - 1]) is None);
    } else {
        assert(hex_digit_value(digits[i]) is None);
    }
}

/// Reads a hash from text: an optional plus sign, then hexadecimal digits of
/// either case. Leading zeros are allowed; the value must fit in 128 bits.
pub fn parse_hash(s: &str) -> (r: Result<u128, HashParseError>)
    ensures
        r == parse_hash_spec(s@),
{
    if s.is_empty() {
        return Err(HashParseError::Empty);
    }
    if !s.is_ascii() {
        proof {
            lemma_not_ascii_not_hex(s@);
        }
        return Err(HashParseError::InvalidDigit);
    }
    let bytes = s.as_bytes();
    proof {
        is_ascii_spec_bytes(s);
    }
    let n: usize = bytes.len();
    assert(n == s@.len());
    assert(forall|k: int| 0 <= k < n ==> (#[trigger] s@[k]) as u32 == bytes@[k] as u32);
    let start: usize = if bytes[0] == 43 {
        1
    } else {
        0
    };
    let ghost digits = strip_sign(s@);
    assert(digits =~= s@.subrange(start as int, n as int));
    if start == n {
        return Err(HashParseError::InvalidDigit);
    }
    let mut i: usize = start;
    while i < n
        invariant
            start <= i <= n,
            n == bytes@.len(),
            n == s@.len(),
            digits == s@.subrange(start as int, n as int),
            digits == strip_sign(s@),
            forall|k: int| 0 <= k < n ==> (#[trigger] s@[k]) as u32 == bytes@[k] as u32,
            forall|k: int| 0 <= k < i - start ==> (#[trigger] hex_digit_value(digits[k])) is Some,
        decreases n - i,
    {
        if digit_of(bytes[i]).is_none() {
            assert(digits[i - start] == s@[i as int]);
            assert(hex_digit_value(digits[i - start]) is None);
            return Err(HashParseError::InvalidDigit);
        }
        assert(digits[i - start] == s@[i as int]);
        i += 1;
    }
    assert(is_hex_digits(digits));
    let mut acc: u128 = 0;
    let mut j: usize = start;
    while j < n
        invariant
            start <= j <= n,
            n == bytes@.len(),
            n == s@.len(),
            digits == s@.subrange(start as int, n as int),
            digits == strip_sign(s@),
            is_hex_digits(digits),
            forall|k: int| 0 <= k < n ==> (#[trigger] s@[k]) as u32 == bytes@[k] as u32,
            acc == hex_value(digits.take(j - start)),
        decreases n - j,
    {
        let ghost next = digits.take(j - start + 1);
        proof {
            assert(next.drop_last() == digits.take(j - start));
            assert(next.last() == s@[j as int]);
            assert(hex_digit_value(digits[j - start]) is Some);
            lemma_hex_value_prefix(digits, j - start + 1);
        }
        let d: u128 = match digit_of(bytes[j]) {
            Some(d) => d as u128,
            None => 0,
        };
        if acc > (u128::MAX - d) / 16 {
            return Err(HashParseError::Overflow);
        }
        acc = acc * 16 + d;
        j += 1;
    }
    assert(digits.take(n - start) == digits);
    Ok(acc)
}

/// Every digit of a rendered number is a hexadecimal digit, and none is a
/// plus sign.
pub proof fn lemma_hex_digits_are_digits(v: nat, n: nat)
    ensures
        hex_digits(v, n).len() == n,
        is_hex_digits(hex_digits(v, n)),
        forall|i: int| 0 <= i < n ==> hex_digits(v, n)[i] != '+',
    decreases n,
{
    if n > 0 {
        lemma_hex_digits_are_digits(v / 16, (n - 1) as nat);
        let c = hex_digit_char(v % 16);
        assert(hex_digit_value(c) is Some);
        assert(c != '+');
    }
}

/// Reading back the `n` digits of a number that fits in `n` digits gives the
/// number.
pub proof fn lemma_hex_value_of_digits(v: nat, n: nat)
    requires
        fits_hex(v, n),
    ensures
        hex_value(hex_digits(v, n)) == v,
    decreases n,
{
    if n > 0 {
        lemma_hex_value_of_digits(v / 16, (n - 1) as nat);
        let s = hex_digits(v, n);
        assert(s.drop_last() == hex_digits(v / 16, (n - 1) as nat));
        assert(hex_digit_value(hex_digit_char(v % 16)) == Some(v % 16));
    }
}

/// Every 128-bit number can be written with thirty-two hexadecimal digits.
pub proof fn lemma_u128_fits(h: u128)
    ensures
        fits_hex(h as nat, 32),
{
    reveal_with_fuel(fits_hex, 33);
}

/// Reading the text form of a hash gives the hash back.
pub proof fn lemma_parse_hex_string(h: u128)
    ensures
        parse_hash_spec(hex_string(h)) == Ok::<u128, HashParseError>(h),
{
    lemma_hex_digits_are_digits(h as nat, 32);
    lemma_u128_fits(h);
    lemma_hex_value_of_digits(h as nat, 32);
    assert(strip_sign(hex_string(h)) == hex_string(h));
}

} // verus!

//! Text as sequences of characters: trimming, searching, parsing and printing
//! of integers.
use vstd::prelude::*;
use vstd::slice::slice_subrange;
use vstd::string::StringExecFns;

verus! {

broadcast use vstd::string::group_string_axioms;

/// `String::push` appends one character to the end of the string.
pub assume_specification[ String::push ](s: &mut String, c: char)
    ensures
        final(s)@ == old(s)@.push(c),
;

/// The characters that Unicode gives the property `White_Space`.
pub open spec fn is_white(c: char) -> bool {
    ||| '\u{9}' <= c <= '\u{d}'
    ||| c == '\u{20}'
    ||| c == '\u{85}'
    ||| c == '\u{a0}'
    ||| c == '\u{1680}'
    ||| '\u{2000}' <= c <= '\u{200a}'
    ||| c == '\u{2028}'
    ||| c == '\u{2029}'
    ||| c == '\u{202f}'
    ||| c == '\u{205f}'
    ||| c == '\u{3000}'
}

/// `s` without its leading white space.
pub open spec fn trim_start(s: Seq<char>) -> Seq<char>
    decreases s.len(),
{
    if s.len() > 0 && is_white(s[0]) {
        trim_start(s.subrange(1, s.len() as int))
    } else {
        s
    }
}

/// `s` without its trailing white space.
pub open spec fn trim_end(s: Seq<char>) -> Seq<char>
    decreases s.len(),
{
    if s.len() > 0 && is_white(s.last()) {
        trim_end(s.drop_last())
    } else {
        s
    }
}

/// `s` without its leading and trailing white space.
pub open spec fn trim(s: Seq<char>) -> Seq<char> {
    trim_end(trim_start(s))
}

/// `s` with its first `n` characters left out.
pub open spec fn skip(s: Seq<char>, n: int) -> Seq<char> {
    s.subrange(n, s.len() as int)
}

/// The lower-case form of an ASCII letter; any other character as it is.
pub open spec fn ascii_lower_char(c: char) -> char {
    if 'A' <= c <= 'Z' {
        (c as int + 32) as char
    } else {
        c
    }
}

/// `s` with its ASCII letters in lower case.
pub open spec fn ascii_lower(s: Seq<char>) -> Seq<char> {
    s.map_values(|c: char| ascii_lower_char(c))
}

/// `needle` occurs in `hay` as a run of consecutive characters.
pub open spec fn contains_text(hay: Seq<char>, needle: Seq<char>) -> bool {
    exists|i: int|
        0 <= i <= hay.len() - needle.len() && #[trigger] hay.subrange(i, i + needle.len())
            == needle
}

/// `s` without the occurrences of `c`.
pub open spec fn without_char(s: Seq<char>, c: char) -> Seq<char>
    decreases s.len(),
{
    if s.len() == 0 {
        s
    } else if s.last() == c {
        without_char(s.drop_last(), c)
    } else {
        without_char(s.drop_last(), c).push(s.last())
    }
}

/// The value of `c` as a digit in base 16.
pub open spec fn hex_digit_value(c: char) -> Option<int> {
    if '0' <= c <= '9' {
        Some(c as int - '0' as int)
    } else if 'a' <= c <= 'f' {
        Some(c as int - 'a' as int + 10)
    } else if 'A' <= c <= 'F' {
        Some(c as int - 'A' as int + 10)
    } else {
        None
    }
}

/// The value of `c` as a digit in base `radix`, 10 or 16.
pub open spec fn digit_value(c: char, radix: int) -> Option<int> {
    match hex_digit_value(c) {
        Some(d) => if d < radix {
            Some(d)
        } else {
            None
        },
        None => None,
    }
}

/// Why a text is not an integer of the wanted range.
#[derive(Clone, Copy, Debug, PartialEq, Eq, Structural)]
pub enum IntError {
    Empty,
    InvalidDigit,
    PosOverflow,
    NegOverflow,
}

/// The number that the digits `s` write in base `radix`, provided that it is at
/// most `max`; else what is wrong with the first digit that cannot be taken.
pub open spec fn magnitude(s: Seq<char>, radix: int, max: int, over: IntError) -> Result<
    int,
    IntError,
>
    decreases s.len(),
{
    if s.len() == 0 {
        Ok(0)
    } else {
        match magnitude(s.drop_last(), radix, max, over) {
            Err(e) => Err(e),
            Ok(v) => match digit_value(s.last(), radix) {
                None => Err(IntError::InvalidDigit),
                Some(d) => if v * radix + d > max {
                    Err(over)
                } else {
                    Ok(v * radix + d)
                },
            },
        }
    }
}

/// The integer of `min ..= max` that `s` writes in base `radix`. A `+` may stand
/// in front, and a `-` where the range holds negative numbers.
pub open spec fn parse_int_spec(s: Seq<char>, radix: int, min: int, max: int) -> Result<
    int,
    IntError,
> {
    if s.len() == 0 {
        Err(IntError::Empty)
    } else if s.len() == 1 && (s[0] == '+' || s[0] == '-') {
        Err(IntError::InvalidDigit)
    } else if s[0] == '+' {
        magnitude(skip(s, 1), radix, max, IntError::PosOverflow)
    } else if s[0] == '-' && min < 0 {
        match magnitude(skip(s, 1), radix, -min, IntError::NegOverflow) {
            Ok(v) => Ok(-v),
            Err(e) => Err(e),
        }
    } else {
        magnitude(s, radix, max, IntError::PosOverflow)
    }
}

/// The character of a digit below 16.
pub open spec fn digit_char(d: int, upper: bool) -> char {
    if d < 10 {
        ('0' as int + d) as char
    } else if upper {
        ('A' as int + d - 10) as char
    } else {
        ('a' as int + d - 10) as char
    }
}

/// `n` written in base `radix` without leading zeros; `0` for zero.
pub open spec fn digits_of(n: nat, radix: nat, upper: bool) -> Seq<char>
    decreases n,
{
    if n < radix || radix < 2 {
        seq![digit_char(n as int, upper)]
    } else {
        proof {
            assert(n / radix < n) by (nonlinear_arith)
                requires
                    n >= radix >= 2,
            ;
        }
        digits_of(n / radix, radix, upper).push(digit_char((n % radix) as int, upper))
    }
}

/// `s` filled up with zeros on the left to `width` characters.
pub open spec fn zero_padded(s: Seq<char>, width: nat) -> Seq<char> {
    if s.len() < width {
        Seq::new((width - s.len()) as nat, |i: int| '0') + s
    } else {
        s
    }
}

/// `n` in decimal.
pub open spec fn decimal(n: nat) -> Seq<char> {
    digits_of(n, 10, false)
}

/// `n` in lower-case hexadecimal.
pub open spec fn hex_lower(n: nat) -> Seq<char> {
    digits_of(n, 16, false)
}

/// `n` in upper-case hexadecimal.
pub open spec fn hex_upper(n: nat) -> Seq<char> {
    digits_of(n, 16, true)
}

/// An integer in decimal, with a `-` in front of a negative one.
pub open spec fn signed_decimal(n: int) -> Seq<char> {
    if n < 0 {
        seq!['-'] + decimal((-n) as nat)
    } else {
        decimal(n as nat)
    }
}

/// An address as the panels print it: `0x` and 16 lower-case hex digits.
pub open spec fn address_text(n: nat) -> Seq<char> {
    seq!['0', 'x'] + zero_padded(hex_lower(n), 16)
}

/// The optional string is there and has the characters of `t`.
pub open spec fn says(o: Option<String>, t: Seq<char>) -> bool {
    o matches Some(m) && m@ == t
}

/// The characters of a string slice.
pub fn chars_of(s: &str) -> (out: Vec<char>)
    ensures
        out@ == s@,
{
    let mut out: Vec<char> = Vec::new();
    for c in it: s.chars()
        invariant
            out@ == s@.subrange(0, it.index()),
            it.seq() == s@,
    {
        out.push(c);
    }
    assert(s@.subrange(0, s@.len() as int) =~= s@);
    out
}

/// The string with the given characters.
pub fn string_of(s: &[char]) -> (out: String)
    ensures
        out@ == s@,
{
    let mut out = String::new();
    let mut i: usize = 0;
    while i < s.len()
        invariant
            i <= s.len(),
            out@ == s@.subrange(0, i as int),
        decreases s.len() - i,
    {
        out.push(s[i]);
        i += 1;
    }
    assert(s@.subrange(0, s@.len() as int) =~= s@);
    out
}

pub fn is_white_exec(c: char) -> (b: bool)
    ensures
        b == is_white(c),
{
    ('\u{9}' <= c && c <= '\u{d}') || c == '\u{20}' || c == '\u{85}' || c == '\u{a0}' || c
        == '\u{1680}' || ('\u{2000}' <= c && c <= '\u{200a}') || c == '\u{2028}' || c == '\u{2029}'
        || c == '\u{202f}' || c == '\u{205f}' || c == '\u{3000}'
}

pub fn trim_start_exec(s: &[char]) -> (out: &[char])
    ensures
        out@ == trim_start(s@),
        out@.len() <= s@.len(),
{
    let mut i: usize = 0;
    assert(s@.subrange(0, s@.len() as int) =~= s@);
    while i < s.len() && is_white_exec(s[i])
        invariant
            i <= s.len(),
            trim_start(s@) == trim_start(s@.subrange(i as int, s@.len() as int)),
        decreases s.len() - i,
    {
        proof {
            let rest = s@.subrange(i as int, s@.len() as int);
            assert(rest.subrange(1, rest.len() as int) =~= s@.subrange(i + 1, s@.len() as int));
        }
        i += 1;
    }
    slice_subrange(s, i, s.len())
}

pub fn trim_end_exec(s: &[char]) -> (out: &[char])
    ensures
        out@ == trim_end(s@),
        out@.len() <= s@.len(),
{
    let mut n: usize = s.len();
    assert(s@.subrange(0, s@.len() as int) =~= s@);
    while n > 0 && is_white_exec(s[n - 1])
        invariant
            n <= s.len(),
            trim_end(s@) == trim_end(s@.subrange(0, n as int)),
        decreases n,
    {
        assert(s@.subrange(0, n as int).drop_last() =~= s@.subrange(0, n - 1));
        n -= 1;
    }
    slice_subrange(s, 0, n)
}

pub fn trim_exec(s: &[char]) -> (out: &[char])
    ensures
        out@ == trim(s@),
        out@.len() <= s@.len(),
{
    trim_end_exec(trim_start_exec(s))
}

/// Whether two texts have the same characters.
pub fn same_text(a: &[char], b: &[char]) -> (r: bool)
    ensures
        r == (a@ == b@),
{
    if a.len() != b.len() {
        return false;
    }
    let mut i: usize = 0;
    while i < a.len()
        invariant
            i <= a.len(),
            a.len() == b.len(),
            forall|j: int| 0 <= j < i ==> a@[j] == b@[j],
        decreases a.len() - i,
    {
        if a[i] != b[i] {
            return false;
        }
        i += 1;
    }
    assert(a@ =~= b@);
    true
}

/// Whether two strings have the same characters.
pub fn same_str(a: &str, b: &str) -> (r: bool)
    ensures
        r == (a@ == b@),
{
    let x = chars_of(a);
    let y = chars_of(b);
    same_text(x.as_slice(), y.as_slice())
}

pub fn ascii_lower_char_exec(c: char) -> (out: char)
    ensures
        out == ascii_lower_char(c),
{
    if 'A' <= c && c <= 'Z' {
        let low: u8 = (c as u8) + 32;
        low as char
    } else {
        c
    }
}

pub fn ascii_lower_exec(s: &[char]) -> (out: Vec<char>)
    ensures
        out@ == ascii_lower(s@),
{
    let mut out: Vec<char> = Vec::new();
    let mut i: usize = 0;
    while i < s.len()
        invariant
            i <= s.len(),
            out@.len() == i,
            forall|j: int| 0 <= j < i ==> out@[j] == ascii_lower_char(s@[j]),
        decreases s.len() - i,
    {
        out.push(ascii_lower_char_exec(s[i]));
        i += 1;
    }
    assert(out@ =~= ascii_lower(s@));
    out
}

pub fn contains_text_exec(hay: &[char], needle: &[char]) -> (r: bool)
    ensures
        r == contains_text(hay@, needle@),
{
    if needle.len() > hay.len() {
        return false;
    }
    let last: usize = hay.len() - needle.len();
    let mut i: usize = 0;
    while i <= last
        invariant
            i <= last + 1,
            last == hay.len() - needle.len(),
            needle.len() <= hay.len(),
            forall|j: int|
                0 <= j < i ==> #[trigger] hay@.subrange(j, j + needle@.len()) != needle@,
        decreases last + 1 - i,
    {
        let part = slice_subrange(hay, i, i + needle.len());
        if same_text(part, needle) {
            assert(hay@.subrange(i as int, i + needle@.len()) == needle@);
            return true;
        }
        if i == last {
            return false;
        }
        i += 1;
    }
    false
}

pub fn without_char_exec(s: &[char], c: char) -> (out: Vec<char>)
    ensures
        out@ == without_char(s@, c),
{
    let mut out: Vec<char> = Vec::new();
    let mut i: usize = 0;
    while i < s.len()
        invariant
            i <= s.len(),
            out@ == without_char(s@.subrange(0, i as int), c),
        decreases s.len() - i,
    {
        assert(s@.subrange(0, i + 1).drop_last() =~= s@.subrange(0, i as int));
        if s[i] != c {
            out.push(s[i]);
        }
        i += 1;
    }
    assert(s@.subrange(0, s@.len() as int) =~= s@);
    out
}

pub fn digit_value_exec(c: char, radix: u64) -> (r: Option<u64>)
    requires
        radix == 10 || radix == 16,
    ensures
        match r {
            Some(d) => digit_value(c, radix as int) == Some(d as int) && d < radix,
            None => digit_value(c, radix as int) is None,
        },
{
    let code: u32 = c as u32;
    let d: u64 = if '0' <= c && c <= '9' {
        (code - 48) as u64
    } else if 'a' <= c && c <= 'f' {
        (code - 87) as u64
    } else if 'A' <= c && c <= 'F' {
        (code - 55) as u64
    } else {
        return None;
    };
    if d < radix {
        Some(d)
    } else {
        None
    }
}

/// Every outcome of [`magnitude`] is a number of `0 ..= max` or an error.
pub proof fn lemma_magnitude_range(s: Seq<char>, radix: int, max: int, over: IntError)
    requires
        radix == 10 || radix == 16,
        0 <= max,
    ensures
        magnitude(s, radix, max, over) matches Ok(v) ==> 0 <= v <= max,
    decreases s.len(),
{
    if s.len() > 0 {
        lemma_magnitude_range(s.drop_last(), radix, max, over);
    }
}

/// A parsed integer lies in the range.
pub proof fn lemma_parsed_range(s: Seq<char>, radix: int, min: int, max: int)
    requires
        radix == 10 || radix == 16,
        min <= 0 <= max,
    ensures
        parse_int_spec(s, radix, min, max) matches Ok(v) ==> min <= v <= max,
{
    lemma_magnitude_range(s, radix, max, IntError::PosOverflow);
    lemma_magnitude_range(skip(s, 1), radix, max, IntError::PosOverflow);
    lemma_magnitude_range(skip(s, 1), radix, -min, IntError::NegOverflow);
}

proof fn lemma_magnitude_err(s: Seq<char>, n: int, radix: int, max: int, over: IntError)
    requires
        0 <= n <= s.len(),
        magnitude(s.subrange(0, n), radix, max, over) is Err,
    ensures
        magnitude(s, radix, max, over) == magnitude(s.subrange(0, n), radix, max, over),
    decreases s.len() - n,
{
    if n < s.len() {
        assert(s.subrange(0, n + 1).drop_last() =~= s.subrange(0, n));
        lemma_magnitude_err(s, n + 1, radix, max, over);
    } else {
        assert(s.subrange(0, n) =~= s);
    }
}

pub fn magnitude_exec(s: &[char], radix: u64, max: u64, over: IntError) -> (r: Result<
    u64,
    IntError,
>)
    requires
        radix == 10 || radix == 16,
    ensures
        match r {
            Ok(v) => magnitude(s@, radix as int, max as int, over) == Ok::<int, IntError>(
                v as int,
            ) && v <= max,
            Err(e) => magnitude(s@, radix as int, max as int, over) == Err::<int, IntError>(e),
        },
{
    let mut v: u64 = 0;
    let mut i: usize = 0;
    while i < s.len()
        invariant
            i <= s.len(),
            v <= max,
            radix == 10 || radix == 16,
            magnitude(s@.subrange(0, i as int), radix as int, max as int, over) == Ok::<
                int,
                IntError,
            >(v as int),
        decreases s.len() - i,
    {
        assert(s@.subrange(0, i + 1).drop_last() =~= s@.subrange(0, i as int));
        match digit_value_exec(s[i], radix) {
            None => {
                proof {
                    lemma_magnitude_err(s@, i + 1, radix as int, max as int, over);
                }
                return Err(IntError::InvalidDigit);
            },
            Some(d) => {
                let next: u128 = if radix == 10 {
                    (v as u128) * 10 + (d as u128)
                } else {
                    (v as u128) * 16 + (d as u128)
                };
                if next > max as u128 {
                    proof {
                        lemma_magnitude_err(s@, i + 1, radix as int, max as int, over);
                    }
                    return Err(over);
                }
                v = next as u64;
            },
        }
        i += 1;
    }
    assert(s@.subrange(0, s@.len() as int) =~= s@);
    Ok(v)
}

/// An unsigned integer of `0 ..= max` in base `radix`.
pub fn parse_unsigned(s: &[char], radix: u64, max: u64) -> (r: Result<u64, IntError>)
    requires
        radix == 10 || radix == 16,
    ensures
        match r {
            Ok(v) => parse_int_spec(s@, radix as int, 0, max as int) == Ok::<int, IntError>(
                v as int,
            ) && v <= max,
            Err(e) => parse_int_spec(s@, radix as int, 0, max as int) == Err::<int, IntError>(e),
        },
{
    if s.len() == 0 {
        Err(IntError::Empty)
    } else if s.len() == 1 && (s[0] == '+' || s[0] == '-') {
        Err(IntError::InvalidDigit)
    } else if s[0] == '+' {
        magnitude_exec(slice_subrange(s, 1, s.len()), radix, max, IntError::PosOverflow)
    } else {
        magnitude_exec(s, radix, max, IntError::PosOverflow)
    }
}

/// A signed integer of `-max - 1 ..= max` in base `radix`.
pub fn parse_signed(s: &[char], radix: u64, max: i64) -> (r: Result<i64, IntError>)
    requires
        radix == 10 || radix == 16,
        max >= 0,
    ensures
        match r {
            Ok(v) => parse_int_spec(s@, radix as int, -max - 1, max as int) == Ok::<int, IntError>(
                v as int,
            ) && -max - 1 <= v <= max,
            Err(e) => parse_int_spec(s@, radix as int, -max - 1, max as int) == Err::<
                int,
                IntError,
            >(e),
        },
{
    if s.len() == 0 {
        Err(IntError::Empty)
    } else if s.len() == 1 && (s[0] == '+' || s[0] == '-') {
        Err(IntError::InvalidDigit)
    } else if s[0] == '-' {
        match magnitude_exec(
            slice_subrange(s, 1, s.len()),
            radix,
            (max as u64) + 1,
            IntError::NegOverflow,
        ) {
            Ok(v) => {
                if v == 0 {
                    Ok(0)
                } else {
                    Ok(-((v - 1) as i64) - 1)
                }
            },
            Err(e) => Err(e),
        }
    } else {
        let body = if s[0] == '+' {
            slice_subrange(s, 1, s.len())
        } else {
            s
        };
        match magnitude_exec(body, radix, max as u64, IntError::PosOverflow) {
            Ok(v) => Ok(v as i64),
            Err(e) => Err(e),
        }
    }
}

pub fn digit_char_exec(d: u64, upper: bool) -> (c: char)
    requires
        d < 16,
    ensures
        c == digit_char(d as int, upper),
{
    let code: u8 = if d < 10 {
        48 + d as u8
    } else if upper {
        55 + d as u8
    } else {
        87 + d as u8
    };
    code as char
}

/// `n` in base `radix`.
pub fn digits_of_exec(n: u64, radix: u64, upper: bool) -> (out: Vec<char>)
    requires
        radix == 10 || radix == 16,
    ensures
        out@ == digits_of(n as nat, radix as nat, upper),
    decreases n,
{
    if n < radix {
        vec![digit_char_exec(n, upper)]
    } else {
        let mut out = digits_of_exec(n / radix, radix, upper);
        out.push(digit_char_exec(n % radix, upper));
        out
    }
}

pub fn decimal_exec(n: u64) -> (out: Vec<char>)
    ensures
        out@ == decimal(n as nat),
{
    digits_of_exec(n, 10, false)
}

pub fn signed_decimal_exec(n: i64) -> (out: Vec<char>)
    ensures
        out@ == signed_decimal(n as int),
{
    if n < 0 {
        let m: u64 = (-(n + 1)) as u64 + 1;
        let mut out = vec!['-'];
        let mut tail = decimal_exec(m);
        out.append(&mut tail);
        out
    } else {
        decimal_exec(n as u64)
    }
}

pub fn hex_lower_exec(n: u64) -> (out: Vec<char>)
    ensures
        out@ == hex_lower(n as nat),
{
    digits_of_exec(n, 16, false)
}

pub fn hex_upper_exec(n: u64) -> (out: Vec<char>)
    ensures
        out@ == hex_upper(n as nat),
{
    digits_of_exec(n, 16, true)
}

pub fn zero_padded_exec(s: &[char], width: usize) -> (out: Vec<char>)
    ensures
        out@ == zero_padded(s@, width as nat),
{
    let mut out: Vec<char> = Vec::new();
    if s.len() < width {
        let gap: usize = width - s.len();
        while out.len() < gap
            invariant
                out@.len() <= gap,
                forall|j: int| 0 <= j < out@.len() ==> out@[j] == '0',
            decreases gap - out@.len(),
        {
            out.push('0');
        }
    }
    let ghost zeros = out@;
    let mut i: usize = 0;
    while i < s.len()
        invariant
            i <= s.len(),
            out@ == zeros + s@.subrange(0, i as int),
        decreases s.len() - i,
    {
        out.push(s[i]);
        i += 1;
    }
    assert(out@ =~= zero_padded(s@, width as nat));
    out
}

/// The address as the panels print it.
pub fn address_text_exec(n: u64) -> (out: String)
    ensures
        out@ == address_text(n as nat),
{
    let digits = hex_lower_exec(n);
    let padded = zero_padded_exec(digits.as_slice(), 16);
    let mut out = vec!['0', 'x'];
    let mut tail = padded;
    out.append(&mut tail);
    string_of(out.as_slice())
}

/// `0x` and the lower-case hex digits of `n`.
pub open spec fn prefixed_hex(n: nat) -> Seq<char> {
    "0x"@ + hex_lower(n)
}

pub fn prefixed_hex_exec(n: u64) -> (out: String)
    ensures
        out@ == prefixed_hex(n as nat),
{
    let mut out = "0x".to_string();
    let digits = string_of(hex_lower_exec(n).as_slice());
    out.append(digits.as_str());
    out
}

/// Bytes as the panels print them: two hex digits each, joined by `sep`.
pub open spec fn hex_bytes(b: Seq<u8>, sep: Seq<char>, upper: bool) -> Seq<char>
    decreases b.len(),
{
    if b.len() == 0 {
        Seq::empty()
    } else if b.len() == 1 {
        zero_padded(digits_of(b[0] as nat, 16, upper), 2)
    } else {
        hex_bytes(b.drop_last(), sep, upper) + sep + zero_padded(
            digits_of(b.last() as nat, 16, upper),
            2,
        )
    }
}

pub fn hex_bytes_exec(b: &[u8], sep: &str, upper: bool) -> (out: String)
    ensures
        out@ == hex_bytes(b@, sep@, upper),
{
    let mut out = String::new();
    let mut i: usize = 0;
    while i < b.len()
        invariant
            i <= b@.len(),
            out@ == hex_bytes(b@.subrange(0, i as int), sep@, upper),
        decreases b@.len() - i,
    {
        let digits = digits_of_exec(b[i] as u64, 16, upper);
        let pair = string_of(zero_padded_exec(digits.as_slice(), 2).as_slice());
        proof {
            assert(b@.subrange(0, i + 1).drop_last() =~= b@.subrange(0, i as int));
        }
        if i > 0 {
            out.append(sep);
        }
        out.append(pair.as_str());
        assert(out@ =~= hex_bytes(b@.subrange(0, i + 1), sep@, upper));
        i += 1;
    }
    assert(b@.subrange(0, b@.len() as int) =~= b@);
    out
}

/// An address with `width` upper-case hex digits behind `0x`.
pub open spec fn wide_hex(n: nat, width: nat) -> Seq<char> {
    "0x"@ + zero_padded(hex_upper(n), width)
}

pub fn wide_hex_exec(n: u64, width: usize) -> (out: String)
    ensures
        out@ == wide_hex(n as nat, width as nat),
{
    let mut out = "0x".to_string();
    let digits = hex_upper_exec(n);
    let padded = string_of(zero_padded_exec(digits.as_slice(), width).as_slice());
    out.append(padded.as_str());
    out
}

/// A digit character has the value that it was made from.
pub proof fn lemma_digit_char(d: int, radix: int, upper: bool)
    requires
        0 <= d < radix <= 16,
    ensures
        digit_value(digit_char(d, upper), radix) == Some(d),
{
}

/// A printed number is read back as the number that was printed.
pub proof fn lemma_digits_round_trip(n: nat, radix: nat, upper: bool, max: int, over: IntError)
    requires
        radix == 10 || radix == 16,
        n <= max,
    ensures
        magnitude(digits_of(n, radix, upper), radix as int, max, over) == Ok::<int, IntError>(
            n as int,
        ),
        digits_of(n, radix, upper).len() > 0,
    decreases n,
{
    let s = digits_of(n, radix, upper);
    let d = (n % radix) as int;
    let r = radix as int;
    if n < radix {
        lemma_digit_char(n as int, r, upper);
        assert(s.drop_last() =~= Seq::<char>::empty());
        assert(s.last() == digit_char(n as int, upper));
        assert(magnitude(s.drop_last(), r, max, over) == Ok::<int, IntError>(0));
        assert(0 * r + n == n) by (nonlinear_arith);
    } else {
        let q = (n / radix) as int;
        assert(n / radix < n) by (nonlinear_arith)
            requires
                n >= radix,
                radix >= 2,
        ;
        lemma_digits_round_trip(n / radix, radix, upper, max, over);
        lemma_digit_char(d, r, upper);
        assert(s.drop_last() =~= digits_of(n / radix, radix, upper));
        assert(s.last() == digit_char(d, upper));
        assert(magnitude(s.drop_last(), r, max, over) == Ok::<int, IntError>(q));
        assert(q * r + d == n) by (nonlinear_arith)
            requires
                r > 0,
                q == n as int / r,
                d == n as int % r,
        ;
    }
}

/// Zeros in front of the digits do not change the number.
pub proof fn lemma_zeros_in_front(k: nat, s: Seq<char>, radix: int, max: int, over: IntError)
    requires
        radix == 10 || radix == 16,
        0 <= max,
    ensures
        magnitude(Seq::new(k, |i: int| '0') + s, radix, max, over) == magnitude(
            s,
            radix,
            max,
            over,
        ),
    decreases k + s.len(),
{
    let zeros = Seq::new(k, |i: int| '0');
    let whole = zeros + s;
    if s.len() > 0 {
        assert(whole.drop_last() =~= zeros + s.drop_last());
        assert(whole.last() == s.last());
        lemma_zeros_in_front(k, s.drop_last(), radix, max, over);
    } else if k > 0 {
        let fewer = Seq::new((k - 1) as nat, |i: int| '0');
        assert(whole.drop_last() =~= fewer + s);
        lemma_zeros_in_front((k - 1) as nat, s, radix, max, over);
        assert(digit_value('0', radix) == Some(0int));
    } else {
        assert(whole =~= s);
    }
}

/// A padded number is read back as the number that was printed.
pub proof fn lemma_padded_round_trip(n: nat, width: nat, radix: nat, upper: bool, max: int)
    requires
        radix == 10 || radix == 16,
        n <= max,
    ensures
        parse_int_spec(zero_padded(digits_of(n, radix, upper), width), radix as int, 0, max) == Ok::<
            int,
            IntError,
        >(n as int),
{
    let s = digits_of(n, radix, upper);
    let t = zero_padded(s, width);
    lemma_digits_round_trip(n, radix, upper, max, IntError::PosOverflow);
    if s.len() < width {
        lemma_zeros_in_front(
            (width - s.len()) as nat,
            s,
            radix as int,
            max,
            IntError::PosOverflow,
        );
        assert(t[0] == '0');
    } else {
        lemma_digits_are_digits(n, radix, upper);
        assert(digit_value(s[0], radix as int) is Some);
    }
}

/// A printed number consists of digits.
pub proof fn lemma_digits_are_digits(n: nat, radix: nat, upper: bool)
    requires
        radix == 10 || radix == 16,
    ensures
        digits_of(n, radix, upper).len() > 0,
        forall|i: int|
            0 <= i < digits_of(n, radix, upper).len() ==> (#[trigger] digit_value(
                digits_of(n, radix, upper)[i],
                radix as int,
            )) is Some,
    decreases n,
{
    let s = digits_of(n, radix, upper);
    if n < radix {
        lemma_digit_char(n as int, radix as int, upper);
    } else {
        assert(n / radix < n) by (nonlinear_arith)
            requires
                n >= radix,
                radix >= 2,
        ;
        lemma_digits_are_digits(n / radix, radix, upper);
        lemma_digit_char((n % radix) as int, radix as int, upper);
        assert forall|i: int| 0 <= i < s.len() implies (#[trigger] digit_value(
            s[i],
            radix as int,
        )) is Some by {
            if i < s.len() - 1 {
                assert(s[i] == digits_of(n / radix, radix, upper)[i]);
            }
        }
    }
}

/// A number below 16 to the power `width` has at most `width` hex digits.
pub proof fn lemma_hex_len(n: nat, width: nat)
    requires
        width > 0,
        n < vstd::arithmetic::power::pow(16, width),
    ensures
        digits_of(n, 16, false).len() <= width,
        digits_of(n, 16, true).len() <= width,
    decreases width,
{
    reveal(vstd::arithmetic::power::pow);
    if n >= 16 {
        let p = vstd::arithmetic::power::pow(16, (width - 1) as nat);
        assert(vstd::arithmetic::power::pow(16, width) == 16 * p);
        assert(n / 16 < p);
        assert(width > 1) by {
            if width == 1 {
                assert(vstd::arithmetic::power::pow(16, 0) == 1);
            }
        }
        lemma_hex_len(n / 16, (width - 1) as nat);
    }
}

/// A printed number has no white space round it.
pub proof fn lemma_printed_is_trimmed(n: int)
    ensures
        trim(signed_decimal(n)) == signed_decimal(n),
{
    let s = signed_decimal(n);
    let m = if n < 0 {
        (-n) as nat
    } else {
        n as nat
    };
    let d = decimal(m);
    lemma_digits_are_digits(m, 10, false);
    assert(digit_value(d[0], 10) is Some);
    assert(digit_value(d[d.len() - 1], 10) is Some);
    assert(s.last() == d.last());
}

proof fn lemma_trim_start(s: Seq<char>) -> (n: int)
    ensures
        0 <= n <= s.len(),
        trim_start(s) == s.subrange(n, s.len() as int),
        forall|i: int| 0 <= i < n ==> is_white(#[trigger] s[i]),
        n == s.len() || !is_white(s[n]),
    decreases s.len(),
{
    if s.len() > 0 && is_white(s[0]) {
        let t = s.subrange(1, s.len() as int);
        let m = lemma_trim_start(t);
        assert(t.subrange(m, t.len() as int) =~= s.subrange(m + 1, s.len() as int));
        assert forall|i: int| 0 <= i < m + 1 implies is_white(#[trigger] s[i]) by {
            if i > 0 {
                assert(t[i - 1] == s[i]);
            }
        }
        m + 1
    } else {
        assert(s.subrange(0, s.len() as int) =~= s);
        0
    }
}

proof fn lemma_trim_end(s: Seq<char>) -> (n: int)
    ensures
        0 <= n <= s.len(),
        trim_end(s) == s.subrange(0, n),
        forall|i: int| n <= i < s.len() ==> is_white(#[trigger] s[i]),
        n == 0 || !is_white(s[n - 1]),
    decreases s.len(),
{
    if s.len() > 0 && is_white(s.last()) {
        let t = s.drop_last();
        let m = lemma_trim_end(t);
        assert(t.subrange(0, m) =~= s.subrange(0, m));
        assert forall|i: int| m <= i < s.len() implies is_white(#[trigger] s[i]) by {
            if i < t.len() {
                assert(t[i] == s[i]);
            }
        }
        m
    } else {
        assert(s.subrange(0, s.len() as int) =~= s);
        s.len() as int
    }
}

/// Trimming takes the white space round a text away and nothing else.
pub proof fn trim_takes_the_white_space_round_a_text(s: Seq<char>) -> (r: (int, int))
    ensures
        0 <= r.0 <= r.1 <= s.len(),
        trim(s) == s.subrange(r.0, r.1),
        forall|i: int| 0 <= i < r.0 || r.1 <= i < s.len() ==> is_white(#[trigger] s[i]),
        r.0 < r.1 ==> !is_white(s[r.0]) && !is_white(s[r.1 - 1]),
{
    let a = lemma_trim_start(s);
    let t = s.subrange(a, s.len() as int);
    let b = lemma_trim_end(t);
    assert(t.subrange(0, b) =~= s.subrange(a, a + b));
    assert forall|i: int| a + b <= i < s.len() implies is_white(#[trigger] s[i]) by {
        assert(t[i - a] == s[i]);
    }
    (a, a + b)
}

/// A text without a character holds all its other characters, in their order.
pub proof fn other_characters_are_kept(a: Seq<char>, c: char)
    ensures
        !without_char(a, c).contains(c),
        without_char(a.push(c), c) == without_char(a, c),
        forall|x: char| x != c ==> without_char(#[trigger] a.push(x), c) == without_char(a, c).push(x),
    decreases a.len(),
{
    assert(a.push(c).drop_last() =~= a);
    assert forall|x: char| x != c implies without_char(#[trigger] a.push(x), c) == without_char(
        a,
        c,
    ).push(x) by {
        assert(a.push(x).drop_last() =~= a);
    }
    if a.len() > 0 {
        other_characters_are_kept(a.drop_last(), c);
        let rest = without_char(a.drop_last(), c);
        let all = without_char(a, c);
        if all.contains(c) {
            let i = all.index_of(c);
            if i < rest.len() {
                assert(rest[i] == c);
            }
        }
    }
}

} // verus!

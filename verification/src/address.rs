//! The parsers behind the text boxes: addresses, lengths, auth keys, hotkeys.
use vstd::prelude::*;
use vstd::slice::slice_subrange;
use vstd::string::StringExecFns;

use crate::host_error::{quoted, quoted_text};
use crate::text::{
    lemma_magnitude_range,
    address_text, ascii_lower, ascii_lower_exec, chars_of, digit_value, hex_digit_value,
    magnitude, magnitude_exec, parse_int_spec, parse_unsigned, same_text, skip, string_of, trim, trim_exec, without_char,
    without_char_exec, IntError,
};

verus! {

/// `s` without a leading `0x` or `0X`, if it has one.
pub open spec fn strip_hex_prefix(s: Seq<char>) -> Option<Seq<char>> {
    if s.len() >= 2 && s[0] == '0' && (s[1] == 'x' || s[1] == 'X') {
        Some(skip(s, 2))
    } else {
        None
    }
}

pub fn strip_hex_prefix_exec(s: &[char]) -> (r: Option<&[char]>)
    ensures
        match r {
            Some(t) => strip_hex_prefix(s@) == Some(t@),
            None => strip_hex_prefix(s@) is None,
        },
{
    if s.len() >= 2 && s[0] == '0' && (s[1] == 'x' || s[1] == 'X') {
        Some(slice_subrange(s, 2, s.len()))
    } else {
        None
    }
}

/// The hex address that a text writes: white space around it is ignored, one
/// `0x` or `0X` may stand in front, and `_` may group the digits. Nothing else may
/// stand there, a sign neither.
pub open spec fn hex_addr(s: Seq<char>) -> Option<int> {
    let t = trim(s);
    let body = match strip_hex_prefix(t) {
        Some(b) => b,
        None => t,
    };
    let digits = without_char(body, '_');
    if digits.len() == 0 {
        None
    } else {
        match magnitude(digits, 16, usize::MAX as int, IntError::PosOverflow) {
            Ok(v) => Some(v),
            Err(_) => None,
        }
    }
}

/// An address that is read fits an address.
pub proof fn lemma_hex_addr_fits(s: Seq<char>)
    ensures
        hex_addr(s) matches Some(a) ==> 0 <= a <= usize::MAX,
{
    let t = trim(s);
    let body = match strip_hex_prefix(t) {
        Some(b) => b,
        None => t,
    };
    lemma_magnitude_range(
        without_char(body, '_'),
        16,
        usize::MAX as int,
        IntError::PosOverflow,
    );
}

/// Parses a hex address as typed into an address field. `None` for anything that
/// is not a hex number, an empty text included.
pub fn parse_hex_addr(text: &str) -> (r: Option<usize>)
    ensures
        match r {
            Some(v) => hex_addr(text@) == Some(v as int),
            None => hex_addr(text@) is None,
        },
{
    let chars = chars_of(text);
    let t = trim_exec(chars.as_slice());
    let body = match strip_hex_prefix_exec(t) {
        Some(b) => b,
        None => t,
    };
    let digits = without_char_exec(body, '_');
    if digits.len() == 0 {
        return None;
    }
    match magnitude_exec(digits.as_slice(), 16, usize::MAX as u64, IntError::PosOverflow) {
        Ok(v) => Some(v as usize),
        Err(_) => None,
    }
}

/// What [`parse_address`] answers for `s`.
pub open spec fn address_or_message(s: Seq<char>) -> Result<int, Seq<char>> {
    if trim(s).len() == 0 {
        Err("Enter an address"@)
    } else {
        match hex_addr(trim(s)) {
            Some(v) => Ok(v),
            None => Err(
                "Invalid address: '"@ + trim(s) + "' (expected hex, e.g. 7fff0000)"@,
            ),
        }
    }
}

/// The address parser of every address box. Addresses are hexadecimal, with or
/// without a `0x` prefix, and `_` may separate digits.
pub fn parse_address(text: &str) -> (r: Result<usize, String>)
    ensures
        match r {
            Ok(v) => address_or_message(text@) == Ok::<int, Seq<char>>(v as int),
            Err(m) => address_or_message(text@) == Err::<int, Seq<char>>(m@),
        },
{
    let chars = chars_of(text);
    let t = trim_exec(chars.as_slice());
    if t.len() == 0 {
        return Err("Enter an address".to_string());
    }
    let shown = string_of(t);
    match parse_hex_addr(shown.as_str()) {
        Some(v) => Ok(v),
        None => {
            let mut m = "Invalid address: '".to_string();
            m.append(shown.as_str());
            m.append("' (expected hex, e.g. 7fff0000)");
            Err(m)
        },
    }
}

/// The address of a cheat-table entry where it is a plain literal.
pub fn parse_addr_text(s: &str) -> (r: Option<usize>)
    ensures
        match r {
            Some(v) => hex_addr(s@) == Some(v as int),
            None => hex_addr(s@) is None,
        },
{
    parse_hex_addr(s)
}

/// The integer of `0 ..= max` that `s` writes: in hex behind `0x` or `0X`, else
/// in decimal. White space around it is ignored.
pub open spec fn prefixed_uint(s: Seq<char>, max: int) -> Result<int, IntError> {
    match strip_hex_prefix(trim(s)) {
        Some(hex) => parse_int_spec(hex, 16, 0, max),
        None => parse_int_spec(trim(s), 10, 0, max),
    }
}

pub fn prefixed_uint_exec(text: &str, max: u64) -> (r: Result<u64, IntError>)
    ensures
        match r {
            Ok(v) => prefixed_uint(text@, max as int) == Ok::<int, IntError>(v as int) && v <= max,
            Err(e) => prefixed_uint(text@, max as int) == Err::<int, IntError>(e),
        },
{
    let chars = chars_of(text);
    let t = trim_exec(chars.as_slice());
    match strip_hex_prefix_exec(t) {
        Some(hex) => parse_unsigned(hex, 16, max),
        None => parse_unsigned(t, 10, max),
    }
}

/// The text that describes an integer that could not be parsed.
pub open spec fn int_error_text(e: IntError) -> Seq<char> {
    match e {
        IntError::Empty => "cannot parse integer from empty string"@,
        IntError::InvalidDigit => "invalid digit found in string"@,
        IntError::PosOverflow => "number too large to fit in target type"@,
        IntError::NegOverflow => "number too small to fit in target type"@,
    }
}

pub fn int_error_message(e: IntError) -> (m: String)
    ensures
        m@ == int_error_text(e),
{
    match e {
        IntError::Empty => "cannot parse integer from empty string".to_string(),
        IntError::InvalidDigit => "invalid digit found in string".to_string(),
        IntError::PosOverflow => "number too large to fit in target type".to_string(),
        IntError::NegOverflow => "number too small to fit in target type".to_string(),
    }
}

/// Parses an unsigned value of the cheat table: `0x` hex or decimal.
pub fn parse_uint_text(t: &str) -> (r: Result<u64, String>)
    ensures
        match r {
            Ok(v) => prefixed_uint(t@, u64::MAX as int) == Ok::<int, IntError>(v as int),
            Err(m) => prefixed_uint(t@, u64::MAX as int) matches Err(e) && m@ == int_error_text(e),
        },
{
    match prefixed_uint_exec(t, u64::MAX) {
        Ok(v) => Ok(v),
        Err(e) => Err(int_error_message(e)),
    }
}

/// Parses an address that a script hands over as a text: `0x` hex or decimal.
pub fn parse_addr_str(s: &str) -> (r: Result<usize, String>)
    ensures
        match r {
            Ok(v) => prefixed_uint(s@, usize::MAX as int) == Ok::<int, IntError>(v as int),
            Err(m) => prefixed_uint(s@, usize::MAX as int) is Err && m@ == "bad address string: "@
                + quoted_text(s@),
        },
{
    match prefixed_uint_exec(s, usize::MAX as u64) {
        Ok(v) => Ok(v as usize),
        Err(_) => {
            let mut m = "bad address string: ".to_string();
            m.append(quoted(s).as_str());
            Err(m)
        },
    }
}

/// The number of bytes that auto-dissect covers when its box does not say.
pub const DEFAULT_DISSECT_LEN: usize = 256;

/// The dissect length that a text writes; the default for an empty or
/// unparseable text.
pub open spec fn dissect_len(text: Seq<char>) -> int {
    match prefixed_uint(text, usize::MAX as int) {
        Ok(v) => v,
        Err(_) => DEFAULT_DISSECT_LEN as int,
    }
}

pub fn parse_dissect_len(text: &str) -> (len: usize)
    ensures
        len == dissect_len(text@),
{
    match prefixed_uint_exec(text, usize::MAX as u64) {
        Ok(v) => v as usize,
        Err(_) => DEFAULT_DISSECT_LEN,
    }
}

/// The values of the hex digits of `s`; other characters are passed over.
pub open spec fn hex_nibbles(s: Seq<char>) -> Seq<int>
    decreases s.len(),
{
    if s.len() == 0 {
        Seq::empty()
    } else {
        match hex_digit_value(s.last()) {
            Some(d) => hex_nibbles(s.drop_last()).push(d),
            None => hex_nibbles(s.drop_last()),
        }
    }
}

/// Nibbles paired into bytes from the right: an odd one in front stands alone.
pub open spec fn nibble_bytes(n: Seq<int>) -> Seq<u8> {
    let padded = if n.len() % 2 == 0 {
        n
    } else {
        seq![0int] + n
    };
    Seq::new(padded.len() / 2, |i: int| (16 * padded[2 * i] + padded[2 * i + 1]) as u8)
}

/// Parses an optional hex text such as `deadbeef` or `DE AD BE EF` into the
/// bytes of an auth key. A text without hex digits gives no bytes.
pub fn parse_hex_key(s: &str) -> (key: Vec<u8>)
    ensures
        key@ == nibble_bytes(hex_nibbles(s@)),
{
    let chars = chars_of(s);
    let mut nibbles: Vec<u8> = Vec::new();
    let mut i: usize = 0;
    while i < chars.len()
        invariant
            i <= chars.len(),
            nibbles@.len() == hex_nibbles(chars@.subrange(0, i as int)).len(),
            nibbles@.len() <= i,
            forall|j: int|
                0 <= j < nibbles@.len() ==> nibbles@[j] == hex_nibbles(
                    chars@.subrange(0, i as int),
                )[j] && nibbles@[j] < 16,
        decreases chars.len() - i,
    {
        assert(chars@.subrange(0, i + 1).drop_last() =~= chars@.subrange(0, i as int));
        let c: char = chars[i];
        if '0' <= c && c <= '9' {
            nibbles.push((c as u8) - 48);
        } else if 'a' <= c && c <= 'f' {
            nibbles.push((c as u8) - 87);
        } else if 'A' <= c && c <= 'F' {
            nibbles.push((c as u8) - 55);
        }
        i += 1;
    }
    assert(chars@.subrange(0, chars@.len() as int) =~= chars@);
    let ghost n = hex_nibbles(s@);
    let odd: usize = nibbles.len() % 2;
    let ghost padded = if n.len() % 2 == 0 {
        n
    } else {
        seq![0int] + n
    };
    let mut key: Vec<u8> = Vec::new();
    if odd == 1 {
        key.push(nibbles[0]);
    }
    let mut k: usize = odd;
    while k < nibbles.len()
        invariant
            odd <= k <= nibbles.len(),
            odd == nibbles@.len() % 2,
            (k - odd) % 2 == 0,
            n == hex_nibbles(s@),
            n.len() == nibbles@.len(),
            padded == if n.len() % 2 == 0 {
                n
            } else {
                seq![0int] + n
            },
            padded.len() % 2 == 0,
            forall|j: int| 0 <= j < nibbles@.len() ==> nibbles@[j] == n[j] && nibbles@[j] < 16,
            2 * key@.len() == k + odd,
            forall|j: int|
                0 <= j < key@.len() ==> key@[j] == (16 * padded[2 * j] + padded[2 * j + 1]) as u8,
        decreases nibbles.len() - k,
    {
        assert(k + 1 < nibbles.len()) by {
            assert((nibbles.len() - k) % 2 == 0);
        }
        assert(nibbles@[k as int] == n[k as int] && nibbles@[k + 1] == n[k + 1]);
        let byte: u8 = 16 * nibbles[k] + nibbles[k + 1];
        proof {
            let j = key@.len() as int;
            assert(padded[2 * j] == n[k as int]);
            assert(padded[2 * j + 1] == n[k + 1]);
        }
        key.push(byte);
        k += 2;
    }
    assert(key@ =~= nibble_bytes(n));
    key
}

/// An address that a panel prints is read back as the same address.
pub proof fn printed_address_parses_back(n: nat)
    requires
        n <= usize::MAX,
    ensures
        hex_addr(address_text(n)) == Some(n as int),
{
    let body = crate::text::zero_padded(crate::text::hex_lower(n), 16);
    let s = address_text(n);
    crate::text::lemma_digits_are_digits(n, 16, false);
    lemma_printed_digits(n);
    assert(s.last() == body.last());
    assert(trim(s) == s);
    assert(skip(s, 2) =~= body);
    lemma_no_underscore(body);
    assert(hex_digit_value(body[0]) is Some);
    crate::text::lemma_padded_round_trip(n, 16, 16, false, usize::MAX as int);
}

proof fn lemma_printed_digits(n: nat)
    ensures
        ({
            let body = crate::text::zero_padded(crate::text::hex_lower(n), 16);
            &&& body.len() > 0
            &&& forall|i: int| 0 <= i < body.len() ==> hex_digit_value(#[trigger] body[i]) is Some
        }),
{
    let digits = crate::text::hex_lower(n);
    let body = crate::text::zero_padded(digits, 16);
    crate::text::lemma_digits_are_digits(n, 16, false);
    assert forall|i: int| 0 <= i < body.len() implies hex_digit_value(
        #[trigger] body[i],
    ) is Some by {
        let k = i - (body.len() - digits.len());
        if k >= 0 {
            assert(body[i] == digits[k]);
            assert(digit_value(digits[k], 16) is Some);
        } else {
            assert(body[i] == '0');
        }
    }
}

/// Without an underscore in it, a text is its own form without underscores.
pub proof fn lemma_no_underscore(s: Seq<char>)
    requires
        forall|i: int| 0 <= i < s.len() ==> #[trigger] s[i] != '_',
    ensures
        without_char(s, '_') == s,
    decreases s.len(),
{
    if s.len() > 0 {
        lemma_no_underscore(s.drop_last());
        assert(s.drop_last().push(s.last()) =~= s);
    }
}

/// The `0x` prefix is optional: with and without it a text of hex digits means
/// the same address.
pub proof fn prefix_is_optional(s: Seq<char>, upper: bool)
    requires
        s.len() > 0,
        forall|i: int| 0 <= i < s.len() ==> hex_digit_value(#[trigger] s[i]) is Some,
    ensures
        hex_addr(
            seq![
                '0',
                if upper {
                    'X'
                } else {
                    'x'
                },
            ] + s,
        ) == hex_addr(s),
        hex_addr(s) == match parse_int_spec(s, 16, 0, usize::MAX as int) {
            Ok(v) => Some(v),
            Err(_) => None::<int>,
        },
{
    let x = if upper {
        'X'
    } else {
        'x'
    };
    let p = seq!['0', x] + s;
    assert(hex_digit_value(s[0]) is Some);
    assert(hex_digit_value(s.last()) is Some);
    assert(p.last() == s.last());
    assert(trim(s) == s);
    assert(trim(p) == p);
    assert(skip(p, 2) =~= s);
    if s.len() >= 2 {
        assert(hex_digit_value(s[1]) is Some);
    }
    assert(strip_hex_prefix(s) is None);
    assert forall|i: int| 0 <= i < s.len() implies #[trigger] s[i] != '_' by {
        assert(hex_digit_value(s[i]) is Some);
    }
    lemma_no_underscore(s);
}

proof fn lemma_magnitude_digits(s: Seq<char>, max: int, over: IntError, i: int)
    requires
        magnitude(s, 16, max, over) is Ok,
        0 <= i < s.len(),
    ensures
        hex_digit_value(s[i]) is Some,
    decreases s.len(),
{
    if i < s.len() - 1 {
        lemma_magnitude_digits(s.drop_last(), max, over, i);
    }
}

proof fn lemma_kept(s: Seq<char>, c: char, i: int) -> (k: int)
    requires
        0 <= i < s.len(),
        s[i] != c,
    ensures
        0 <= k < without_char(s, c).len(),
        without_char(s, c)[k] == s[i],
    decreases s.len(),
{
    if i == s.len() - 1 {
        without_char(s.drop_last(), c).len() as int
    } else {
        lemma_kept(s.drop_last(), c, i)
    }
}

/// What is no hex number is no address: behind the optional prefix every character
/// of one is a hex digit or `_`.
pub proof fn address_holds_only_digits(s: Seq<char>, i: int)
    requires
        hex_addr(s) is Some,
        ({
            let body = match strip_hex_prefix(trim(s)) {
                Some(b) => b,
                None => trim(s),
            };
            0 <= i < body.len()
        }),
    ensures
        ({
            let body = match strip_hex_prefix(trim(s)) {
                Some(b) => b,
                None => trim(s),
            };
            body[i] == '_' || hex_digit_value(body[i]) is Some
        }),
{
    let body = match strip_hex_prefix(trim(s)) {
        Some(b) => b,
        None => trim(s),
    };
    if body[i] != '_' {
        let k = lemma_kept(body, '_', i);
        lemma_magnitude_digits(
            without_char(body, '_'),
            usize::MAX as int,
            IntError::PosOverflow,
            k,
        );
    }
}

/// What an egui key is called, for a text that names one: `None` where
/// `egui::Key::from_name` knows no such key.
pub uninterp spec fn egui_key_name(name: Seq<char>) -> Option<Seq<char>>;

/// The key that `egui::Key::from_name` finds for a text, by the name that
/// `egui::Key::name` gives it. The contract claims that the answer depends on
/// the text alone and names it; which texts name a key is left to egui.
#[verifier::external_body]
fn key_named(name: &str) -> (key: Option<String>)
    ensures
        match key {
            Some(k) => egui_key_name(name@) == Some(k@),
            None => egui_key_name(name@) is None,
        },
{
    egui::Key::from_name(name).map(|key| key.name().to_string())
}

/// The modifiers and the key of a hotkey, as far as its text was read.
#[derive(Clone, Debug)]
pub struct Hotkey {
    pub ctrl: bool,
    pub shift: bool,
    pub alt: bool,
    pub key: Option<String>,
}

/// What a [`Hotkey`] holds, with its key as a sequence of characters.
pub struct HotkeyView {
    pub ctrl: bool,
    pub shift: bool,
    pub alt: bool,
    pub key: Option<Seq<char>>,
}

impl View for Hotkey {
    type V = HotkeyView;

    open spec fn view(&self) -> HotkeyView {
        HotkeyView {
            ctrl: self.ctrl,
            shift: self.shift,
            alt: self.alt,
            key: match self.key {
                Some(k) => Some(k@),
                None => None,
            },
        }
    }
}

/// What a segment of a hotkey text stands for.
#[derive(Clone, Copy, Debug, PartialEq, Eq, Structural)]
pub enum HotkeyToken {
    Ctrl,
    Shift,
    Alt,
    Key,
}

/// The meaning of a trimmed segment, in any case of its letters.
pub open spec fn hotkey_token(seg: Seq<char>) -> HotkeyToken {
    let low = ascii_lower(seg);
    if low == "ctrl"@ || low == "control"@ {
        HotkeyToken::Ctrl
    } else if low == "shift"@ {
        HotkeyToken::Shift
    } else if low == "alt"@ || low == "option"@ {
        HotkeyToken::Alt
    } else {
        HotkeyToken::Key
    }
}

pub fn hotkey_token_exec(seg: &[char]) -> (t: HotkeyToken)
    ensures
        t == hotkey_token(seg@),
{
    let low = ascii_lower_exec(seg);
    let l = low.as_slice();
    if is_text(l, "ctrl") || is_text(l, "control") {
        HotkeyToken::Ctrl
    } else if is_text(l, "shift") {
        HotkeyToken::Shift
    } else if is_text(l, "alt") || is_text(l, "option") {
        HotkeyToken::Alt
    } else {
        HotkeyToken::Key
    }
}

/// Whether `s` has the characters of `t`.
pub fn is_text(s: &[char], t: &str) -> (r: bool)
    ensures
        r == (s@ == t@),
{
    let c = chars_of(t);
    same_text(s, c.as_slice())
}

/// A hotkey with one more segment read. `named` is the key that the segment
/// names, which counts only where the segment is no modifier.
pub open spec fn with_segment(
    h: HotkeyView,
    token: HotkeyToken,
    named: Option<Seq<char>>,
) -> Option<HotkeyView> {
    match token {
        HotkeyToken::Ctrl => Some(HotkeyView { ctrl: true, ..h }),
        HotkeyToken::Shift => Some(HotkeyView { shift: true, ..h }),
        HotkeyToken::Alt => Some(HotkeyView { alt: true, ..h }),
        HotkeyToken::Key => if h.key is None && named is Some {
            Some(HotkeyView { key: named, ..h })
        } else {
            None
        },
    }
}

/// Takes one more segment into a hotkey. `None` where a second key is named or
/// an unknown one.
pub fn add_segment(h: Hotkey, token: HotkeyToken, named: Option<String>) -> (r: Option<Hotkey>)
    ensures
        ({
            let key = match named {
                Some(k) => Some(k@),
                None => None,
            };
            match r {
                Some(out) => with_segment(h@, token, key) == Some(out@),
                None => with_segment(h@, token, key) is None,
            }
        }),
{
    match token {
        HotkeyToken::Ctrl => Some(Hotkey { ctrl: true, shift: h.shift, alt: h.alt, key: h.key }),
        HotkeyToken::Shift => Some(Hotkey { ctrl: h.ctrl, shift: true, alt: h.alt, key: h.key }),
        HotkeyToken::Alt => Some(Hotkey { ctrl: h.ctrl, shift: h.shift, alt: true, key: h.key }),
        HotkeyToken::Key => {
            if h.key.is_some() {
                None
            } else {
                match named {
                    Some(k) => Some(
                        Hotkey { ctrl: h.ctrl, shift: h.shift, alt: h.alt, key: Some(k) },
                    ),
                    None => None,
                }
            }
        },
    }
}

/// The parts of `s` between the occurrences of `c`: always at least one.
pub open spec fn split_on(s: Seq<char>, c: char) -> Seq<Seq<char>>
    decreases s.len(),
{
    if s.len() == 0 {
        seq![Seq::<char>::empty()]
    } else {
        let p = split_on(s.drop_last(), c);
        if s.last() == c {
            p.push(Seq::empty())
        } else {
            p.drop_last().push(p.last().push(s.last()))
        }
    }
}

pub proof fn lemma_split_nonempty(s: Seq<char>, c: char)
    ensures
        split_on(s, c).len() > 0,
    decreases s.len(),
{
    if s.len() > 0 {
        lemma_split_nonempty(s.drop_last(), c);
    }
}

/// The hotkey that the segments write, as far as no segment is at fault.
pub open spec fn hotkey_of_segments(segs: Seq<Seq<char>>) -> Option<HotkeyView>
    decreases segs.len(),
{
    if segs.len() == 0 {
        Some(HotkeyView { ctrl: false, shift: false, alt: false, key: None })
    } else {
        match hotkey_of_segments(segs.drop_last()) {
            None => None,
            Some(h) => {
                let seg = trim(segs.last());
                if seg.len() == 0 {
                    None
                } else {
                    with_segment(h, hotkey_token(seg), egui_key_name(seg))
                }
            },
        }
    }
}

/// The hotkey that a text writes: segments between `+`, any number of them
/// modifiers and exactly one of them a key.
pub open spec fn hotkey_of(combo: Seq<char>) -> Option<HotkeyView> {
    match hotkey_of_segments(split_on(combo, '+')) {
        Some(h) => if h.key is Some {
            Some(h)
        } else {
            None
        },
        None => None,
    }
}

pub fn split_on_exec(s: &[char], c: char) -> (out: Vec<Vec<char>>)
    ensures
        out@.len() == split_on(s@, c).len(),
        forall|i: int| 0 <= i < out@.len() ==> (#[trigger] out@[i])@ == split_on(s@, c)[i],
{
    let mut out: Vec<Vec<char>> = Vec::new();
    let mut cur: Vec<char> = Vec::new();
    let mut i: usize = 0;
    while i < s.len()
        invariant
            i <= s.len(),
            ({
                let p = split_on(s@.subrange(0, i as int), c);
                &&& p.len() == out@.len() + 1
                &&& forall|k: int| 0 <= k < out@.len() ==> (#[trigger] out@[k])@ == p[k]
                &&& p[out@.len() as int] == cur@
            }),
        decreases s.len() - i,
    {
        assert(s@.subrange(0, i + 1).drop_last() =~= s@.subrange(0, i as int));
        if s[i] == c {
            out.push(cur);
            cur = Vec::new();
        } else {
            cur.push(s[i]);
        }
        i += 1;
    }
    assert(s@.subrange(0, s@.len() as int) =~= s@);
    out.push(cur);
    out
}

proof fn lemma_hotkey_fails_early(segs: Seq<Seq<char>>, n: int)
    requires
        0 <= n <= segs.len(),
        hotkey_of_segments(segs.subrange(0, n)) is None,
    ensures
        hotkey_of_segments(segs) is None,
    decreases segs.len() - n,
{
    if n < segs.len() {
        assert(segs.subrange(0, n + 1).drop_last() =~= segs.subrange(0, n));
        lemma_hotkey_fails_early(segs, n + 1);
    } else {
        assert(segs.subrange(0, n) =~= segs);
    }
}

/// Parses a hotkey such as `Ctrl+Shift+H`, `F6` or `Alt+K`. `None` for an empty
/// segment, an unknown key, no key or more than one.
pub fn parse_hotkey(combo: &str) -> (r: Option<Hotkey>)
    ensures
        match r {
            Some(h) => hotkey_of(combo@) == Some(h@) && h.key is Some,
            None => hotkey_of(combo@) is None,
        },
{
    let chars = chars_of(combo);
    let segs = split_on_exec(chars.as_slice(), '+');
    let ghost parts = split_on(combo@, '+');
    let mut h = Hotkey { ctrl: false, shift: false, alt: false, key: None };
    let mut i: usize = 0;
    while i < segs.len()
        invariant
            i <= segs.len(),
            segs@.len() == parts.len(),
            parts == split_on(combo@, '+'),
            forall|k: int| 0 <= k < segs@.len() ==> (#[trigger] segs@[k])@ == parts[k],
            hotkey_of_segments(parts.subrange(0, i as int)) == Some(h@),
        decreases segs.len() - i,
    {
        proof {
            assert(parts.subrange(0, i + 1).drop_last() =~= parts.subrange(0, i as int));
            assert(parts.subrange(0, i + 1).last() == segs@[i as int]@);
        }
        let seg = trim_exec(segs[i].as_slice());
        if seg.len() == 0 {
            proof {
                lemma_hotkey_fails_early(parts, i + 1);
            }
            return None;
        }
        let token = hotkey_token_exec(seg);
        let named = match token {
            HotkeyToken::Key => {
                let shown = string_of(seg);
                key_named(shown.as_str())
            },
            _ => None,
        };
        match add_segment(h, token, named) {
            Some(next) => {
                h = next;
            },
            None => {
                proof {
                    lemma_hotkey_fails_early(parts, i + 1);
                }
                return None;
            },
        }
        i += 1;
    }
    assert(parts.subrange(0, parts.len() as int) =~= parts);
    if h.key.is_some() {
        Some(h)
    } else {
        None
    }
}

/// An address that is printed without leading zeros is read back as the same address.
pub proof fn short_address_parses_back(n: nat)
    requires
        n <= usize::MAX,
    ensures
        hex_addr(crate::text::prefixed_hex(n)) == Some(n as int),
        address_or_message(crate::text::prefixed_hex(n)) == Ok::<int, Seq<char>>(n as int),
{
    reveal_strlit("0x");
    let digits = crate::text::hex_lower(n);
    let s = crate::text::prefixed_hex(n);
    crate::text::lemma_digits_are_digits(n, 16, false);
    assert forall|i: int| 0 <= i < digits.len() implies hex_digit_value(
        #[trigger] digits[i],
    ) is Some by {
        assert(digit_value(digits[i], 16) is Some);
    }
    assert(s =~= seq!['0', 'x'] + digits);
    prefix_is_optional(digits, false);
    crate::text::lemma_digits_round_trip(n, 16, false, usize::MAX as int, IntError::PosOverflow);
    assert(hex_digit_value(digits.last()) is Some);
    assert(s.last() == digits.last());
    assert(trim(s) == s);
    lemma_hex_is_magnitude(digits);
}

proof fn lemma_hex_is_magnitude(s: Seq<char>)
    requires
        s.len() > 0,
        forall|i: int| 0 <= i < s.len() ==> hex_digit_value(#[trigger] s[i]) is Some,
    ensures
        parse_int_spec(s, 16, 0, usize::MAX as int) == magnitude(
            s,
            16,
            usize::MAX as int,
            IntError::PosOverflow,
        ),
{
    assert(hex_digit_value(s[0]) is Some);
}

proof fn lemma_token_kept(segs: Seq<Seq<char>>)
    requires
        hotkey_of_segments(segs) is Some,
    ensures
        ({
            let h = hotkey_of_segments(segs)->0;
            &&& h.ctrl <==> exists|i: int|
                0 <= i < segs.len() && hotkey_token(trim(#[trigger] segs[i])) == HotkeyToken::Ctrl
            &&& h.shift <==> exists|i: int|
                0 <= i < segs.len() && hotkey_token(trim(#[trigger] segs[i])) == HotkeyToken::Shift
            &&& h.alt <==> exists|i: int|
                0 <= i < segs.len() && hotkey_token(trim(#[trigger] segs[i])) == HotkeyToken::Alt
            &&& h.key matches Some(k) ==> exists|i: int|
                0 <= i < segs.len() && hotkey_token(trim(#[trigger] segs[i])) == HotkeyToken::Key
                    && egui_key_name(trim(segs[i])) == Some(k)
            &&& h.key is None ==> forall|i: int|
                0 <= i < segs.len() ==> hotkey_token(trim(#[trigger] segs[i])) != HotkeyToken::Key
        }),
    decreases segs.len(),
{
    if segs.len() > 0 {
        let rest = segs.drop_last();
        lemma_token_kept(rest);
        let n = segs.len() - 1;
        let last = hotkey_token(trim(segs[n]));
        assert forall|i: int| 0 <= i < rest.len() implies (#[trigger] segs[i]) == rest[i] by {}
        let p = hotkey_of_segments(rest)->0;
        if p.ctrl {
            let i = choose|i: int|
                0 <= i < rest.len() && hotkey_token(trim(#[trigger] rest[i])) == HotkeyToken::Ctrl;
            assert(hotkey_token(trim(segs[i])) == HotkeyToken::Ctrl);
        }
        if p.shift {
            let i = choose|i: int|
                0 <= i < rest.len() && hotkey_token(trim(#[trigger] rest[i])) == HotkeyToken::Shift;
            assert(hotkey_token(trim(segs[i])) == HotkeyToken::Shift);
        }
        if p.alt {
            let i = choose|i: int|
                0 <= i < rest.len() && hotkey_token(trim(#[trigger] rest[i])) == HotkeyToken::Alt;
            assert(hotkey_token(trim(segs[i])) == HotkeyToken::Alt);
        }
        if let Some(k) = p.key {
            let i = choose|i: int|
                0 <= i < rest.len() && hotkey_token(trim(#[trigger] rest[i])) == HotkeyToken::Key
                    && egui_key_name(trim(rest[i])) == Some(k);
            assert(hotkey_token(trim(segs[i])) == HotkeyToken::Key);
        }
    }
}

/// A hotkey has just the modifiers that its combination names, and the key of its one
/// segment that is no modifier.
pub proof fn combination_names_its_modifiers(combo: Seq<char>)
    requires
        hotkey_of(combo) is Some,
    ensures
        ({
            let h = hotkey_of(combo)->0;
            let segs = split_on(combo, '+');
            &&& h.ctrl <==> exists|i: int|
                0 <= i < segs.len() && hotkey_token(trim(#[trigger] segs[i])) == HotkeyToken::Ctrl
            &&& h.shift <==> exists|i: int|
                0 <= i < segs.len() && hotkey_token(trim(#[trigger] segs[i])) == HotkeyToken::Shift
            &&& h.alt <==> exists|i: int|
                0 <= i < segs.len() && hotkey_token(trim(#[trigger] segs[i])) == HotkeyToken::Alt
            &&& exists|i: int|
                0 <= i < segs.len() && hotkey_token(trim(#[trigger] segs[i])) == HotkeyToken::Key
                    && egui_key_name(trim(segs[i])) == h.key
        }),
{
    let segs = split_on(combo, '+');
    lemma_token_kept(segs);
    let h = hotkey_of(combo)->0;
    let i = choose|i: int|
        0 <= i < segs.len() && hotkey_token(trim(#[trigger] segs[i])) == HotkeyToken::Key
            && egui_key_name(trim(segs[i])) == Some(h.key->0);
    assert(egui_key_name(trim(segs[i])) == h.key);
}

/// A modifier is known by either of its names, however the letters are cased.
pub proof fn modifiers_are_known_by_name(seg: Seq<char>)
    ensures
        hotkey_token(seg) == HotkeyToken::Ctrl <==> ascii_lower(seg) == "ctrl"@ || ascii_lower(seg)
            == "control"@,
        hotkey_token(seg) == HotkeyToken::Shift <==> ascii_lower(seg) == "shift"@,
        hotkey_token(seg) == HotkeyToken::Alt <==> ascii_lower(seg) == "alt"@ || ascii_lower(seg)
            == "option"@,
{
    reveal_strlit("ctrl");
    reveal_strlit("control");
    reveal_strlit("shift");
    reveal_strlit("alt");
    reveal_strlit("option");
    assert("ctrl"@.len() != "control"@.len());
    assert("ctrl"@.len() != "shift"@.len());
    assert("shift"@.len() != "control"@.len());
    assert("alt"@.len() != "shift"@.len());
    assert("option"@.len() != "shift"@.len());
    assert("alt"@.len() != "ctrl"@.len());
    assert("option"@.len() != "control"@.len());
    assert("alt"@.len() != "control"@.len());
    assert("option"@.len() != "ctrl"@.len());
}

proof fn lemma_nibbles_concat(a: Seq<char>, b: Seq<char>)
    ensures
        hex_nibbles(a + b) == hex_nibbles(a) + hex_nibbles(b),
    decreases b.len(),
{
    if b.len() == 0 {
        assert(a + b =~= a);
        assert(hex_nibbles(a) + hex_nibbles(b) =~= hex_nibbles(a));
    } else {
        assert((a + b).drop_last() =~= a + b.drop_last());
        lemma_nibbles_concat(a, b.drop_last());
        assert(hex_nibbles(a + b) =~= hex_nibbles(a) + hex_nibbles(b));
    }
}

proof fn lemma_nibbles_none(s: Seq<char>)
    requires
        forall|i: int| 0 <= i < s.len() ==> hex_digit_value(#[trigger] s[i]) is None,
    ensures
        hex_nibbles(s) == Seq::<int>::empty(),
    decreases s.len(),
{
    if s.len() > 0 {
        let rest = s.drop_last();
        assert forall|i: int| 0 <= i < rest.len() implies hex_digit_value(
            #[trigger] rest[i],
        ) is None by {
            assert(hex_digit_value(s[i]) is None);
        }
        lemma_nibbles_none(rest);
        assert(hex_digit_value(s[s.len() - 1]) is None);
    }
}

proof fn lemma_byte_nibbles(b: u8, upper: bool)
    ensures
        hex_nibbles(crate::text::zero_padded(crate::text::digits_of(b as nat, 16, upper), 2))
            == seq![b as int / 16, b as int % 16],
{
    let n = b as nat;
    let d = crate::text::digits_of(n, 16, upper);
    let s = crate::text::zero_padded(d, 2);
    reveal_with_fuel(crate::text::digits_of, 3);
    reveal_with_fuel(hex_nibbles, 3);
    crate::text::lemma_digit_char(n as int % 16, 16, upper);
    crate::text::lemma_digit_char(n as int / 16, 16, upper);
    assert(s.len() == 2);
    assert(s.drop_last().drop_last() =~= Seq::<char>::empty());
    assert(hex_nibbles(s) =~= seq![b as int / 16, b as int % 16]);
}

/// A key that is printed byte by byte is read back as the same bytes, whatever stands
/// between them that is no hex digit.
pub proof fn printed_key_is_read_back(b: Seq<u8>, sep: Seq<char>, upper: bool)
    requires
        forall|i: int| 0 <= i < sep.len() ==> hex_digit_value(#[trigger] sep[i]) is None,
    ensures
        nibble_bytes(hex_nibbles(crate::text::hex_bytes(b, sep, upper))) == b,
{
    lemma_key_nibbles(b, sep, upper);
    let n = hex_nibbles(crate::text::hex_bytes(b, sep, upper));
    let out = nibble_bytes(n);
    assert(n.len() % 2 == 0);
    assert forall|i: int| 0 <= i < out.len() implies #[trigger] out[i] == b[i] by {
        assert(n[2 * i] == b[i] as int / 16);
        assert(n[2 * i + 1] == b[i] as int % 16);
    }
    assert(out =~= b);
}

proof fn lemma_key_nibbles(b: Seq<u8>, sep: Seq<char>, upper: bool)
    requires
        forall|i: int| 0 <= i < sep.len() ==> hex_digit_value(#[trigger] sep[i]) is None,
    ensures
        ({
            let n = hex_nibbles(crate::text::hex_bytes(b, sep, upper));
            &&& n.len() == 2 * b.len()
            &&& forall|i: int|
                0 <= i < b.len() ==> n[2 * i] == (#[trigger] b[i]) as int / 16 && n[2 * i + 1]
                    == b[i] as int % 16
        }),
    decreases b.len(),
{
    if b.len() > 0 {
        let rest = b.drop_last();
        let tail = crate::text::zero_padded(
            crate::text::digits_of(b.last() as nat, 16, upper),
            2,
        );
        lemma_key_nibbles(rest, sep, upper);
        lemma_byte_nibbles(b.last(), upper);
        let front = crate::text::hex_bytes(rest, sep, upper);
        if b.len() > 1 {
            lemma_nibbles_concat(front + sep, tail);
            lemma_nibbles_concat(front, sep);
            lemma_nibbles_none(sep);
            assert(hex_nibbles(front) + Seq::<int>::empty() =~= hex_nibbles(front));
        }
        let n = hex_nibbles(crate::text::hex_bytes(b, sep, upper));
        assert forall|i: int| 0 <= i < b.len() implies n[2 * i] == (#[trigger] b[i]) as int / 16
            && n[2 * i + 1] == b[i] as int % 16 by {
            if i < rest.len() {
                assert(rest[i] == b[i]);
            }
        }
    }
}

/// The pieces of a text, with the separator between them.
pub open spec fn pieces_joined(pieces: Seq<Seq<char>>, c: char) -> Seq<char>
    decreases pieces.len(),
{
    if pieces.len() == 0 {
        Seq::empty()
    } else if pieces.len() == 1 {
        pieces[0]
    } else {
        pieces_joined(pieces.drop_last(), c) + seq![c] + pieces.last()
    }
}

/// A text is split at each separator and nowhere else: the pieces hold none, and with
/// separators between them they are the text.
pub proof fn pieces_make_up_the_text(s: Seq<char>, c: char)
    ensures
        split_on(s, c).len() > 0,
        pieces_joined(split_on(s, c), c) == s,
        forall|i: int| 0 <= i < split_on(s, c).len() ==> !(#[trigger] split_on(s, c)[i]).contains(c),
    decreases s.len(),
{
    if s.len() == 0 {
        assert(pieces_joined(split_on(s, c), c) =~= s);
    } else {
        let t = s.drop_last();
        pieces_make_up_the_text(t, c);
        let p = split_on(t, c);
        let q = split_on(s, c);
        if s.last() == c {
            assert(q.drop_last() =~= p);
            assert(pieces_joined(q, c) =~= s);
        } else {
            assert(q.drop_last() =~= p.drop_last());
            assert(pieces_joined(q, c) =~= pieces_joined(p, c).push(s.last()));
            assert(pieces_joined(q, c) =~= s);
            let last = p.last().push(s.last());
            if last.contains(c) {
                let i = last.index_of(c);
                assert(p[p.len() - 1][i] == c);
                assert(p[p.len() - 1].contains(c));
            }
            assert forall|i: int| 0 <= i < q.len() implies !(#[trigger] q[i]).contains(c) by {
                if i < p.len() - 1 {
                    assert(q[i] == p[i]);
                }
            }
        }
    }
}

} // verus!

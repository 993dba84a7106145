//! Text encodings of the target's strings.
use vstd::prelude::*;
use vstd::utf8::{decode_utf8, valid_utf8};

use crate::text::chars_of;

verus! {

/// The text of bytes that need not be UTF-8, as `String::from_utf8_lossy` gives
/// it.
pub uninterp spec fn lossy_utf8(bytes: Seq<u8>) -> Seq<char>;

/// `String::from_utf8_lossy`. The contract claims that the text depends on the
/// bytes alone and names it, and that bytes that are UTF-8 give the text that
/// they encode. What stands for bytes that are not is left to std.
#[verifier::external_body]
pub(crate) fn utf8_lossy(bytes: &[u8]) -> (text: String)
    ensures
        text@ == lossy_utf8(bytes@),
        valid_utf8(bytes@) ==> text@ == decode_utf8(bytes@),
{
    String::from_utf8_lossy(bytes).to_string()
}

/// The text of 16-bit units that need not be UTF-16, as
/// `String::from_utf16_lossy` gives it.
pub uninterp spec fn lossy_utf16(units: Seq<u16>) -> Seq<char>;

/// `String::from_utf16_lossy`. The contract claims that the text depends on the
/// units alone and names it, and that the units of a text give that text. What
/// stands for units that are of no text is left to std.
#[verifier::external_body]
pub(crate) fn utf16_lossy(units: &[u16]) -> (text: String)
    ensures
        text@ == lossy_utf16(units@),
        forall|s: Seq<char>| units@ == #[trigger] utf16_of(s) ==> text@ == s,
{
    String::from_utf16_lossy(units)
}

/// A text of 16-bit units: where they are those of a text, that text.
pub open spec fn is_utf16_text(units: Seq<u16>, text: Seq<char>) -> bool {
    text == lossy_utf16(units) && forall|s: Seq<char>| units == #[trigger] utf16_of(s) ==> text == s
}

/// The lower-case form of a text, as `str::to_lowercase` gives it.
pub uninterp spec fn lowercase_of(text: Seq<char>) -> Seq<char>;

/// `str::to_lowercase`. The contract claims that the result depends on the text
/// alone and names it.
#[verifier::external_body]
pub(crate) fn lowercase(text: &str) -> (low: String)
    ensures
        low@ == lowercase_of(text@),
{
    text.to_lowercase()
}

/// The UTF-16 units of one character.
pub open spec fn utf16_of_char(c: char) -> Seq<u16> {
    let n = c as u32 as int;
    if n < 0x1_0000 {
        seq![n as u16]
    } else {
        seq![(0xd800 + (n - 0x1_0000) / 0x400) as u16, (0xdc00 + (n - 0x1_0000) % 0x400) as u16]
    }
}

/// The UTF-16 units of a text.
pub open spec fn utf16_of(s: Seq<char>) -> Seq<u16>
    decreases s.len(),
{
    if s.len() == 0 {
        Seq::empty()
    } else {
        utf16_of(s.drop_last()) + utf16_of_char(s.last())
    }
}

/// The UTF-16 units of a text.
pub fn encode_utf16(text: &str) -> (units: Vec<u16>)
    ensures
        units@ == utf16_of(text@),
{
    let chars = chars_of(text);
    let mut units: Vec<u16> = Vec::new();
    let mut i: usize = 0;
    while i < chars.len()
        invariant
            i <= chars@.len(),
            units@ == utf16_of(chars@.subrange(0, i as int)),
        decreases chars@.len() - i,
    {
        assert(chars@.subrange(0, i + 1).drop_last() =~= chars@.subrange(0, i as int));
        let ghost before = units@;
        let n: u32 = chars[i] as u32;
        if n < 0x1_0000 {
            units.push(n as u16);
        } else {
            let m: u32 = n - 0x1_0000;
            units.push((0xd800 + m / 0x400) as u16);
            units.push((0xdc00 + m % 0x400) as u16);
        }
        assert(units@ =~= before + utf16_of_char(chars@[i as int]));
        i += 1;
    }
    assert(chars@.subrange(0, chars@.len() as int) =~= chars@);
    units
}

/// A character is one unit, or a high and a low surrogate that say its code between
/// them.
pub proof fn units_say_the_character(c: char)
    ensures
        ({
            let u = utf16_of_char(c);
            let n = c as u32 as int;
            ||| u.len() == 1 && u[0] == n && !(0xd800 <= u[0] < 0xe000)
            ||| {
                &&& u.len() == 2
                &&& 0xd800 <= u[0] < 0xdc00
                &&& 0xdc00 <= u[1] < 0xe000
                &&& 0x1_0000 + (u[0] - 0xd800) * 0x400 + (u[1] - 0xdc00) == n
            }
        }),
{
    let n = c as u32 as int;
    if n >= 0x1_0000 {
        let m = n - 0x1_0000;
        assert(m < 0x10_0000);
        assert(0 <= m / 0x400 < 0x400 && 0 <= m % 0x400 < 0x400 && m == (m / 0x400) * 0x400 + m
            % 0x400) by (nonlinear_arith)
            requires
                0 <= m < 0x10_0000,
        ;
    }
}

/// A text is encoded character by character.
pub proof fn text_is_encoded_character_by_character(a: Seq<char>, b: Seq<char>)
    ensures
        utf16_of(a + b) == utf16_of(a) + utf16_of(b),
    decreases b.len(),
{
    if b.len() == 0 {
        assert(a + b =~= a);
        assert(utf16_of(a) + utf16_of(b) =~= utf16_of(a));
    } else {
        assert((a + b).drop_last() =~= a + b.drop_last());
        text_is_encoded_character_by_character(a, b.drop_last());
        assert(utf16_of(a + b) =~= utf16_of(a) + utf16_of(b));
    }
}

} // verus!

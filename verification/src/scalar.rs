//! Values typed into a cell: from text to the bytes that are written.
use vstd::prelude::*;
use vstd::slice::slice_subrange;
use vstd::string::StringExecFns;

use crate::address::{int_error_message, int_error_text, is_text};
use crate::bytes::{le_bytes, to_le, to_le_signed};
use crate::text::{
    ascii_lower, ascii_lower_exec, chars_of, parse_int_spec, parse_signed, parse_unsigned,
    same_str, skip, string_of, trim, trim_exec, trim_start, trim_start_exec,
};

verus! {

/// How a field that can be typed into encodes its value.
#[derive(Clone, Copy, Debug, PartialEq, Eq, Structural)]
pub enum ScalarKind {
    /// A signed integer of so many bytes.
    Signed(usize),
    /// An unsigned integer of so many bytes.
    Unsigned(usize),
    /// An unsigned integer of so many bytes that is shown in hex.
    Hex(usize),
    Single,
    Double,
    Bool,
}

/// How the type with the given tag encodes a typed value; `None` for a type that
/// cannot be typed into.
pub open spec fn scalar_kind(tag: Seq<char>) -> Option<ScalarKind> {
    if tag == "Int8"@ {
        Some(ScalarKind::Signed(1))
    } else if tag == "Int16"@ {
        Some(ScalarKind::Signed(2))
    } else if tag == "Int32"@ {
        Some(ScalarKind::Signed(4))
    } else if tag == "Int64"@ {
        Some(ScalarKind::Signed(8))
    } else if tag == "UInt8"@ {
        Some(ScalarKind::Unsigned(1))
    } else if tag == "UInt16"@ {
        Some(ScalarKind::Unsigned(2))
    } else if tag == "UInt32"@ {
        Some(ScalarKind::Unsigned(4))
    } else if tag == "UInt64"@ {
        Some(ScalarKind::Unsigned(8))
    } else if tag == "Hex8"@ {
        Some(ScalarKind::Hex(1))
    } else if tag == "Hex16"@ {
        Some(ScalarKind::Hex(2))
    } else if tag == "Hex32"@ {
        Some(ScalarKind::Hex(4))
    } else if tag == "Hex64"@ || tag == "Pointer"@ {
        Some(ScalarKind::Hex(8))
    } else if tag == "Float"@ {
        Some(ScalarKind::Single)
    } else if tag == "Double"@ {
        Some(ScalarKind::Double)
    } else if tag == "Bool"@ {
        Some(ScalarKind::Bool)
    } else {
        None
    }
}

fn scalar_kind_exec(tag: &str) -> (k: Option<ScalarKind>)
    ensures
        k == scalar_kind(tag@),
        match k {
            Some(ScalarKind::Signed(w)) | Some(ScalarKind::Unsigned(w)) | Some(
                ScalarKind::Hex(w),
            ) => w == 1 || w == 2 || w == 4 || w == 8,
            _ => true,
        },
{
    if same_str(tag, "Int8") {
        Some(ScalarKind::Signed(1))
    } else if same_str(tag, "Int16") {
        Some(ScalarKind::Signed(2))
    } else if same_str(tag, "Int32") {
        Some(ScalarKind::Signed(4))
    } else if same_str(tag, "Int64") {
        Some(ScalarKind::Signed(8))
    } else if same_str(tag, "UInt8") {
        Some(ScalarKind::Unsigned(1))
    } else if same_str(tag, "UInt16") {
        Some(ScalarKind::Unsigned(2))
    } else if same_str(tag, "UInt32") {
        Some(ScalarKind::Unsigned(4))
    } else if same_str(tag, "UInt64") {
        Some(ScalarKind::Unsigned(8))
    } else if same_str(tag, "Hex8") {
        Some(ScalarKind::Hex(1))
    } else if same_str(tag, "Hex16") {
        Some(ScalarKind::Hex(2))
    } else if same_str(tag, "Hex32") {
        Some(ScalarKind::Hex(4))
    } else if same_str(tag, "Hex64") || same_str(tag, "Pointer") {
        Some(ScalarKind::Hex(8))
    } else if same_str(tag, "Float") {
        Some(ScalarKind::Single)
    } else if same_str(tag, "Double") {
        Some(ScalarKind::Double)
    } else if same_str(tag, "Bool") {
        Some(ScalarKind::Bool)
    } else {
        None
    }
}

/// Whether a cell of the given type can be typed into.
pub fn is_editable(type_tag: &str) -> (r: bool)
    ensures
        r == (scalar_kind(type_tag@) is Some),
{
    scalar_kind_exec(type_tag).is_some()
}

/// The largest signed integer of `width` bytes.
pub open spec fn signed_max(width: usize) -> i64 {
    if width == 1 {
        0x7f
    } else if width == 2 {
        0x7fff
    } else if width == 4 {
        0x7fff_ffff
    } else {
        0x7fff_ffff_ffff_ffff
    }
}

/// The largest unsigned integer of `width` bytes.
pub open spec fn unsigned_max(width: usize) -> u64 {
    if width == 1 {
        0xff
    } else if width == 2 {
        0xffff
    } else if width == 4 {
        0xffff_ffff
    } else {
        0xffff_ffff_ffff_ffff
    }
}

pub fn signed_max_exec(width: usize) -> (m: i64)
    ensures
        m == signed_max(width),
        m >= 0,
{
    if width == 1 {
        0x7f
    } else if width == 2 {
        0x7fff
    } else if width == 4 {
        0x7fff_ffff
    } else {
        0x7fff_ffff_ffff_ffff
    }
}

pub fn unsigned_max_exec(width: usize) -> (m: u64)
    ensures
        m == unsigned_max(width),
{
    if width == 1 {
        0xff
    } else if width == 2 {
        0xffff
    } else if width == 4 {
        0xffff_ffff
    } else {
        0xffff_ffff_ffff_ffff
    }
}

/// The name that a message gives the integer type of a field.
pub open spec fn int_ty_name(kind: ScalarKind) -> Seq<char> {
    match kind {
        ScalarKind::Signed(w) => if w == 1 {
            "i8"@
        } else if w == 2 {
            "i16"@
        } else if w == 4 {
            "i32"@
        } else {
            "i64"@
        },
        ScalarKind::Unsigned(w) => if w == 1 {
            "u8"@
        } else if w == 2 {
            "u16"@
        } else if w == 4 {
            "u32"@
        } else {
            "u64"@
        },
        _ => ""@,
    }
}

fn int_ty_name_exec(kind: ScalarKind) -> (s: String)
    ensures
        s@ == int_ty_name(kind),
{
    match kind {
        ScalarKind::Signed(w) => if w == 1 {
            "i8".to_string()
        } else if w == 2 {
            "i16".to_string()
        } else if w == 4 {
            "i32".to_string()
        } else {
            "i64".to_string()
        },
        ScalarKind::Unsigned(w) => if w == 1 {
            "u8".to_string()
        } else if w == 2 {
            "u16".to_string()
        } else if w == 4 {
            "u32".to_string()
        } else {
            "u64".to_string()
        },
        _ => "".to_string(),
    }
}

/// A typed value taken apart: what follows its `-`, and the digits behind a
/// `0x` or `0X` that more characters follow.
pub struct TypedText {
    pub negative: bool,
    pub prefixed: bool,
    pub digits: Seq<char>,
}

pub open spec fn typed_text(text: Seq<char>) -> TypedText {
    let negative = text.len() > 0 && text[0] == '-';
    let body = if negative {
        trim_start(skip(text, 1))
    } else {
        text
    };
    let prefixed = body.len() > 2 && body[0] == '0' && (body[1] == 'x' || body[1] == 'X');
    TypedText {
        negative,
        prefixed,
        digits: if prefixed {
            skip(body, 2)
        } else {
            body
        },
    }
}

/// The integer of `min ..= max` that a trimmed text writes into a decimal field,
/// or the message that refuses it. Behind `0x` the digits are hex, and a leading
/// `-` negates them.
pub open spec fn typed_int(text: Seq<char>, min: int, max: int, ty_name: Seq<char>) -> Result<
    int,
    Seq<char>,
> {
    let t = typed_text(text);
    if t.prefixed {
        match parse_int_spec(t.digits, 16, min, max) {
            Err(e) => Err(int_error_text(e)),
            Ok(v) => if !t.negative {
                Ok(v)
            } else if min <= -v <= max {
                Ok(-v)
            } else {
                Err(text + " does not fit in "@ + ty_name)
            },
        }
    } else {
        match parse_int_spec(text, 10, min, max) {
            Err(e) => Err(int_error_text(e)),
            Ok(v) => Ok(v),
        }
    }
}

/// What a text means as a floating-point number: the bits of the nearest number
/// of either precision, or why it is none. Reading it is not this library's
/// business.
#[derive(Debug)]
pub struct RealReading {
    pub single: Result<u32, String>,
    pub double: Result<u64, String>,
}

/// The bytes that a text typed into a field of type `tag` stands for, or the
/// message that refuses it. `reading` is what the trimmed text means as a
/// floating-point number.
pub open spec fn scalar_bytes(tag: Seq<char>, text: Seq<char>, reading: RealReading) -> Result<
    Seq<u8>,
    Seq<char>,
> {
    let t = trim(text);
    match scalar_kind(tag) {
        None => Err("'"@ + tag + "' is not directly writable"@),
        Some(ScalarKind::Signed(w)) => match typed_int(
            t,
            -signed_max(w) - 1,
            signed_max(w) as int,
            int_ty_name(ScalarKind::Signed(w)),
        ) {
            Ok(v) => Ok(le_bytes(v, w as nat)),
            Err(m) => Err(m),
        },
        Some(ScalarKind::Unsigned(w)) => match typed_int(
            t,
            0,
            unsigned_max(w) as int,
            int_ty_name(ScalarKind::Unsigned(w)),
        ) {
            Ok(v) => Ok(le_bytes(v, w as nat)),
            Err(m) => Err(m),
        },
        Some(ScalarKind::Hex(w)) => match parse_int_spec(
            typed_text(t).digits,
            16,
            0,
            unsigned_max(w) as int,
        ) {
            Ok(v) => Ok(le_bytes(v, w as nat)),
            Err(e) => Err(int_error_text(e)),
        },
        Some(ScalarKind::Single) => match reading.single {
            Ok(bits) => Ok(le_bytes(bits as int, 4)),
            Err(m) => Err(m@),
        },
        Some(ScalarKind::Double) => match reading.double {
            Ok(bits) => Ok(le_bytes(bits as int, 8)),
            Err(m) => Err(m@),
        },
        Some(ScalarKind::Bool) => Ok(
            seq![
                if ascii_lower(t) == "true"@ || ascii_lower(t) == "1"@ {
                    1u8
                } else {
                    0u8
                },
            ],
        ),
    }
}

fn refusal(text: &[char], kind: ScalarKind) -> (m: String)
    ensures
        m@ == text@ + " does not fit in "@ + int_ty_name(kind),
{
    let mut m = string_of(text);
    m.append(" does not fit in ");
    let name = int_ty_name_exec(kind);
    m.append(name.as_str());
    m
}

/// Encodes a typed value into its little-endian bytes.
///
/// Integer fields are decimal unless a `0x` prefix says otherwise, and `-0x10`
/// is -16. Hex fields and pointers are hex with or without the prefix.
pub fn encode_scalar(type_tag: &str, text: &str, reading: &RealReading) -> (r: Result<
    Vec<u8>,
    String,
>)
    ensures
        match r {
            Ok(b) => scalar_bytes(type_tag@, text@, *reading) == Ok::<Seq<u8>, Seq<char>>(b@),
            Err(m) => scalar_bytes(type_tag@, text@, *reading) == Err::<Seq<u8>, Seq<char>>(m@),
        },
{
    let chars = chars_of(text);
    let t = trim_exec(chars.as_slice());
    let negative = t.len() > 0 && t[0] == '-';
    let body = if negative {
        trim_start_exec(slice_subrange(t, 1, t.len()))
    } else {
        t
    };
    let prefixed = body.len() > 2 && body[0] == '0' && (body[1] == 'x' || body[1] == 'X');
    let digits = if prefixed {
        slice_subrange(body, 2, body.len())
    } else {
        body
    };
    let kind = match scalar_kind_exec(type_tag) {
        Some(k) => k,
        None => {
            let mut m = "'".to_string();
            m.append(type_tag);
            m.append("' is not directly writable");
            return Err(m);
        },
    };
    match kind {
        ScalarKind::Signed(w) => {
            let max: i64 = signed_max_exec(w);
            if prefixed {
                match parse_signed(digits, 16, max) {
                    Err(e) => Err(int_error_message(e)),
                    Ok(v) => if !negative {
                        Ok(to_le_signed(v, w))
                    } else if v >= -max {
                        Ok(to_le_signed(-v, w))
                    } else {
                        Err(refusal(t, kind))
                    },
                }
            } else {
                match parse_signed(t, 10, max) {
                    Err(e) => Err(int_error_message(e)),
                    Ok(v) => Ok(to_le_signed(v, w)),
                }
            }
        },
        ScalarKind::Unsigned(w) => {
            let max: u64 = unsigned_max_exec(w);
            if prefixed {
                match parse_unsigned(digits, 16, max) {
                    Err(e) => Err(int_error_message(e)),
                    Ok(v) => if !negative || v == 0 {
                        Ok(to_le(v, w))
                    } else {
                        Err(refusal(t, kind))
                    },
                }
            } else {
                match parse_unsigned(t, 10, max) {
                    Err(e) => Err(int_error_message(e)),
                    Ok(v) => Ok(to_le(v, w)),
                }
            }
        },
        ScalarKind::Hex(w) => {
            let max: u64 = unsigned_max_exec(w);
            match parse_unsigned(digits, 16, max) {
                Err(e) => Err(int_error_message(e)),
                Ok(v) => Ok(to_le(v, w)),
            }
        },
        ScalarKind::Single => match &reading.single {
            Ok(bits) => Ok(to_le(*bits as u64, 4)),
            Err(m) => Err(m.clone()),
        },
        ScalarKind::Double => match &reading.double {
            Ok(bits) => Ok(to_le(*bits, 8)),
            Err(m) => Err(m.clone()),
        },
        ScalarKind::Bool => {
            let low = ascii_lower_exec(t);
            let on = is_text(low.as_slice(), "true") || is_text(low.as_slice(), "1");
            let out: Vec<u8> = if on {
                vec![1u8]
            } else {
                vec![0u8]
            };
            assert(out@ =~= seq![
                if on {
                    1u8
                } else {
                    0u8
                },
            ]);
            Ok(out)
        },
    }
}

/// A truth value is written as one byte: true for "true" and "1", however the letters
/// are cased and whatever white space stands round them, and false for all else.
pub proof fn truth_is_written_as_one_byte(text: Seq<char>, reading: RealReading)
    ensures
        scalar_bytes("Bool"@, text, reading) matches Ok(b) && b.len() == 1 && (b[0] == 1 <==> (
        ascii_lower(trim(text)) == "true"@ || ascii_lower(trim(text)) == "1"@)) && b[0] <= 1,
{
    reveal_strlit("Bool");
    reveal_strlit("Int8");
    reveal_strlit("Int16");
    reveal_strlit("Int32");
    reveal_strlit("Int64");
    reveal_strlit("UInt8");
    reveal_strlit("UInt16");
    reveal_strlit("UInt32");
    reveal_strlit("UInt64");
    reveal_strlit("Hex8");
    reveal_strlit("Hex16");
    reveal_strlit("Hex32");
    reveal_strlit("Hex64");
    reveal_strlit("Pointer");
    reveal_strlit("Float");
    reveal_strlit("Double");
    assert("Bool"@[0] == 'B');
    assert("Int8"@[0] == 'I');
    assert("Hex8"@[0] == 'H');
}

/// The name of a field type spells how its value is written: as a signed, an unsigned or
/// a hex number of so many bits, or as a floating-point number.
pub proof fn type_tag_spells_its_value(tag: Seq<char>)
    ensures
        scalar_kind(tag) matches Some(k) ==> tag.len() > 0 && match k {
            ScalarKind::Signed(n) => tag[0] == 'I' && spells_width(tag, 3, n),
            ScalarKind::Unsigned(n) => tag[0] == 'U' && spells_width(tag, 4, n),
            ScalarKind::Hex(n) => (tag[0] == 'H' && spells_width(tag, 3, n)) || (tag[0] == 'P' && n
                == 8),
            ScalarKind::Single => tag[0] == 'F',
            ScalarKind::Double => tag[0] == 'D',
            ScalarKind::Bool => tag[0] == 'B',
        },
{
    reveal_strlit("Int8");
    reveal_strlit("Int16");
    reveal_strlit("Int32");
    reveal_strlit("Int64");
    reveal_strlit("UInt8");
    reveal_strlit("UInt16");
    reveal_strlit("UInt32");
    reveal_strlit("UInt64");
    reveal_strlit("Hex8");
    reveal_strlit("Hex16");
    reveal_strlit("Hex32");
    reveal_strlit("Hex64");
    reveal_strlit("Pointer");
    reveal_strlit("Float");
    reveal_strlit("Double");
    reveal_strlit("Bool");
}

/// From `at` on the name gives the number of bits that `n` bytes have.
pub open spec fn spells_width(name: Seq<char>, at: int, n: usize) -> bool {
    ||| n == 1 && name.len() == at + 1 && name[at] == '8'
    ||| n == 2 && name.len() == at + 2 && name[at] == '1' && name[at + 1] == '6'
    ||| n == 4 && name.len() == at + 2 && name[at] == '3' && name[at + 1] == '2'
    ||| n == 8 && name.len() == at + 2 && name[at] == '6' && name[at + 1] == '4'
}

} // verus!

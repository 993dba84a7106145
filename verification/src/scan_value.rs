//! Typed values in memory: their types, their bytes and their texts.
use vstd::prelude::*;
use vstd::slice::slice_subrange;

use crate::address::{
    int_error_message, int_error_text, prefixed_uint, prefixed_uint_exec, strip_hex_prefix,
};
use crate::bytes::{
    from_le, from_le_signed, le_bytes, le_signed, le_value, lemma_le_bytes_len, lemma_le_round_trip,
    lemma_le_value_bound,
    lemma_pow256_small, lemma_signed_round_trip, pow256, to_le, to_le_signed,
};
use crate::scalar::{
    signed_max, signed_max_exec, unsigned_max, unsigned_max_exec, RealReading,
};
use crate::text::{
    chars_of, decimal, decimal_exec, hex_bytes, hex_bytes_exec, lemma_parsed_range, parse_int_spec, parse_signed,
    same_str, signed_decimal, signed_decimal_exec, string_of, trim, trim_exec, IntError,
};

verus! {

/// The type of a value that is scanned for, shown or frozen.
#[derive(Clone, Copy, Debug, PartialEq, Eq, Structural)]
pub enum ScanValueType {
    I8,
    I16,
    I32,
    I64,
    U8,
    U16,
    U32,
    U64,
    F32,
    F64,
    Bytes,
    StringUtf8,
    StringUtf16,
}

/// How a value type is laid out.
#[derive(Clone, Copy, Debug, PartialEq, Eq, Structural)]
pub enum Layout {
    /// A signed integer of so many bytes.
    Signed(usize),
    /// An unsigned integer of so many bytes.
    Unsigned(usize),
    Single,
    Double,
    /// No fixed width.
    Open,
}

impl ScanValueType {
    pub open spec fn layout(self) -> Layout {
        match self {
            ScanValueType::I8 => Layout::Signed(1),
            ScanValueType::I16 => Layout::Signed(2),
            ScanValueType::I32 => Layout::Signed(4),
            ScanValueType::I64 => Layout::Signed(8),
            ScanValueType::U8 => Layout::Unsigned(1),
            ScanValueType::U16 => Layout::Unsigned(2),
            ScanValueType::U32 => Layout::Unsigned(4),
            ScanValueType::U64 => Layout::Unsigned(8),
            ScanValueType::F32 => Layout::Single,
            ScanValueType::F64 => Layout::Double,
            _ => Layout::Open,
        }
    }

    /// How many bytes a value takes, where that is fixed.
    pub open spec fn width(self) -> Option<usize> {
        match self.layout() {
            Layout::Signed(n) => Some(n),
            Layout::Unsigned(n) => Some(n),
            Layout::Single => Some(4),
            Layout::Double => Some(8),
            Layout::Open => None,
        }
    }

    pub fn layout_exec(self) -> (l: Layout)
        ensures
            l == self.layout(),
            match l {
                Layout::Signed(n) => n == 1 || n == 2 || n == 4 || n == 8,
                Layout::Unsigned(n) => n == 1 || n == 2 || n == 4 || n == 8,
                _ => true,
            },
    {
        match self {
            ScanValueType::I8 => Layout::Signed(1),
            ScanValueType::I16 => Layout::Signed(2),
            ScanValueType::I32 => Layout::Signed(4),
            ScanValueType::I64 => Layout::Signed(8),
            ScanValueType::U8 => Layout::Unsigned(1),
            ScanValueType::U16 => Layout::Unsigned(2),
            ScanValueType::U32 => Layout::Unsigned(4),
            ScanValueType::U64 => Layout::Unsigned(8),
            ScanValueType::F32 => Layout::Single,
            ScanValueType::F64 => Layout::Double,
            _ => Layout::Open,
        }
    }

    pub fn fixed_width(self) -> (w: Option<usize>)
        ensures
            w == self.width(),
            w matches Some(n) ==> n == 1 || n == 2 || n == 4 || n == 8,
    {
        match self.layout_exec() {
            Layout::Signed(n) => Some(n),
            Layout::Unsigned(n) => Some(n),
            Layout::Single => Some(4),
            Layout::Double => Some(8),
            Layout::Open => None,
        }
    }
}

/// All value types, in the order in which they are offered.
pub fn all_value_types() -> (all: Vec<ScanValueType>)
    ensures
        all@ == seq![
            ScanValueType::I8,
            ScanValueType::I16,
            ScanValueType::I32,
            ScanValueType::I64,
            ScanValueType::U8,
            ScanValueType::U16,
            ScanValueType::U32,
            ScanValueType::U64,
            ScanValueType::F32,
            ScanValueType::F64,
            ScanValueType::Bytes,
            ScanValueType::StringUtf8,
            ScanValueType::StringUtf16,
        ],
{
    let mut all: Vec<ScanValueType> = Vec::new();
    all.push(ScanValueType::I8);
    all.push(ScanValueType::I16);
    all.push(ScanValueType::I32);
    all.push(ScanValueType::I64);
    all.push(ScanValueType::U8);
    all.push(ScanValueType::U16);
    all.push(ScanValueType::U32);
    all.push(ScanValueType::U64);
    all.push(ScanValueType::F32);
    all.push(ScanValueType::F64);
    all.push(ScanValueType::Bytes);
    all.push(ScanValueType::StringUtf8);
    all.push(ScanValueType::StringUtf16);
    all
}

/// The tags that the scanner gives the types without a fixed width.
#[derive(Debug)]
pub struct TypeTags {
    pub bytes: String,
    pub utf8: String,
    pub utf16: String,
}

/// The numeric type that a tag names.
pub open spec fn numeric_type(tag: Seq<char>) -> Option<ScanValueType> {
    if tag == "i8"@ {
        Some(ScanValueType::I8)
    } else if tag == "i16"@ {
        Some(ScanValueType::I16)
    } else if tag == "i32"@ {
        Some(ScanValueType::I32)
    } else if tag == "i64"@ {
        Some(ScanValueType::I64)
    } else if tag == "u8"@ {
        Some(ScanValueType::U8)
    } else if tag == "u16"@ {
        Some(ScanValueType::U16)
    } else if tag == "u32"@ {
        Some(ScanValueType::U32)
    } else if tag == "u64"@ {
        Some(ScanValueType::U64)
    } else if tag == "f32"@ {
        Some(ScanValueType::F32)
    } else if tag == "f64"@ {
        Some(ScanValueType::F64)
    } else {
        None
    }
}

pub fn numeric_type_exec(tag: &str) -> (t: Option<ScanValueType>)
    ensures
        t == numeric_type(tag@),
{
    if same_str(tag, "i8") {
        Some(ScanValueType::I8)
    } else if same_str(tag, "i16") {
        Some(ScanValueType::I16)
    } else if same_str(tag, "i32") {
        Some(ScanValueType::I32)
    } else if same_str(tag, "i64") {
        Some(ScanValueType::I64)
    } else if same_str(tag, "u8") {
        Some(ScanValueType::U8)
    } else if same_str(tag, "u16") {
        Some(ScanValueType::U16)
    } else if same_str(tag, "u32") {
        Some(ScanValueType::U32)
    } else if same_str(tag, "u64") {
        Some(ScanValueType::U64)
    } else if same_str(tag, "f32") {
        Some(ScanValueType::F32)
    } else if same_str(tag, "f64") {
        Some(ScanValueType::F64)
    } else {
        None
    }
}

impl TypeTags {
    /// The type that a tag names.
    pub open spec fn of(self, tag: Seq<char>) -> Option<ScanValueType> {
        match numeric_type(tag) {
            Some(t) => Some(t),
            None => if tag == self.bytes@ {
                Some(ScanValueType::Bytes)
            } else if tag == self.utf8@ {
                Some(ScanValueType::StringUtf8)
            } else if tag == self.utf16@ {
                Some(ScanValueType::StringUtf16)
            } else {
                None
            },
        }
    }

    /// The tag of a type.
    pub open spec fn tag(self, t: ScanValueType) -> Seq<char> {
        match t {
            ScanValueType::I8 => "i8"@,
            ScanValueType::I16 => "i16"@,
            ScanValueType::I32 => "i32"@,
            ScanValueType::I64 => "i64"@,
            ScanValueType::U8 => "u8"@,
            ScanValueType::U16 => "u16"@,
            ScanValueType::U32 => "u32"@,
            ScanValueType::U64 => "u64"@,
            ScanValueType::F32 => "f32"@,
            ScanValueType::F64 => "f64"@,
            ScanValueType::Bytes => self.bytes@,
            ScanValueType::StringUtf8 => self.utf8@,
            ScanValueType::StringUtf16 => self.utf16@,
        }
    }

    pub fn from_tag(&self, tag: &str) -> (t: Option<ScanValueType>)
        ensures
            t == self.of(tag@),
    {
        match numeric_type_exec(tag) {
            Some(t) => Some(t),
            None => if same_str(tag, self.bytes.as_str()) {
                Some(ScanValueType::Bytes)
            } else if same_str(tag, self.utf8.as_str()) {
                Some(ScanValueType::StringUtf8)
            } else if same_str(tag, self.utf16.as_str()) {
                Some(ScanValueType::StringUtf16)
            } else {
                None
            },
        }
    }

    pub fn as_tag(&self, t: ScanValueType) -> (tag: String)
        ensures
            tag@ == self.tag(t),
    {
        match t {
            ScanValueType::I8 => "i8".to_string(),
            ScanValueType::I16 => "i16".to_string(),
            ScanValueType::I32 => "i32".to_string(),
            ScanValueType::I64 => "i64".to_string(),
            ScanValueType::U8 => "u8".to_string(),
            ScanValueType::U16 => "u16".to_string(),
            ScanValueType::U32 => "u32".to_string(),
            ScanValueType::U64 => "u64".to_string(),
            ScanValueType::F32 => "f32".to_string(),
            ScanValueType::F64 => "f64".to_string(),
            ScanValueType::Bytes => self.bytes.clone(),
            ScanValueType::StringUtf8 => self.utf8.clone(),
            ScanValueType::StringUtf16 => self.utf16.clone(),
        }
    }
}

/// A number that was read from memory.
#[derive(Clone, Copy, Debug, PartialEq, Eq, Structural)]
pub enum NumValue {
    /// Not a number.
    Null,
    Signed(i64),
    Unsigned(u64),
    /// A single-precision number, by its bits.
    Single(u32),
    /// A double-precision number, by its bits.
    Double(u64),
}

/// The number that the first bytes of `b` write in a type.
pub open spec fn number_in(vt: ScanValueType, b: Seq<u8>) -> NumValue {
    match vt.layout() {
        Layout::Signed(n) => NumValue::Signed(le_signed(b.subrange(0, n as int)) as i64),
        Layout::Unsigned(n) => NumValue::Unsigned(le_value(b.subrange(0, n as int)) as u64),
        Layout::Single => NumValue::Single(le_value(b.subrange(0, 4)) as u32),
        Layout::Double => NumValue::Double(le_value(b.subrange(0, 8)) as u64),
        Layout::Open => NumValue::Null,
    }
}

/// Reads a number out of little-endian bytes; types that are no numbers give
/// none.
pub fn bytes_to_json_num(vt: ScanValueType, b: &[u8]) -> (v: NumValue)
    requires
        vt.width() matches Some(n) ==> n <= b@.len(),
    ensures
        v == number_in(vt, b@),
{
    match vt.layout_exec() {
        Layout::Signed(n) => {
            let v: i64 = from_le_signed(slice_subrange(b, 0, n));
            NumValue::Signed(v)
        },
        Layout::Unsigned(n) => {
            let v: u64 = from_le(slice_subrange(b, 0, n));
            NumValue::Unsigned(v)
        },
        Layout::Single => {
            let s = slice_subrange(b, 0, 4);
            proof {
                lemma_pow256_small();
                lemma_le_value_bound(s@);
            }
            let v: u64 = from_le(s);
            NumValue::Single(v as u32)
        },
        Layout::Double => {
            let v: u64 = from_le(slice_subrange(b, 0, 8));
            NumValue::Double(v)
        },
        Layout::Open => NumValue::Null,
    }
}

/// The bytes that writing a text as a value of a type puts into memory; `None` for
/// a text that is no number, and for types that are none. Signed integers are written
/// in decimal and have to fit; unsigned ones may be written in hex, and only
/// their low bytes count.
pub open spec fn text_bytes(vt: ScanValueType, text: Seq<char>, reading: RealReading) -> Option<
    Seq<u8>,
> {
    match vt.layout() {
        Layout::Signed(n) => match parse_int_spec(
            trim(text),
            10,
            -signed_max(n) - 1,
            signed_max(n) as int,
        ) {
            Ok(v) => Some(le_bytes(v, n as nat)),
            Err(_) => None,
        },
        Layout::Unsigned(n) => match prefixed_uint(trim(text), u64::MAX as int) {
            Ok(v) => Some(le_bytes(v, n as nat)),
            Err(_) => None,
        },
        Layout::Single => match reading.single {
            Ok(bits) => Some(le_bytes(bits as int, 4)),
            Err(_) => None,
        },
        Layout::Double => match reading.double {
            Ok(bits) => Some(le_bytes(bits as int, 8)),
            Err(_) => None,
        },
        Layout::Open => None,
    }
}

/// The bytes of the value of a type that a text writes; `None` for a text that
/// writes no value of it, and for types that are no numbers. Unsigned integers may
/// be written in hex. A value that the type cannot hold is none.
pub open spec fn pinned_bytes(vt: ScanValueType, text: Seq<char>, reading: RealReading) -> Option<
    Seq<u8>,
> {
    match vt.layout() {
        Layout::Unsigned(n) => match prefixed_uint(trim(text), unsigned_max(n) as int) {
            Ok(v) => Some(le_bytes(v, n as nat)),
            Err(_) => None,
        },
        _ => text_bytes(vt, text, reading),
    }
}

/// Reads a typed value for pinning it. `reading` is what the trimmed text says
/// as a floating-point number.
pub fn value_text_to_bytes(vt: ScanValueType, text: &str, reading: &RealReading) -> (r: Option<
    Vec<u8>,
>)
    ensures
        match r {
            Some(b) => pinned_bytes(vt, text@, *reading) == Some(b@),
            None => pinned_bytes(vt, text@, *reading) is None,
        },
{
    if let Layout::Unsigned(n) = vt.layout_exec() {
        let c = chars_of(text);
        let trimmed = string_of(trim_exec(c.as_slice()));
        return match prefixed_uint_exec(trimmed.as_str(), unsigned_max_exec(n)) {
            Ok(v) => Some(to_le(v, n)),
            Err(_) => None,
        };
    }
    match write_value_bytes(vt, text, reading) {
        Ok(Some(b)) => Some(b),
        _ => None,
    }
}

/// The message about a text that writes no value of a type.
pub open spec fn text_error(vt: ScanValueType, text: Seq<char>, reading: RealReading) -> Seq<char> {
    match vt.layout() {
        Layout::Signed(n) => match parse_int_spec(
            trim(text),
            10,
            -signed_max(n) - 1,
            signed_max(n) as int,
        ) {
            Ok(_) => ""@,
            Err(e) => int_error_text(e),
        },
        Layout::Unsigned(_) => match prefixed_uint(trim(text), u64::MAX as int) {
            Ok(_) => ""@,
            Err(e) => int_error_text(e),
        },
        Layout::Single => match reading.single {
            Ok(_) => ""@,
            Err(m) => m@,
        },
        Layout::Double => match reading.double {
            Ok(_) => ""@,
            Err(m) => m@,
        },
        Layout::Open => ""@,
    }
}

/// The bytes that writing a typed value puts into memory; none for types that
/// are no numbers, which are not written.
pub fn write_value_bytes(vt: ScanValueType, text: &str, reading: &RealReading) -> (r: Result<
    Option<Vec<u8>>,
    String,
>)
    ensures
        match r {
            Ok(Some(b)) => text_bytes(vt, text@, *reading) == Some(b@),
            Ok(None) => vt.layout() == Layout::Open,
            Err(m) => vt.layout() != Layout::Open && text_bytes(vt, text@, *reading) is None && m@
                == text_error(vt, text@, *reading),
        },
{
    let c = chars_of(text);
    let t = trim_exec(c.as_slice());
    match vt.layout_exec() {
        Layout::Signed(n) => match parse_signed(t, 10, signed_max_exec(n)) {
            Ok(v) => Ok(Some(to_le_signed(v, n))),
            Err(e) => Err(int_error_message(e)),
        },
        Layout::Unsigned(n) => {
            let trimmed = string_of(t);
            match prefixed_uint_exec(trimmed.as_str(), u64::MAX) {
                Ok(v) => Ok(Some(to_le(v, n))),
                Err(e) => Err(int_error_message(e)),
            }
        },
        Layout::Single => match &reading.single {
            Ok(bits) => Ok(Some(to_le(*bits as u64, 4))),
            Err(m) => Err(m.clone()),
        },
        Layout::Double => match &reading.double {
            Ok(bits) => Ok(Some(to_le(*bits, 8))),
            Err(m) => Err(m.clone()),
        },
        Layout::Open => Ok(None),
    }
}

/// How bytes are shown as a value of a type. `real_text` is the text of the
/// floating-point number that they hold.
pub open spec fn shown_value(b: Seq<u8>, vt: ScanValueType, real_text: Seq<char>) -> Seq<char> {
    match vt.layout() {
        Layout::Signed(n) => if b.len() >= n {
            signed_decimal(le_signed(b.subrange(0, n as int)))
        } else {
            hex_bytes(b, " "@, true)
        },
        Layout::Unsigned(n) => if b.len() >= n {
            decimal(le_value(b.subrange(0, n as int)))
        } else {
            hex_bytes(b, " "@, true)
        },
        Layout::Single => if b.len() >= 4 {
            real_text
        } else {
            hex_bytes(b, " "@, true)
        },
        Layout::Double => if b.len() >= 8 {
            real_text
        } else {
            hex_bytes(b, " "@, true)
        },
        Layout::Open => hex_bytes(b, " "@, true),
    }
}

pub fn format_value_bytes(bytes: &[u8], vt: ScanValueType, real_text: &str) -> (s: String)
    ensures
        s@ == shown_value(bytes@, vt, real_text@),
{
    match vt.layout_exec() {
        Layout::Signed(n) => {
            if bytes.len() >= n {
                let v: i64 = from_le_signed(slice_subrange(bytes, 0, n));
                return string_of(signed_decimal_exec(v).as_slice());
            }
        },
        Layout::Unsigned(n) => {
            if bytes.len() >= n {
                let v: u64 = from_le(slice_subrange(bytes, 0, n));
                return string_of(decimal_exec(v).as_slice());
            }
        },
        Layout::Single => {
            if bytes.len() >= 4 {
                return real_text.to_string();
            }
        },
        Layout::Double => {
            if bytes.len() >= 8 {
                return real_text.to_string();
            }
        },
        Layout::Open => {},
    }
    hex_bytes_exec(bytes, " ", true)
}

/// A signed integer that was written is read back: the bytes of a decimal text
/// hold the number that the text writes.
pub proof fn signed_text_reads_back(vt: ScanValueType, text: Seq<char>, reading: RealReading)
    requires
        vt.layout() is Signed,
        text_bytes(vt, text, reading) is Some,
    ensures
        number_in(vt, text_bytes(vt, text, reading)->0) matches NumValue::Signed(v)
            && parse_int_spec(
            trim(text),
            10,
            -signed_max(vt.width()->0) - 1,
            signed_max(vt.width()->0) as int,
        ) == Ok::<int, IntError>(v as int),
{
    let n = vt.width()->0;
    let b = text_bytes(vt, text, reading)->0;
    let v = parse_int_spec(trim(text), 10, -signed_max(n) - 1, signed_max(n) as int)->Ok_0;
    lemma_parsed_range(trim(text), 10, -signed_max(n) - 1, signed_max(n) as int);
    lemma_le_bytes_len(v, n as nat);
    lemma_pow256_small();
    lemma_signed_round_trip(v, n as nat);
    assert(b.subrange(0, n as int) =~= b);
}

/// An unsigned integer that is pinned is read back: the bytes hold the very number
/// that the text writes, none of it is cut off.
pub proof fn pinned_number_reads_back(vt: ScanValueType, text: Seq<char>, reading: RealReading)
    requires
        vt.layout() is Unsigned,
        pinned_bytes(vt, text, reading) is Some,
    ensures
        number_in(vt, pinned_bytes(vt, text, reading)->0) matches NumValue::Unsigned(v)
            && prefixed_uint(trim(text), unsigned_max(vt.width()->0) as int) == Ok::<int, IntError>(
            v as int,
        ),
{
    let n = vt.width()->0;
    let max = unsigned_max(n) as int;
    let b = pinned_bytes(vt, text, reading)->0;
    let v = prefixed_uint(trim(text), max)->Ok_0;
    let t = trim(trim(text));
    lemma_parsed_range(t, 10, 0, max);
    if let Some(hex) = strip_hex_prefix(t) {
        lemma_parsed_range(hex, 16, 0, max);
    }
    lemma_le_bytes_len(v, n as nat);
    lemma_pow256_small();
    lemma_le_round_trip(v, n as nat);
    assert(0 <= v < pow256(n as nat));
    vstd::arithmetic::div_mod::lemma_small_mod(v as nat, pow256(n as nat));
    assert(b.subrange(0, n as int) =~= b);
}

} // verus!

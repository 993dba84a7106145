//! What is typed is what is written, and what is shown can be typed again.
use vstd::prelude::*;

use crate::address::{prefixed_uint, strip_hex_prefix};
use crate::bytes::{
    le_bytes, le_signed, le_value, lemma_le_bytes_len, lemma_le_round_trip, lemma_le_value_bound,
    lemma_le_write_back, lemma_pow256_small, lemma_signed_round_trip, pow256,
};
use crate::scalar::{scalar_bytes, scalar_kind, signed_max, typed_text, unsigned_max, RealReading, ScalarKind};
use crate::scan_value::{pinned_bytes, shown_value, Layout, ScanValueType};
use crate::text::{
    decimal, digit_value, digits_of, is_white, lemma_digits_are_digits, lemma_digits_round_trip,
    lemma_magnitude_range, magnitude, parse_int_spec, signed_decimal, skip, trim, trim_end,
    trim_start, IntError,
};

verus! {

proof fn lemma_magnitude_wider(s: Seq<char>, radix: int, max: int, wide: int, over: IntError)
    requires
        max <= wide,
        magnitude(s, radix, max, over) is Ok,
    ensures
        magnitude(s, radix, wide, over) == magnitude(s, radix, max, over),
    decreases s.len(),
{
    if s.len() > 0 {
        lemma_magnitude_wider(s.drop_last(), radix, max, wide, over);
    }
}

/// A number that is printed in decimal is read as that number where the range holds
/// it, and refused where it does not.
pub proof fn printed_number_parses_back(v: int, min: int, max: int)
    requires
        min <= 0 <= max,
        v < 0 ==> min < 0,
    ensures
        min <= v <= max ==> parse_int_spec(signed_decimal(v), 10, min, max) == Ok::<int, IntError>(
            v,
        ),
        !(min <= v <= max) ==> parse_int_spec(signed_decimal(v), 10, min, max) is Err,
{
    let s = signed_decimal(v);
    if v >= 0 {
        let d = decimal(v as nat);
        lemma_digits_are_digits(v as nat, 10, false);
        assert(digit_value(d[0], 10) is Some);
        assert(parse_int_spec(s, 10, min, max) == magnitude(d, 10, max, IntError::PosOverflow));
        lemma_decimal_magnitude(v as nat, max, IntError::PosOverflow);
    } else {
        let d = decimal((-v) as nat);
        lemma_digits_are_digits((-v) as nat, 10, false);
        assert(skip(s, 1) =~= d);
        lemma_decimal_magnitude((-v) as nat, -min, IntError::NegOverflow);
    }
}

proof fn lemma_decimal_magnitude(n: nat, max: int, over: IntError)
    requires
        0 <= max,
    ensures
        n <= max ==> magnitude(decimal(n), 10, max, over) == Ok::<int, IntError>(n as int),
        n > max ==> magnitude(decimal(n), 10, max, over) is Err,
{
    if n <= max {
        lemma_digits_round_trip(n, 10, false, max, over);
    } else if magnitude(decimal(n), 10, max, over) is Ok {
        lemma_digits_round_trip(n, 10, false, n as int, over);
        lemma_magnitude_range(decimal(n), 10, max, over);
        lemma_magnitude_wider(decimal(n), 10, max, n as int, over);
    }
}

proof fn lemma_no_white_ends(s: Seq<char>)
    requires
        s.len() > 0,
        !is_white(s[0]),
        !is_white(s.last()),
    ensures
        trim(s) == s,
{
    assert(trim_start(s) == s);
    assert(trim_end(s) == s);
}

proof fn lemma_decimal_is_trimmed(v: int)
    ensures
        trim(signed_decimal(v)) == signed_decimal(v),
        signed_decimal(v).len() > 0,
        v >= 0 ==> strip_hex_prefix(signed_decimal(v)) is None,
        !typed_text(signed_decimal(v)).prefixed,
{
    let n = (if v < 0 {
        -v
    } else {
        v
    }) as nat;
    let d = decimal(n);
    let s = signed_decimal(v);
    lemma_digits_are_digits(n, 10, false);
    assert(digit_value(d[0], 10) is Some);
    assert(digit_value(d[d.len() - 1], 10) is Some);
    assert(s.last() == d.last());
    lemma_no_white_ends(s);
    if d.len() > 1 {
        assert(digit_value(d[1], 10) is Some);
    }
    if v < 0 {
        assert(skip(s, 1) =~= d);
        assert(trim_start(d) == d);
    }
}

/// A value that an entry shows can be pinned: freezing an entry to what it shows
/// writes the very bytes that were read.
pub proof fn shown_value_pins_what_was_read(
    vt: ScanValueType,
    bytes: Seq<u8>,
    real_text: Seq<char>,
    reading: RealReading,
)
    requires
        vt.layout() is Signed || vt.layout() is Unsigned,
        vt.width() matches Some(w) && bytes.len() == w,
    ensures
        pinned_bytes(vt, shown_value(bytes, vt, real_text), reading) == Some(bytes),
{
    let w = vt.width()->0;
    assert(bytes.subrange(0, w as int) =~= bytes);
    lemma_pow256_small();
    lemma_le_value_bound(bytes);
    lemma_le_write_back(bytes);
    match vt.layout() {
        Layout::Signed(n) => {
            let v = le_signed(bytes);
            lemma_signed_bounds(bytes);
            lemma_decimal_is_trimmed(v);
            printed_number_parses_back(v, -signed_max(n) - 1, signed_max(n) as int);
            lemma_signed_write_back(bytes);
        },
        _ => {
            let v = le_value(bytes) as int;
            lemma_decimal_is_trimmed(v);
            printed_number_parses_back(v, 0, unsigned_max(w) as int);
            assert(signed_decimal(v) == decimal(v as nat));
            assert(prefixed_uint(trim(decimal(v as nat)), unsigned_max(w) as int) == Ok::<
                int,
                IntError,
            >(v));
        },
    }
}

proof fn lemma_signed_bounds(s: Seq<u8>)
    requires
        s.len() > 0,
    ensures
        -(pow256(s.len()) as int) <= 2 * le_signed(s) < pow256(s.len()),
{
    crate::bytes::lemma_le_value_top(s);
    lemma_le_value_bound(s);
}

proof fn lemma_signed_write_back(s: Seq<u8>)
    requires
        s.len() > 0,
    ensures
        le_bytes(le_signed(s), s.len()) == s,
{
    lemma_le_write_back(s);
    if s.last() >= 128 {
        crate::bytes::lemma_le_bytes_wrap(le_value(s) as int, -1, s.len());
        assert(le_value(s) + (-1) * pow256(s.len()) == le_signed(s)) by (nonlinear_arith)
            requires
                le_signed(s) == le_value(s) - pow256(s.len()),
        ;
    }
}

/// A number that is typed into a signed field is written as that number where the
/// field can hold it, and refused where it cannot.
pub proof fn typed_signed_number_is_written(
    tag: Seq<char>,
    bits: nat,
    v: int,
    reading: RealReading,
)
    requires
        (tag == "Int8"@ && bits == 8) || (tag == "Int16"@ && bits == 16) || (tag == "Int32"@ && bits
            == 32) || (tag == "Int64"@ && bits == 64),
    ensures
        ({
            let half = if bits == 8 {
                0x80int
            } else if bits == 16 {
                0x8000
            } else if bits == 32 {
                0x8000_0000
            } else {
                0x8000_0000_0000_0000
            };
            if -half <= v < half {
                scalar_bytes(tag, signed_decimal(v), reading) matches Ok(b) && 8 * b.len() == bits
                    && le_signed(b) == v
            } else {
                scalar_bytes(tag, signed_decimal(v), reading) is Err
            }
        }),
{
    lemma_tags();
    let w = (bits / 8) as usize;
    lemma_decimal_is_trimmed(v);
    printed_number_parses_back(v, -signed_max(w) - 1, signed_max(w) as int);
    lemma_pow256_small();
    lemma_le_bytes_len(v, w as nat);
    if -signed_max(w) - 1 <= v <= signed_max(w) {
        lemma_signed_round_trip(v, w as nat);
    }
}

/// A number that is typed into an unsigned field is written as that number where the
/// field can hold it, and refused where it cannot.
pub proof fn typed_unsigned_number_is_written(
    tag: Seq<char>,
    bits: nat,
    v: nat,
    reading: RealReading,
)
    requires
        (tag == "UInt8"@ && bits == 8) || (tag == "UInt16"@ && bits == 16) || (tag == "UInt32"@
            && bits == 32) || (tag == "UInt64"@ && bits == 64),
    ensures
        ({
            let end = if bits == 8 {
                0x100int
            } else if bits == 16 {
                0x1_0000
            } else if bits == 32 {
                0x1_0000_0000
            } else {
                0x1_0000_0000_0000_0000
            };
            if v < end {
                scalar_bytes(tag, decimal(v), reading) matches Ok(b) && 8 * b.len() == bits
                    && le_value(b) == v
            } else {
                scalar_bytes(tag, decimal(v), reading) is Err
            }
        }),
{
    lemma_tags();
    let w = (bits / 8) as usize;
    let n = v as int;
    lemma_decimal_is_trimmed(n);
    assert(signed_decimal(n) == decimal(v));
    printed_number_parses_back(n, 0, unsigned_max(w) as int);
    lemma_pow256_small();
    lemma_le_bytes_len(n, w as nat);
    lemma_le_round_trip(n, w as nat);
    if n <= unsigned_max(w) {
        vstd::arithmetic::div_mod::lemma_small_mod(v, pow256(w as nat));
    }
}

proof fn lemma_hex_is_trimmed(n: nat, upper: bool, max: int)
    requires
        n <= max,
    ensures
        ({
            let s = digits_of(n, 16, upper);
            &&& trim(s) == s
            &&& typed_text(s).digits == s
            &&& trim(seq!['0', 'x'] + s) == seq!['0', 'x'] + s
            &&& typed_text(seq!['0', 'x'] + s).digits == s
            &&& parse_int_spec(s, 16, 0, max) == Ok::<int, IntError>(n as int)
        }),
{
    let s = digits_of(n, 16, upper);
    lemma_digits_are_digits(n, 16, upper);
    lemma_digits_round_trip(n, 16, upper, max, IntError::PosOverflow);
    assert(digit_value(s[0], 16) is Some);
    assert(digit_value(s[s.len() - 1], 16) is Some);
    lemma_no_white_ends(s);
    if s.len() > 1 {
        assert(digit_value(s[1], 16) is Some);
    }
    let t = seq!['0', 'x'] + s;
    assert(t.last() == s.last());
    lemma_no_white_ends(t);
    assert(skip(t, 2) =~= s);
    assert(typed_text(t).digits =~= s);
    assert(typed_text(s).digits =~= s);
}

/// A hex number that is typed into a hex field or a pointer, with or without `0x` in
/// front, is written as that number.
pub proof fn typed_hex_number_is_written(
    tag: Seq<char>,
    bits: nat,
    v: nat,
    upper: bool,
    reading: RealReading,
)
    requires
        (tag == "Hex8"@ && bits == 8 && v < 0x100) || (tag == "Hex16"@ && bits == 16 && v
            < 0x1_0000) || (tag == "Hex32"@ && bits == 32 && v < 0x1_0000_0000) || ((tag
            == "Hex64"@ || tag == "Pointer"@) && bits == 64 && v < 0x1_0000_0000_0000_0000),
    ensures
        scalar_bytes(tag, digits_of(v, 16, upper), reading) matches Ok(b) && 8 * b.len() == bits
            && le_value(b) == v,
        scalar_bytes(tag, seq!['0', 'x'] + digits_of(v, 16, upper), reading) == scalar_bytes(
            tag,
            digits_of(v, 16, upper),
            reading,
        ),
{
    lemma_tags();
    let w = (bits / 8) as usize;
    lemma_hex_is_trimmed(v, upper, unsigned_max(w) as int);
    lemma_pow256_small();
    lemma_le_bytes_len(v as int, w as nat);
    lemma_le_round_trip(v as int, w as nat);
    vstd::arithmetic::div_mod::lemma_small_mod(v, pow256(w as nat));
}

/// A floating-point number that is typed is written as its bits.
pub proof fn typed_real_is_written(text: Seq<char>, reading: RealReading)
    ensures
        match reading.single {
            Ok(bits) => scalar_bytes("Float"@, text, reading) matches Ok(b) && b.len() == 4
                && le_value(b) == bits,
            Err(_) => scalar_bytes("Float"@, text, reading) is Err,
        },
        match reading.double {
            Ok(bits) => scalar_bytes("Double"@, text, reading) matches Ok(b) && b.len() == 8
                && le_value(b) == bits,
            Err(_) => scalar_bytes("Double"@, text, reading) is Err,
        },
{
    lemma_tags();
    lemma_pow256_small();
    if let Ok(bits) = reading.single {
        lemma_le_bytes_len(bits as int, 4);
        lemma_le_round_trip(bits as int, 4);
    }
    if let Ok(bits) = reading.double {
        lemma_le_bytes_len(bits as int, 8);
        lemma_le_round_trip(bits as int, 8);
    }
}

proof fn lemma_tags()
    ensures
        scalar_kind("Int8"@) == Some(ScalarKind::Signed(1)),
        scalar_kind("Int16"@) == Some(ScalarKind::Signed(2)),
        scalar_kind("Int32"@) == Some(ScalarKind::Signed(4)),
        scalar_kind("Int64"@) == Some(ScalarKind::Signed(8)),
        scalar_kind("UInt8"@) == Some(ScalarKind::Unsigned(1)),
        scalar_kind("UInt16"@) == Some(ScalarKind::Unsigned(2)),
        scalar_kind("UInt32"@) == Some(ScalarKind::Unsigned(4)),
        scalar_kind("UInt64"@) == Some(ScalarKind::Unsigned(8)),
        scalar_kind("Hex8"@) == Some(ScalarKind::Hex(1)),
        scalar_kind("Hex16"@) == Some(ScalarKind::Hex(2)),
        scalar_kind("Hex32"@) == Some(ScalarKind::Hex(4)),
        scalar_kind("Hex64"@) == Some(ScalarKind::Hex(8)),
        scalar_kind("Pointer"@) == Some(ScalarKind::Hex(8)),
        scalar_kind("Float"@) == Some(ScalarKind::Single),
        scalar_kind("Double"@) == Some(ScalarKind::Double),
        scalar_kind("Bool"@) == Some(ScalarKind::Bool),
{
    reveal_strlit("Int8");
    reveal_strlit("Int16");
    reveal_strlit("Int32");
    reveal_strlit("Int64");
    reveal_strlit("UInt8");
    reveal_strlit("UInt16");
    reveal_strlit("UInt32");
    reveal_strlit("UInt64");
    reveal_strlit("Hex8");
    reveal_strlit("Hex16");
    reveal_strlit("Hex32");
    reveal_strlit("Hex64");
    reveal_strlit("Pointer");
    reveal_strlit("Float");
    reveal_strlit("Double");
    reveal_strlit("Bool");
    let a = "Int16"@;
    let b = "Int32"@;
    let c = "Int64"@;
    assert(a[3] == '1' && b[3] == '3' && c[3] == '6');
    let d = "UInt8"@;
    assert(d[0] == 'U' && a[0] == 'I' && b[0] == 'I' && c[0] == 'I');
    let e = "UInt16"@;
    let f = "UInt32"@;
    let g = "UInt64"@;
    assert(e[4] == '1' && f[4] == '3' && g[4] == '6');
    let h = "Hex8"@;
    let i = "Int8"@;
    let t = "Bool"@;
    assert(h[0] == 'H' && i[0] == 'I' && t[0] == 'B');
    let j = "Hex16"@;
    let k = "Hex32"@;
    let l = "Hex64"@;
    assert(j[3] == '1' && k[3] == '3' && l[3] == '6' && j[0] == 'H' && k[0] == 'H' && l[0] == 'H');
    let m = "Float"@;
    let n = "Double"@;
    assert(m[0] == 'F' && n[0] == 'D' && e[0] == 'U' && f[0] == 'U' && g[0] == 'U');
}

} // verus!

//! What scripts write is what they read back.
use vstd::prelude::*;
use vstd::utf8::{decode_utf8, encode_utf8, valid_utf8};

use crate::bytes::{le_bytes, lemma_le_bytes_len, lemma_le_round_trip, lemma_pow256_small};
use crate::class_view::up_to_nul;
use crate::encoding::utf16_of;
use crate::host_mem::{
    byte_writes, field_value, field_writes, layout_of, lemma_no_zero_byte, lemma_no_zero_unit,
    numbers_in, read_bytes_step, read_number_step, read_values_step, reads_units, rip_target,
    string_writes, takes_link, unit_writes, value_bytes, value_writes, writes_bytes, writes_number,
    writes_values, written_integer_reads_back,
};
use crate::host_ops::{writes_view, FieldSpec, HostOp, HostStep, NumberForm, Reply, WriteView};
use crate::host_error::Misuse;
use crate::json::{
    addr_at, arg_at, int_of, member, member_in, number_of, real_of, size_at, str_of, text_at, uint_of,
    Json, JsonKind,
};
use crate::memory_model::{
    after_writes, apart, bytes_of, held, lemma_apart_write_is_held, lemma_equal_writes,
    lemma_held_part, lemma_spaced_write_is_held,
    lemma_spaced_writes_tile, tiled_writes_are_held, tiles,
};
use crate::scan_value::{number_in, NumValue, ScanValueType, TypeTags};

verus! {

/// How many bytes a number of a type takes; 0 for what is no number.
pub open spec fn type_size(vt: ScanValueType) -> nat {
    match vt {
        ScanValueType::I8 | ScanValueType::U8 => 1,
        ScanValueType::I16 | ScanValueType::U16 => 2,
        ScanValueType::I32 | ScanValueType::U32 | ScanValueType::F32 => 4,
        ScanValueType::I64 | ScanValueType::U64 | ScanValueType::F64 => 8,
        _ => 0,
    }
}

/// The value is a number that the type can hold.
pub open spec fn fits(vt: ScanValueType, v: Json) -> bool {
    match vt {
        ScanValueType::I8 => int_of(v) matches Ok(i) && -0x80 <= i < 0x80,
        ScanValueType::I16 => int_of(v) matches Ok(i) && -0x8000 <= i < 0x8000,
        ScanValueType::I32 => int_of(v) matches Ok(i) && -0x8000_0000 <= i < 0x8000_0000,
        ScanValueType::I64 => int_of(v) is Ok,
        ScanValueType::U8 => uint_of(v) matches Ok(u) && u < 0x100,
        ScanValueType::U16 => uint_of(v) matches Ok(u) && u < 0x1_0000,
        ScanValueType::U32 => uint_of(v) matches Ok(u) && u < 0x1_0000_0000,
        ScanValueType::U64 => uint_of(v) is Ok,
        ScanValueType::F32 | ScanValueType::F64 => number_of(v) is Ok,
        _ => false,
    }
}

/// `n` is the number that the value writes, in the type.
pub open spec fn is_value(vt: ScanValueType, v: Json, n: NumValue) -> bool {
    match vt {
        ScanValueType::I8 | ScanValueType::I16 | ScanValueType::I32 | ScanValueType::I64 => int_of(
            v,
        ) matches Ok(i) && n == NumValue::Signed(i),
        ScanValueType::U8 | ScanValueType::U16 | ScanValueType::U32 | ScanValueType::U64 => uint_of(
            v,
        ) matches Ok(u) && n == NumValue::Unsigned(u),
        ScanValueType::F32 => number_of(v) matches Ok(f) && n == NumValue::Single(f.single),
        ScanValueType::F64 => number_of(v) matches Ok(f) && n == NumValue::Double(f.double),
        _ => false,
    }
}

/// A number that is written is read back: its bytes are as many as the type has, and
/// hold the number itself.
pub proof fn written_number_reads_back(vt: ScanValueType, v: Json)
    requires
        fits(vt, v),
    ensures
        value_bytes(vt, v) matches Ok(b) && b.len() == type_size(vt) && is_value(
            vt,
            v,
            number_in(vt, b),
        ),
        vt.width() matches Some(w) && w == type_size(vt),
{
    let b = value_bytes(vt, v)->Ok_0;
    let n = type_size(vt);
    lemma_pow256_small();
    match vt {
        ScanValueType::I8 | ScanValueType::I16 | ScanValueType::I32 | ScanValueType::I64 => {
            lemma_le_bytes_len(int_of(v)->Ok_0 as int, n);
            written_integer_reads_back(vt, v);
        },
        ScanValueType::U8 | ScanValueType::U16 | ScanValueType::U32 | ScanValueType::U64 => {
            lemma_le_bytes_len(uint_of(v)->Ok_0 as int, n);
            written_integer_reads_back(vt, v);
        },
        ScanValueType::F32 => {
            let u = number_of(v)->Ok_0.single as int;
            lemma_le_bytes_len(u, n);
            lemma_le_round_trip(u, n);
            assert(b.subrange(0, n as int) =~= b);
        },
        _ => {
            let u = number_of(v)->Ok_0.double as int;
            lemma_le_bytes_len(u, n);
            lemma_le_round_trip(u, n);
            assert(b.subrange(0, n as int) =~= b);
        },
    }
}

proof fn lemma_spot(addr: usize, i: int, width: usize)
    requires
        0 <= i,
        width >= 1,
        addr + i * width <= usize::MAX,
    ensures
        addr.wrapping_add((i as usize).wrapping_mul(width)) == addr + i * width,
{
    assert(i <= i * width) by (nonlinear_arith)
        requires
            width >= 1,
            i >= 0,
    ;
    let k = i as usize;
    assert(k as nat * width as nat == i * width);
    vstd::arithmetic::div_mod::lemma_small_mod(
        (k as nat * width as nat) as nat,
        (usize::MAX + 1) as nat,
    );
}

proof fn lemma_value_writes(addr: usize, vt: ScanValueType, width: usize, s: Seq<Json>)
    requires
        width == type_size(vt),
        addr + s.len() * width <= usize::MAX + 1,
        forall|i: int| 0 <= i < s.len() ==> fits(vt, #[trigger] s[i]),
    ensures
        value_writes(addr, vt, width, s).error is None,
        value_writes(addr, vt, width, s).writes.len() == s.len(),
        forall|i: int|
            0 <= i < s.len() ==> {
                let w = #[trigger] value_writes(addr, vt, width, s).writes[i];
                w.addr == addr + i * width && value_bytes(vt, s[i]) == Ok::<
                    Seq<u8>,
                    crate::host_error::HostError,
                >(w.bytes) && w.bytes.len() == width
            },
    decreases s.len(),
{
    if s.len() > 0 {
        let rest = s.drop_last();
        let n = rest.len() as int;
        assert forall|i: int| 0 <= i < rest.len() implies fits(vt, #[trigger] rest[i]) by {
            assert(rest[i] == s[i]);
        }
        assert(s.len() * width == n * width + width) by (nonlinear_arith)
            requires
                s.len() == n + 1,
        ;
        lemma_value_writes(addr, vt, width, rest);
        assert(fits(vt, s[n]));
        written_number_reads_back(vt, s[n]);
        assert(n <= n * width) by (nonlinear_arith)
            requires
                width >= 1,
                n >= 0,
        ;
        lemma_spot(addr, n, width);
        let all = value_writes(addr, vt, width, s).writes;
        let before = value_writes(addr, vt, width, rest).writes;
        assert forall|i: int| 0 <= i < s.len() implies ({
            let w = #[trigger] all[i];
            w.addr == addr + i * width && value_bytes(vt, s[i]) == Ok::<
                Seq<u8>,
                crate::host_error::HostError,
            >(w.bytes) && w.bytes.len() == width
        }) by {
            if i < n {
                assert(all[i] == before[i]);
                assert(rest[i] == s[i]);
            }
        }
    }
}

/// Values that a script writes it reads back: the writes lie one behind the other,
/// leave the rest of the memory alone, and a script that then reads as many values of
/// the type at the same address is answered those values.
pub proof fn written_values_read_back(
    mem: spec_fn(int) -> u8,
    args: Json,
    again: Json,
    tags: TypeTags,
    step: HostStep,
    addr: usize,
    ty: String,
    vt: ScanValueType,
    values: Seq<Json>,
)
    requires
        addr_at(args, 0) == Ok::<usize, crate::json::ArgError>(addr),
        text_at(args, 1) == Ok::<String, crate::json::ArgError>(ty),
        arg_at(args, 2) matches Ok(v) && v.kind matches JsonKind::List(l) && l@ == values,
        tags.of(ty@) == Some(vt),
        forall|i: int| 0 <= i < values.len() ==> fits(vt, #[trigger] values[i]),
        type_size(vt) > 0,
        addr + values.len() * type_size(vt) <= usize::MAX + 1,
        writes_values(args, true, tags, step),
        addr_at(again, 0) == addr_at(args, 0),
        text_at(again, 1) == text_at(args, 1),
        size_at(again, 2) matches Ok(n) && n == values.len(),
        values.len() * type_size(vt) <= crate::host_error::MAX_SCRIPT_READ,
    ensures
        step matches HostStep::Ask(HostOp::Write { writes, then }) && {
            let now = after_writes(mem, writes_view(writes@));
            &&& then matches Ok(Reply::Count(n)) && n == values.len()
            &&& tiles(writes_view(writes@), addr as int)
            &&& forall|a: int|
                a < addr || addr + values.len() * type_size(vt) <= a ==> #[trigger] now(a) == mem(a)
            &&& read_values_step(again, true, tags) matches HostStep::Ask(
                HostOp::ReadValues { addr: at, vt: t, width, total },
            ) && {
                let read = numbers_in(t, width, held(now, at as int, total as nat));
                &&& read.len() == values.len()
                &&& forall|i: int|
                    0 <= i < values.len() ==> is_value(vt, values[i], #[trigger] read[i])
            }
        },
{
    let width = type_size(vt);
    lemma_type_width(vt);
    lemma_value_writes(addr, vt, width as usize, values);
    let w = value_writes(addr, vt, width as usize, values).writes;
    lemma_spaced_writes_tile(w, addr as int, width);
    lemma_equal_writes(w, width);
    tiled_writes_are_held(mem, w, addr as int);
    let now = after_writes(mem, w);
    let total = values.len() * width;
    let b = held(now, addr as int, total);
    assert(b == bytes_of(w));
    assert(total / width == values.len()) by {
        vstd::arithmetic::div_mod::lemma_div_by_multiple(values.len() as int, width as int);
    }
    let read = numbers_in(vt, width as usize, b);
    assert forall|i: int| 0 <= i < values.len() implies is_value(vt, values[i], #[trigger] read[i]) by {
        assert(fits(vt, values[i]));
        written_number_reads_back(vt, values[i]);
        let x = w[i];
        assert(b.subrange(i * width, i * width + width) == w[i].bytes);
    }
}

/// Each type takes the bytes that its name says.
pub proof fn lemma_type_width(vt: ScanValueType)
    ensures
        match vt.width() {
            Some(w) => w == type_size(vt) && w > 0,
            None => type_size(vt) == 0,
        },
{
}

/// A number that a script writes it reads back at the same address, and no other
/// byte changes.
pub proof fn written_number_is_answered(
    mem: spec_fn(int) -> u8,
    args: Json,
    again: Json,
    vt: ScanValueType,
    form: NumberForm,
    step: HostStep,
    addr: usize,
    v: Json,
)
    requires
        addr_at(args, 0) == Ok::<usize, crate::json::ArgError>(addr),
        arg_at(args, 1) == Ok::<Json, crate::json::ArgError>(v),
        fits(vt, v),
        writes_number(args, true, vt, step),
        addr_at(again, 0) == addr_at(args, 0),
    ensures
        step matches HostStep::Ask(HostOp::Write { writes, then }) && {
            let now = after_writes(mem, writes_view(writes@));
            &&& then == Ok::<Reply, crate::host_error::HostError>(Reply::Bool(true))
            &&& forall|a: int|
                a < addr || addr + type_size(vt) <= a ==> #[trigger] now(a) == mem(a)
            &&& read_number_step(again, true, vt, form) matches HostStep::Ask(
                HostOp::ReadNumber { addr: at, vt: t, form: f },
            ) && f == form && is_value(
                vt,
                v,
                number_in(t, held(now, at as int, type_size(vt))),
            )
        },
{
    written_number_reads_back(vt, v);
    let b = value_bytes(vt, v)->Ok_0;
    let w = seq![WriteView { addr, bytes: b }];
    assert(w.drop_last() =~= Seq::<WriteView>::empty());
    assert(bytes_of(w.drop_last()) =~= Seq::<u8>::empty());
    assert(w.last().bytes == b);
    assert(bytes_of(w) =~= b);
    assert(tiles(w, addr as int)) by {
        assert(w.subrange(0, 0) =~= Seq::<WriteView>::empty());
    }
    tiled_writes_are_held(mem, w, addr as int);
}

proof fn lemma_byte_writes(mem: spec_fn(int) -> u8, addr: usize, b: Seq<u8>)
    requires
        addr + b.len() <= usize::MAX + 1,
    ensures
        tiles(byte_writes(addr, b), addr as int),
        bytes_of(byte_writes(addr, b)) == b,
        held(after_writes(mem, byte_writes(addr, b)), addr as int, b.len()) == b,
        forall|a: int|
            a < addr || addr + b.len() <= a ==> #[trigger] after_writes(
                mem,
                byte_writes(addr, b),
            )(a) == mem(a),
{
    let w = byte_writes(addr, b);
    assert forall|k: int| 0 <= k < w.len() implies (#[trigger] w[k]).bytes.len() == 1 && w[k].addr
        == addr + k * 1 by {}
    lemma_spaced_writes_tile(w, addr as int, 1);
    lemma_equal_writes(w, 1);
    assert forall|k: int| 0 <= k < b.len() implies #[trigger] b[k] == bytes_of(w)[k] by {
        assert(bytes_of(w).subrange(k * 1, k * 1 + 1) == w[k].bytes);
        assert(bytes_of(w).subrange(k, k + 1)[0] == bytes_of(w)[k]);
    }
    assert(bytes_of(w) =~= b);
    tiled_writes_are_held(mem, w, addr as int);
}

/// Bytes that a script writes it reads back, and no other byte changes.
pub proof fn written_bytes_read_back(
    mem: spec_fn(int) -> u8,
    args: Json,
    again: Json,
    step: HostStep,
    addr: usize,
    list: Seq<Json>,
    bytes: Seq<u8>,
)
    requires
        addr_at(args, 0) == Ok::<usize, crate::json::ArgError>(addr),
        arg_at(args, 1) matches Ok(v) && v.kind matches JsonKind::List(l) && l@ == list,
        bytes.len() == list.len(),
        forall|i: int|
            0 <= i < list.len() ==> ((#[trigger] list[i]).kind matches JsonKind::Number(n)
                && n.unsigned == Some(bytes[i] as u64)),
        addr + list.len() <= usize::MAX + 1,
        list.len() <= crate::host_error::MAX_SCRIPT_READ,
        writes_bytes(args, true, step),
        addr_at(again, 0) == addr_at(args, 0),
        size_at(again, 1) matches Ok(n) && n == list.len(),
    ensures
        step matches HostStep::Ask(HostOp::Write { writes, then }) && {
            let now = after_writes(mem, writes_view(writes@));
            &&& then == Ok::<Reply, crate::host_error::HostError>(Reply::Bool(true))
            &&& forall|a: int| a < addr || addr + list.len() <= a ==> #[trigger] now(a) == mem(a)
            &&& read_bytes_step(again, true) matches HostStep::Ask(
                HostOp::ReadBytes { addr: at, len },
            ) && held(now, at as int, len as nat) == bytes
        },
{
    assert(crate::json::low_bytes(list) =~= bytes) by {
        assert forall|i: int| 0 <= i < list.len() implies crate::json::low_bytes(list)[i]
            == bytes[i] by {
            let x = list[i];
        }
    }
    lemma_byte_writes(mem, addr, bytes);
}

/// A text that a script writes is in memory with a zero behind it: what is read there
/// up to the first zero is the text, however many more bytes are read.
pub proof fn written_text_is_held(mem: spec_fn(int) -> u8, addr: usize, s: Seq<char>, len: nat)
    requires
        forall|i: int| 0 <= i < s.len() ==> s[i] as u32 != 0,
        addr + encode_utf8(s).len() + 1 <= usize::MAX + 1,
        len > encode_utf8(s).len(),
    ensures
        ({
            let now = after_writes(mem, string_writes(addr, s, false));
            let read = up_to_nul(held(now, addr as int, len));
            &&& valid_utf8(read)
            &&& decode_utf8(read) == s
            &&& forall|a: int|
                a < addr || addr + encode_utf8(s).len() + 1 <= a ==> #[trigger] now(a) == mem(a)
        }),
{
    let b = encode_utf8(s);
    lemma_byte_writes(mem, addr, b.push(0));
    lemma_no_zero_byte(s);
    let now = after_writes(mem, string_writes(addr, s, false));
    let all = held(now, addr as int, len);
    assert forall|i: int| 0 <= i < b.len() implies all[i] == b[i] by {
        assert(held(now, addr as int, b.push(0).len())[i] == b.push(0)[i]);
    }
    assert(all[b.len() as int] == 0) by {
        assert(held(now, addr as int, b.push(0).len())[b.len() as int] == 0);
    }
    lemma_cut_at_nul(all, b);
    vstd::utf8::encode_utf8_valid_utf8(s);
    vstd::utf8::encode_utf8_decode_utf8(s);
}

proof fn lemma_cut_at_nul(all: Seq<u8>, b: Seq<u8>)
    requires
        all.len() > b.len(),
        forall|i: int| 0 <= i < b.len() ==> all[i] == b[i] && b[i] != 0,
        all[b.len() as int] == 0,
    ensures
        up_to_nul(all) == b,
    decreases b.len(),
{
    if b.len() > 0 {
        let rest = all.subrange(1, all.len() as int);
        let tail = b.subrange(1, b.len() as int);
        assert forall|i: int| 0 <= i < tail.len() implies rest[i] == tail[i] && tail[i] != 0 by {
            assert(all[i + 1] == b[i + 1]);
        }
        lemma_cut_at_nul(rest, tail);
        assert(seq![b[0]] + tail =~= b);
        assert(up_to_nul(all) =~= b);
    } else {
        assert(up_to_nul(all) =~= b);
    }
}

/// The 16-bit unit that the memory holds at an address.
pub open spec fn unit_held(mem: spec_fn(int) -> u8, addr: int) -> u16 {
    (mem(addr) as int + 256 * mem(addr + 1) as int) as u16
}

/// A text that a script writes in 16-bit units is found unit by unit where a script
/// that reads it looks: each step of the reading asks for the place of the next unit,
/// and behind the last lies a zero.
pub proof fn written_units_are_found(
    mem: spec_fn(int) -> u8,
    addr: usize,
    s: Seq<char>,
    max: usize,
    n: nat,
    step: HostStep,
)
    requires
        forall|i: int| 0 <= i < s.len() ==> s[i] as u32 != 0,
        addr + 2 * (utf16_of(s).len() + 1) <= usize::MAX + 1,
        n <= utf16_of(s).len(),
        n < max,
        reads_units(addr, max, utf16_of(s).subrange(0, n as int), step),
    ensures
        step matches HostStep::Ask(HostOp::ReadUnit { at, addr: a, max: m, units }) && {
            let now = after_writes(mem, string_writes(addr, s, true));
            &&& a == addr && m == max && units@ == utf16_of(s).subrange(0, n as int)
            &&& unit_held(now, at as int) == if n < utf16_of(s).len() {
                utf16_of(s)[n as int]
            } else {
                0
            }
            &&& n < utf16_of(s).len() ==> unit_held(now, at as int) != 0
        },
{
    let u = utf16_of(s).push(0);
    lemma_no_zero_unit(s);
    lemma_spot(addr, n as int, 2);
    lemma_unit_held(mem, addr, u, n as int);
}

proof fn lemma_unit_held(mem: spec_fn(int) -> u8, addr: usize, u: Seq<u16>, k: int)
    requires
        0 <= k < u.len(),
        addr + 2 * u.len() <= usize::MAX + 1,
    ensures
        unit_held(after_writes(mem, unit_writes(addr, u)), addr + k * 2) == u[k],
{
    let w = unit_writes(addr, u);
    assert forall|k: int| 0 <= k < w.len() implies (#[trigger] w[k]).bytes.len() == 2 && w[k].addr
        == addr + k * 2 by {
        lemma_le_bytes_len(u[k] as int, 2);
        lemma_spot(addr, k, 2);
    }
    let now = after_writes(mem, w);
    lemma_spaced_write_is_held(mem, w, addr as int, 2, k);
    let two = held(now, addr + k * 2, 2);
    assert(two[0] == now(addr + k * 2) && two[1] == now(addr + k * 2 + 1));
    lemma_two_bytes(u[k], two);
}

proof fn lemma_two_bytes(u: u16, two: Seq<u8>)
    requires
        two == le_bytes(u as int, 2),
    ensures
        two.len() == 2,
        two[0] + 256 * two[1] == u,
{
    let v = u as int;
    assert(le_bytes(v / 256 / 256, 0) =~= Seq::<u8>::empty());
    assert(le_bytes(v / 256, 1) =~= seq![(v / 256 % 256) as u8]);
    assert(two =~= seq![(v % 256) as u8, (v / 256 % 256) as u8]);
}

proof fn lemma_field_writes(addr: usize, fields: Seq<FieldSpec>, values: Seq<(String, Json)>)
    requires
        forall|k: int|
            0 <= k < fields.len() ==> (member_in(values, (#[trigger] fields[k]).name@) matches Some(v)
                && fits(fields[k].vt, v)) && addr + fields[k].off <= usize::MAX,
    ensures
        field_writes(addr, fields, values).error is None,
        field_writes(addr, fields, values).writes.len() == fields.len(),
        forall|k: int|
            0 <= k < fields.len() ==> {
                let w = #[trigger] field_writes(addr, fields, values).writes[k];
                let v = member_in(values, fields[k].name@)->0;
                &&& w.addr == addr + fields[k].off
                &&& w.bytes.len() == type_size(fields[k].vt)
                &&& is_value(fields[k].vt, v, number_in(fields[k].vt, w.bytes))
            },
    decreases fields.len(),
{
    if fields.len() > 0 {
        let rest = fields.drop_last();
        assert forall|k: int| 0 <= k < rest.len() implies (member_in(
            values,
            (#[trigger] rest[k]).name@,
        ) matches Some(v) && fits(rest[k].vt, v)) && addr + rest[k].off <= usize::MAX by {
            assert(rest[k] == fields[k]);
        }
        lemma_field_writes(addr, rest, values);
        let n = fields.len() - 1;
        let f = fields[n];
        let v = member_in(values, f.name@)->0;
        assert(fits(f.vt, v));
        written_number_reads_back(f.vt, v);
        let all = field_writes(addr, fields, values).writes;
        let before = field_writes(addr, rest, values).writes;
        assert forall|k: int| 0 <= k < fields.len() implies ({
            let w = #[trigger] all[k];
            let v = member_in(values, fields[k].name@)->0;
            &&& w.addr == addr + fields[k].off
            &&& w.bytes.len() == type_size(fields[k].vt)
            &&& is_value(fields[k].vt, v, number_in(fields[k].vt, w.bytes))
        }) by {
            if k < n {
                assert(all[k] == before[k]);
                assert(rest[k] == fields[k]);
            }
        }
    }
}

/// A struct that a script writes it reads back: where its fields do not overlap, each
/// field that was given a value holds that value afterwards, at the offset of the
/// field.
pub proof fn written_struct_reads_back(
    mem: spec_fn(int) -> u8,
    addr: usize,
    fields: Seq<FieldSpec>,
    values: Seq<(String, Json)>,
    len: nat,
    k: int,
)
    requires
        0 <= k < fields.len(),
        forall|i: int|
            0 <= i < fields.len() ==> {
                &&& member_in(values, (#[trigger] fields[i]).name@) matches Some(v) && fits(
                    fields[i].vt,
                    v,
                )
                &&& fields[i].width == type_size(fields[i].vt)
                &&& fields[i].off + fields[i].width <= len
            },
        forall|i: int, j: int|
            0 <= i < j < fields.len() ==> (#[trigger] fields[i]).off + fields[i].width <= (
            #[trigger] fields[j]).off || fields[j].off + fields[j].width <= fields[i].off,
        addr + len <= usize::MAX,
    ensures
        ({
            let plan = field_writes(addr, fields, values);
            let now = after_writes(mem, plan.writes);
            let v = member_in(values, fields[k].name@)->0;
            &&& plan.error is None
            &&& plan.writes.len() == fields.len()
            &&& is_value(
                fields[k].vt,
                v,
                number_in(fields[k].vt, held(now, addr + fields[k].off, fields[k].width as nat)),
            )
            &&& is_value(fields[k].vt, v, field_value(fields[k], held(now, addr as int, len), 0))
        }),
{
    lemma_field_writes(addr, fields, values);
    let w = field_writes(addr, fields, values).writes;
    let now = after_writes(mem, w);
    assert forall|i: int, j: int| 0 <= i < j < w.len() implies apart(
        #[trigger] w[i],
        #[trigger] w[j],
    ) by {
        let a = fields[i];
        let b = fields[j];
        assert(a.off + a.width <= b.off || b.off + b.width <= a.off);
    }
    lemma_apart_write_is_held(mem, w, k);
    let f = fields[k];
    let x = w[k];
    lemma_held_part(now, addr as int, len, f.off as int, f.width as nat);
}

/// The fields of a layout lie one behind the other, the first at the start, unless
/// an entry says where its field lies.
pub proof fn layout_lies_one_behind_the_other(
    s: Seq<Json>,
    tags: TypeTags,
    no_name: Misuse,
    no_type: Misuse,
    k: int,
)
    requires
        layout_of(s, tags, no_name, no_type).error is None,
        0 <= k < s.len(),
    ensures
        ({
            let fields = layout_of(s, tags, no_name, no_type).fields;
            &&& fields.len() == s.len()
            &&& fields[k].width == type_size(fields[k].vt)
            &&& match real_of(member(Some(s[k]), "offset"@)) {
                Some(x) => fields[k].off == x.to_usize,
                None => if k == 0 {
                    fields[k].off == 0
                } else {
                    fields[k].off == fields[k - 1].off.wrapping_add(fields[k - 1].width)
                },
            }
            &&& str_of(member(Some(s[k]), "name"@)) == Some(fields[k].name)
            &&& str_of(member(Some(s[k]), "type"@)) matches Some(ty) && tags.of(ty@) == Some(
                fields[k].vt,
            )
        }),
    decreases s.len(),
{
    let rest = s.drop_last();
    let plan = layout_of(rest, tags, no_name, no_type);
    lemma_layout_len(rest, tags, no_name, no_type);
    lemma_layout_len(s, tags, no_name, no_type);
    if k < rest.len() {
        layout_lies_one_behind_the_other(rest, tags, no_name, no_type, k);
    } else {
        let f = layout_of(s, tags, no_name, no_type).fields[k];
        lemma_type_width(f.vt);
    }
}

proof fn lemma_layout_len(s: Seq<Json>, tags: TypeTags, no_name: Misuse, no_type: Misuse)
    ensures
        ({
            let plan = layout_of(s, tags, no_name, no_type);
            plan.error is None ==> plan.fields.len() == s.len() && plan.cursor == (if s.len() == 0 {
                0
            } else {
                plan.fields.last().off.wrapping_add(plan.fields.last().width)
            })
        }),
    decreases s.len(),
{
    if s.len() > 0 {
        lemma_layout_len(s.drop_last(), tags, no_name, no_type);
    }
}

/// Where a chain of pointers leads after its first `n` offsets, in a memory that holds
/// the pointers.
pub open spec fn chain_end(
    pointers: spec_fn(usize) -> usize,
    base: usize,
    offs: Seq<i64>,
    n: nat,
) -> int
    decreases n,
{
    if n == 0 {
        base as int
    } else {
        pointers(chain_end(pointers, base, offs, (n - 1) as nat) as usize) + offs[n - 1]
    }
}

/// A chain is followed pointer by pointer: each step reads the pointer where the chain
/// has led so far, the offset is added to what was read, and behind the last offset
/// the address is answered.
pub proof fn chain_is_followed(
    pointers: spec_fn(usize) -> usize,
    base: usize,
    offs: Seq<i64>,
    n: nat,
    step: HostStep,
    at: usize,
)
    requires
        n < offs.len(),
        forall|k: nat| k <= n + 1 ==> 0 <= #[trigger] chain_end(pointers, base, offs, k) <= usize::MAX,
        at == chain_end(pointers, base, offs, n),
        takes_link(offs, n as int, Ok(pointers(at)), step),
    ensures
        n + 1 < offs.len() ==> (step matches HostStep::Ask(HostOp::ReadLink { at, offsets, next })
            && at == chain_end(pointers, base, offs, n + 1) && offsets@ == offs && next == n + 1),
        n + 1 == offs.len() ==> (step matches HostStep::Done(Ok(Reply::Address(a))) && a
            == chain_end(pointers, base, offs, n + 1)),
{
    let e = chain_end(pointers, base, offs, n + 1);
    assert(0 <= e <= usize::MAX);
    assert(e == pointers(at) + offs[n as int]);
    vstd::arithmetic::div_mod::lemma_small_mod(e as nat, (usize::MAX + 1) as nat);
}

/// A displacement counts from the end of its instruction: with none the target is the
/// next instruction, and moving the displacement moves the target as far.
pub proof fn displacement_counts_from_the_next_instruction(
    insn: usize,
    len: usize,
    disp: i32,
)
    requires
        insn + len <= usize::MAX,
        0 <= insn + len + disp <= usize::MAX,
    ensures
        rip_target(insn, len, 0) == insn + len,
        rip_target(insn, len, disp) - rip_target(insn, len, 0) == disp,
{
    vstd::arithmetic::div_mod::lemma_small_mod((insn + len) as nat, (usize::MAX + 1) as nat);
    vstd::arithmetic::div_mod::lemma_small_mod((insn + len + disp) as nat, (usize::MAX + 1) as nat);
}

} // verus!

//! What a script reads: records, numbers by the name of the call, and the hits of a
//! scan.
use vstd::prelude::*;

use crate::host_mem::{
    are_records, field_value, read_method, reads_array, record_at, record_of,
    resolve_rip_step, slot_of, with_member, write_method,
};
use crate::host_ops::{FieldSpec, HostOp, HostStep, NumberForm, Reply};
use crate::host_scan::{
    answers_results, asks_values, compare_tagged, first_step, next_step, result_limit, scan_depth,
    ScanCompare, ScanSession, RESULTS_CAP,
};
use crate::json::{addr_at, opt_arg_at, opt_text, size_at, text_at, ArgError, Json, RealParts};
use crate::scan_value::{number_in, numeric_type, Layout, NumValue, ScanValueType, TypeTags};

verus! {

proof fn lemma_no_slot(obj: Seq<(String, NumValue)>, name: Seq<char>)
    requires
        forall|j: int| 0 <= j < obj.len() ==> (#[trigger] obj[j]).0@ != name,
    ensures
        slot_of(obj, name) is None,
    decreases obj.len(),
{
    if obj.len() > 0 {
        let rest = obj.drop_last();
        assert forall|j: int| 0 <= j < rest.len() implies (#[trigger] rest[j]).0@ != name by {
            assert(obj[j].0@ != name);
        }
        lemma_no_slot(rest, name);
        assert(obj[obj.len() - 1].0@ != name);
    }
}

/// No two fields have the same name.
pub open spec fn named_apart(fields: Seq<FieldSpec>) -> bool {
    forall|i: int, j: int|
        0 <= i < j < fields.len() ==> (#[trigger] fields[i]).name@ != (#[trigger] fields[j]).name@
}

proof fn lemma_record_at(fields: Seq<FieldSpec>, b: Seq<u8>, base: int, n: nat)
    requires
        n <= fields.len(),
        named_apart(fields),
    ensures
        record_at(fields, b, base, n).len() == n,
        forall|k: int|
            0 <= k < n ==> #[trigger] record_at(fields, b, base, n)[k] == (
                fields[k].name,
                field_value(fields[k], b, base),
            ),
    decreases n,
{
    if n > 0 {
        lemma_record_at(fields, b, base, (n - 1) as nat);
        let before = record_at(fields, b, base, (n - 1) as nat);
        assert forall|j: int| 0 <= j < before.len() implies (#[trigger] before[j]).0@ != fields[n
            - 1].name@ by {
            assert(fields[j].name@ != fields[n - 1].name@);
        }
        lemma_no_slot(before, fields[n - 1].name@);
    }
}

/// An array is read record by record: each record has its fields under their names, in
/// their order, each with the number that lies at the place of the field in the record,
/// and the records lie a stride apart.
pub proof fn array_is_read_record_by_record(
    out: Seq<Vec<(String, NumValue)>>,
    fields: Seq<FieldSpec>,
    stride: usize,
    b: Seq<u8>,
    i: int,
    k: int,
)
    requires
        are_records(out, fields, stride, b),
        stride > 0,
        named_apart(fields),
        0 <= i < out.len(),
        0 <= k < fields.len(),
        fields[k].off + fields[k].width <= stride,
    ensures
        out.len() * stride <= b.len() < (out.len() + 1) * stride,
        out[i]@.len() == fields.len(),
        out[i]@[k].0 == fields[k].name,
        out[i]@[k].1 == number_in(
            fields[k].vt,
            b.subrange(
                i * stride + fields[k].off,
                i * stride + fields[k].off + fields[k].width,
            ),
        ),
{
    lemma_record_at(fields, b, i * stride, fields.len());
    let n = out.len();
    let q = b.len() as int;
    let s = stride as int;
    assert(n * s <= q < (n + 1) * s) by (nonlinear_arith)
        requires
            n == q / s,
            s > 0,
            q >= 0,
    ;
    assert(i * s + s <= n * s) by (nonlinear_arith)
        requires
            0 <= i < n,
            s > 0,
    ;
}

proof fn lemma_record_of(fields: Seq<FieldSpec>, reads: Seq<Seq<u8>>, n: nat)
    requires
        n <= fields.len(),
        named_apart(fields),
    ensures
        record_of(fields, reads, n).len() == n,
        forall|k: int|
            0 <= k < n ==> (#[trigger] record_of(fields, reads, n)[k]).0 == fields[k].name && (
            reads[k].len() >= fields[k].width ==> record_of(fields, reads, n)[k].1 == number_in(
                fields[k].vt,
                reads[k],
            )) && (reads[k].len() < fields[k].width ==> record_of(fields, reads, n)[k].1
                == NumValue::Null),
    decreases n,
{
    if n > 0 {
        lemma_record_of(fields, reads, (n - 1) as nat);
        let before = record_of(fields, reads, (n - 1) as nat);
        assert forall|j: int| 0 <= j < before.len() implies (#[trigger] before[j]).0@ != fields[n
            - 1].name@ by {
            assert(fields[j].name@ != fields[n - 1].name@);
        }
        lemma_no_slot(before, fields[n - 1].name@);
    }
}

/// A struct is read field by field: each field is answered under its name with the
/// number that was read for it, or as nothing where too little was read.
pub proof fn struct_is_read_field_by_field(fields: Seq<FieldSpec>, reads: Seq<Seq<u8>>, k: int)
    requires
        named_apart(fields),
        reads.len() == fields.len(),
        0 <= k < fields.len(),
    ensures
        ({
            let r = record_of(fields, reads, fields.len());
            &&& r.len() == fields.len()
            &&& r[k].0 == fields[k].name
            &&& reads[k].len() >= fields[k].width ==> r[k].1 == number_in(fields[k].vt, reads[k])
            &&& reads[k].len() < fields[k].width ==> r[k].1 == NumValue::Null
        }),
{
    lemma_record_of(fields, reads, fields.len());
}

/// A field that a record has already is set anew and takes no second place.
pub proof fn set_member_is_found(
    obj: Seq<(String, NumValue)>,
    name: String,
    v: NumValue,
)
    ensures
        exists|j: int|
            0 <= j < with_member(obj, name, v).len() && (#[trigger] with_member(obj, name, v)[j]).0@
                == name@ && with_member(obj, name, v)[j].1 == v,
        with_member(obj, name, v).len() <= obj.len() + 1,
{
    lemma_slot(obj, name@);
    let j = match slot_of(obj, name@) {
        Some(i) => i,
        None => obj.len() as int,
    };
    assert(with_member(obj, name, v)[j].0@ == name@);
}

proof fn lemma_slot(obj: Seq<(String, NumValue)>, name: Seq<char>)
    ensures
        slot_of(obj, name) matches Some(i) ==> 0 <= i < obj.len() && obj[i].0@ == name,
    decreases obj.len(),
{
    if obj.len() > 0 {
        lemma_slot(obj.drop_last(), name);
    }
}

/// An array is read whole: as many bytes as its records take together, at its address.
pub proof fn array_is_read_whole(
    args: Json,
    tags: TypeTags,
    step: HostStep,
    a: usize,
    count: usize,
)
    requires
        reads_array(args, true, tags, step),
        step is Ask,
        addr_at(args, 0) == Ok::<usize, ArgError>(a),
        size_at(args, 2) == Ok::<usize, ArgError>(count),
    ensures
        step matches HostStep::Ask(HostOp::ReadArray { addr, total, stride, fields }) && addr == a
            && stride > 0 && total == count * stride,
{
}

/// The displacement of an instruction is read inside it, and the instruction keeps its
/// place and its length.
pub proof fn displacement_is_read_inside(args: Json, insn: usize, off: usize, len: usize)
    requires
        addr_at(args, 0) == Ok::<usize, ArgError>(insn),
        size_at(args, 1) == Ok::<usize, ArgError>(off),
        size_at(args, 2) == Ok::<usize, ArgError>(len),
        insn + off <= usize::MAX,
    ensures
        resolve_rip_step(args, true) matches HostStep::Ask(HostOp::ReadRip { at, insn: i, instr_len })
            && at - i == off && i == insn && instr_len == len,
        resolve_rip_step(args, false) is Done,
{
    vstd::arithmetic::div_mod::lemma_small_mod((insn + off) as nat, (usize::MAX + 1) as nat);
}

/// `name` ends with the number of bits of the type and says before it whether the type
/// is signed, unsigned or floating.
pub open spec fn spells(name: Seq<char>, at: int, vt: ScanValueType) -> bool {
    &&& at < name.len()
    &&& match vt.layout() {
        Layout::Signed(_) => name[at] == 'I' || name[at] == 'i',
        Layout::Unsigned(_) => name[at] == 'U' || name[at] == 'u',
        Layout::Single => name[at] == 'F' || name[at] == 'f',
        Layout::Double => name[at] == 'F' || name[at] == 'f',
        Layout::Open => false,
    }
    &&& match vt.width() {
        Some(1) => name.len() == at + 2 && name[at + 1] == '8',
        Some(2) => name.len() == at + 3 && name[at + 1] == '1' && name[at + 2] == '6',
        Some(4) => name.len() == at + 3 && name[at + 1] == '3' && name[at + 2] == '2',
        Some(8) => name.len() >= at + 3 && name[at + 1] == '6' && name[at + 2] == '4',
        _ => false,
    }
}

/// A call writes the type that its name spells.
pub proof fn write_call_spells_its_type(method: Seq<char>)
    ensures
        write_method(method) matches Some(vt) ==> spells(method, 9, vt),
{
    reveal_strlit("mem.writeI8");
    reveal_strlit("mem.writeI16");
    reveal_strlit("mem.writeI32");
    reveal_strlit("mem.writeI64");
    reveal_strlit("mem.writeU8");
    reveal_strlit("mem.writeU16");
    reveal_strlit("mem.writeU32");
    reveal_strlit("mem.writeU64");
    reveal_strlit("mem.writeF32");
    reveal_strlit("mem.writeF64");
}

/// A call reads the type that its name spells, and answers in decimal just where its
/// name asks for a text.
pub proof fn read_call_spells_its_type(method: Seq<char>)
    ensures
        read_method(method) matches Some((vt, form)) ==> spells(method, 8, vt) && (form
            == NumberForm::Decimal <==> method.last() == 'r'),
{
    reveal_strlit("mem.readI8");
    reveal_strlit("mem.readI16");
    reveal_strlit("mem.readI32");
    reveal_strlit("mem.readI64");
    reveal_strlit("mem.readU8");
    reveal_strlit("mem.readU16");
    reveal_strlit("mem.readU32");
    reveal_strlit("mem.readU64");
    reveal_strlit("mem.readU64Str");
    reveal_strlit("mem.readF32");
    reveal_strlit("mem.readF64");
}

/// The name of a number type spells it.
pub proof fn type_name_spells_its_type(tag: Seq<char>)
    ensures
        numeric_type(tag) matches Some(vt) ==> spells(tag, 0, vt),
{
    reveal_strlit("i8");
    reveal_strlit("i16");
    reveal_strlit("i32");
    reveal_strlit("i64");
    reveal_strlit("u8");
    reveal_strlit("u16");
    reveal_strlit("u32");
    reveal_strlit("u64");
    reveal_strlit("f32");
    reveal_strlit("f64");
}

proof fn lemma_compare(all: Seq<ScanCompare>, tag: Seq<char>)
    ensures
        compare_tagged(all, tag) matches Some(i) ==> 0 <= i < all.len() && all[i].tag@ == tag,
    decreases all.len(),
{
    if all.len() > 0 {
        lemma_compare(all.drop_last(), tag);
    }
}

/// A first scan compares as it was asked to, in the type that was named, and hands on a
/// value just where the comparison wants one.
pub proof fn first_scan_compares_as_asked(args: Json, tags: TypeTags, compares: Seq<ScanCompare>)
    requires
        first_step(args, tags, compares) is Ask,
        0 < compares.len() <= usize::MAX,
    ensures
        first_step(args, tags, compares) matches HostStep::Ask(
            HostOp::FirstScan { vt, compare, value },
        ) && {
            &&& compare < compares.len()
            &&& text_at(args, 0) matches Ok(ty) && tags.of(ty@) == Some(vt)
            &&& opt_text(opt_arg_at(args, 2)) matches Some(tag) ==> compares[compare as int].tag@
                == tag@
            &&& opt_text(opt_arg_at(args, 2)) is None ==> compare == 0
            &&& !compares[compare as int].needs_previous
            &&& value is Some <==> compares[compare as int].needs_needle
            &&& value is Some ==> value == opt_text(opt_arg_at(args, 1))
        },
{
    if let Some(tag) = opt_text(opt_arg_at(args, 2)) {
        lemma_compare(compares, tag@);
    }
}

/// A further scan compares as it was asked to and goes on from what was found.
pub proof fn next_scan_compares_as_asked(
    args: Json,
    compares: Seq<ScanCompare>,
    session: Option<ScanSession>,
)
    requires
        next_step(args, compares, session) is Ask,
        compares.len() <= usize::MAX,
    ensures
        session is Some,
        next_step(args, compares, session) matches HostStep::Ask(
            HostOp::NextScan { compare, value },
        ) && {
            &&& compare < compares.len()
            &&& text_at(args, 0) matches Ok(tag) && compares[compare as int].tag@ == tag@
            &&& !compares[compare as int].baseline
            &&& value is Some <==> compares[compare as int].needs_needle
            &&& value is Some ==> value == opt_text(opt_arg_at(args, 1))
        },
{
    if let Ok(tag) = text_at(args, 0) {
        lemma_compare(compares, tag@);
    }
}

/// The hits of a scan are answered from the first on, as many as were asked for and are
/// there.
pub proof fn hits_are_answered_from_the_first(
    args: Json,
    session: ScanSession,
    step: HostStep,
    max: usize,
    k: int,
)
    requires
        answers_results(args, Some(session), step),
        result_limit(args) == Ok::<usize, ArgError>(max),
        0 <= k < session.hits@.len(),
        k < max,
    ensures
        max <= RESULTS_CAP,
        step matches HostStep::Done(Ok(Reply::Addresses(a))) && k < a@.len() <= max && a@.len()
            <= session.hits@.len() && a@[k] == session.hits@[k].address,
{
}

/// The depth of a pointer scan stays in its bounds, and what was asked for inside them is
/// taken as it is.
pub proof fn scan_depth_is_bounded(asked: Option<RealParts>)
    ensures
        1 <= scan_depth(asked) <= 12,
        asked matches Some(f) ==> 1 <= f.to_usize <= 12 ==> scan_depth(asked) == f.to_usize,
{
}

/// Reads are bounded, and what was asked for inside the bounds is read as asked.
pub proof fn reads_are_bounded(max: usize)
    ensures
        crate::host_mem::capped(max) <= crate::host_error::MAX_SCRIPT_READ,
        max <= crate::host_error::MAX_SCRIPT_READ ==> crate::host_mem::capped(max) == max,
{
}

/// A text is read in wide characters just where the script asks for them by name.
pub proof fn wide_text_is_asked_for(enc: String)
    ensures
        crate::host_mem::is_wide(Some(enc)) <==> crate::text::ascii_lower(enc@)
            == crate::text::ascii_lower("utf16"@),
        !crate::host_mem::is_wide(None),
{
}

/// Enough bytes are read for the instructions that were asked for, at the address.
pub proof fn enough_bytes_are_decoded(args: Json, addr: usize, count: usize)
    requires
        addr_at(args, 0) == Ok::<usize, ArgError>(addr),
        opt_arg_at(args, 1) matches Some(v) && (crate::json::number_of(v) matches Ok(f)
            && f.to_usize == count),
        count * crate::host_disasm::MAX_INSTRUCTION <= usize::MAX,
    ensures
        crate::host_disasm::at_step(args, true) matches HostStep::Ask(
            HostOp::Disassemble { addr: a, bytes, count: n },
        ) && a == addr && n == count && bytes == count * crate::host_disasm::MAX_INSTRUCTION,
{
}

/// A pointer scan looks for the address that was asked for, within the bounds that were
/// given.
pub proof fn pointer_scan_looks_for_the_address(
    args: Json,
    process: Option<crate::host_proc::Target>,
    opts: Option<Json>,
    class: Option<Option<String>>,
    addr: usize,
)
    requires
        addr_at(args, 0) == Ok::<usize, ArgError>(addr),
        crate::host_scan::pointer_step(args, process, opts, class) is Ask,
    ensures
        crate::host_scan::pointer_step(args, process, opts, class) matches HostStep::Ask(
            HostOp::PointerScan { goal, max_depth, max_offset, class: c },
        ) && {
            &&& goal == addr
            &&& c == class
            &&& 1 <= max_depth <= 12
            &&& crate::json::real_of(crate::json::member(opts, "maxOffset"@)) matches Some(f)
                ==> max_offset == f.to_usize
            &&& crate::json::real_of(crate::json::member(opts, "maxDepth"@)) matches Some(f) ==> (1
                <= f.to_usize <= 12 ==> max_depth == f.to_usize)
        },
{
}

/// A path that is scanned again starts where the script says, with the offsets that it
/// gives, in their order.
pub proof fn path_is_scanned_as_described(
    v: Json,
    p: Option<crate::host_ops::PathStart>,
    f: RealParts,
    s: Vec<Json>,
    k: int,
)
    requires
        crate::host_scan::describes_path(v, p),
        crate::json::real_of(crate::json::member(Some(v), "base"@)) == Some(f),
        crate::json::member(Some(v), "offsets"@) matches Some(o) && o.kind
            == crate::json::JsonKind::List(s),
        forall|j: int| 0 <= j < s@.len() ==> crate::json::real_of(Some(#[trigger] s@[j])) is Some,
        0 <= k < s@.len(),
    ensures
        p matches Some(q) && q.base == f.to_usize && q.offsets@.len() == s@.len() && q.offsets@[k]
            == crate::json::real_of(Some(s@[k]))->Some_0.to_isize,
{
    lemma_signed_sizes(s@, k);
}

proof fn lemma_signed_sizes(s: Seq<Json>, k: int)
    requires
        forall|j: int| 0 <= j < s.len() ==> crate::json::real_of(Some(#[trigger] s[j])) is Some,
        0 <= k < s.len(),
    ensures
        crate::host_scan::signed_sizes(s).len() == s.len(),
        crate::host_scan::signed_sizes(s)[k] == crate::json::real_of(Some(s[k]))->Some_0.to_isize,
    decreases s.len(),
{
    let rest = s.drop_last();
    assert forall|j: int| 0 <= j < rest.len() implies crate::json::real_of(
        Some(#[trigger] rest[j]),
    ) is Some by {
        assert(crate::json::real_of(Some(s[j])) is Some);
    }
    assert(crate::json::real_of(Some(s[s.len() - 1])) is Some);
    if rest.len() > 0 {
        lemma_signed_sizes(
            rest,
            if k < rest.len() {
                k
            } else {
                0
            },
        );
    }
}

/// The hits whose values are read are those that are answered, in the type of the scan.
pub proof fn values_are_read_at_the_hits(
    args: Json,
    session: ScanSession,
    step: HostStep,
    answer: HostStep,
    max: usize,
)
    requires
        asks_values(args, Some(session), step),
        answers_results(args, Some(session), answer),
        result_limit(args) == Ok::<usize, ArgError>(max),
    ensures
        step matches HostStep::Ask(HostOp::ReadHits { vt, addresses }) && vt == session.vt && (
        answer matches HostStep::Done(Ok(Reply::Addresses(a))) && a@ == addresses@),
{
}

} // verus!

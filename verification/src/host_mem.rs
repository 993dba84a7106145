//! The calls from scripts that read and write the target's memory.
use vstd::arithmetic::div_mod::{
    lemma_fundamental_div_mod, lemma_fundamental_div_mod_converse, lemma_small_mod,
};
use vstd::arithmetic::mul::lemma_mul_is_commutative;
use vstd::prelude::*;
use vstd::slice::slice_subrange;
use vstd::string::StrSliceExecFns;
use vstd::utf8::{
    decode_utf8, encode_scalar, encode_utf8, encode_utf8_decode_utf8, encode_utf8_valid_utf8, valid_utf8,
};

use crate::bytes::{
    le_bytes, le_value, lemma_le_bytes_len, lemma_le_round_trip, lemma_pow256_small, lemma_signed_round_trip, pow256,
    to_le, to_le_signed,
};
use crate::scalar::{signed_max, unsigned_max};
use crate::class_view::{nul_position, up_to_nul};
use crate::encoding::{
    encode_utf16, is_utf16_text, lossy_utf8, utf16_lossy, utf16_of, utf16_of_char, utf8_lossy,
};
use crate::host_error::{HostError, Misuse, Stage, MAX_SCRIPT_READ};
use crate::host_ops::{
    writes_view, FieldSpec, HostOp, HostStep, MemWrite, NumberForm, Reply, WriteView,
};
use crate::json::{
    addr_arg, addr_at, all_ints, all_low_bytes, arg, arg_at, as_i64, as_real, as_u64_flex,
    find_member, get, int_of, ints_of, low_bytes, member, member_in, number_of, opt_arg,
    opt_arg_at, opt_text, opt_text_arg, real_of, real_value, size_arg, size_at, str_of, str_value,
    text_arg, text_at, uint_of, Json, JsonKind,
};
use crate::process_reader::{same_ignoring_case, same_ignoring_case_exec};
use crate::scan_value::{bytes_to_json_num, number_in, Layout, NumValue, ScanValueType, TypeTags};
use crate::text::{decimal, decimal_exec, same_str, string_of};

verus! {

/// `n` as an address: addresses wrap around.
pub open spec fn wrapped(n: int) -> usize {
    (n % (usize::MAX + 1)) as usize
}

/// Adds an offset to an address, which wraps around.
pub fn wrap_sum(a: usize, b: i64) -> (r: usize)
    ensures
        r == wrapped(a + b),
{
    let m: u128 = usize::MAX as u128 + 1;
    let s: i128 = a as i128 + b as i128;
    if s >= 0 {
        let k: u128 = s as u128 % m;
        k as usize
    } else {
        let k: u128 = (-s) as u128 % m;
        proof {
            let t = -(s as int);
            let mm = m as int;
            let q = t / mm;
            let r = t % mm;
            lemma_fundamental_div_mod(t, mm);
            if r == 0 {
                assert(-t == (-q) * mm + 0) by (nonlinear_arith)
                    requires
                        t == mm * q,
                ;
                lemma_fundamental_div_mod_converse(-t, mm, -q, 0);
            } else {
                assert(-t == (-q - 1) * mm + (mm - r)) by (nonlinear_arith)
                    requires
                        t == mm * q + r,
                ;
                lemma_fundamental_div_mod_converse(-t, mm, -q - 1, mm - r);
            }
        }
        if k == 0 {
            0
        } else {
            (m - k) as usize
        }
    }
}

/// The not-attached error.
pub open spec fn not_attached() -> HostStep {
    HostStep::Done(Err(HostError::Misuse(Misuse::NotAttached)))
}

fn fail(e: HostError) -> (s: HostStep)
    ensures
        s == HostStep::Done(Err::<Reply, HostError>(e)),
{
    HostStep::Done(Err(e))
}

fn misuse(m: Misuse) -> (s: HostStep)
    ensures
        s == HostStep::Done(Err::<Reply, HostError>(HostError::Misuse(m))),
{
    HostStep::Done(Err(HostError::Misuse(m)))
}

/// `mem.readBytes(addr, len)`.
pub open spec fn read_bytes_step(args: Json, attached: bool) -> HostStep {
    match (addr_at(args, 0), size_at(args, 1)) {
        (Err(e), _) => HostStep::Done(Err(HostError::Arg(e))),
        (Ok(_), Err(e)) => HostStep::Done(Err(HostError::Arg(e))),
        (Ok(addr), Ok(len)) => if len > MAX_SCRIPT_READ {
            HostStep::Done(Err(HostError::ReadTooLong(len)))
        } else if !attached {
            not_attached()
        } else {
            HostStep::Ask(HostOp::ReadBytes { addr, len })
        },
    }
}

pub fn read_bytes(args: &Json, attached: bool) -> (step: HostStep)
    ensures
        step == read_bytes_step(*args, attached),
{
    let addr: usize = match addr_arg(args, 0) {
        Ok(a) => a,
        Err(e) => return fail(HostError::Arg(e)),
    };
    let len: usize = match size_arg(args, 1) {
        Ok(n) => n,
        Err(e) => return fail(HostError::Arg(e)),
    };
    if len > MAX_SCRIPT_READ {
        return fail(HostError::ReadTooLong(len));
    }
    if !attached {
        return misuse(Misuse::NotAttached);
    }
    HostStep::Ask(HostOp::ReadBytes { addr, len })
}

/// Answers `mem.readBytes` with what was read.
pub fn finish_read_bytes(read: Result<Vec<u8>, String>) -> (r: Result<Reply, HostError>)
    ensures
        r == match read {
            Ok(b) => Ok::<Reply, HostError>(Reply::Bytes(b)),
            Err(e) => Err::<Reply, HostError>(HostError::Failed(Stage::Read, e)),
        },
{
    match read {
        Ok(b) => Ok(Reply::Bytes(b)),
        Err(e) => Err(HostError::Failed(Stage::Read, e)),
    }
}

/// The step asks for exactly these writes and is then over with `then`.
pub open spec fn writes_then(
    step: HostStep,
    w: Seq<WriteView>,
    then: Result<Reply, HostError>,
) -> bool {
    step matches HostStep::Ask(HostOp::Write { writes, then: t }) && writes_view(writes@) == w && t
        == then
}

/// One write per byte, each at the next address.
pub open spec fn byte_writes(addr: usize, b: Seq<u8>) -> Seq<WriteView> {
    Seq::new(
        b.len(),
        |i: int| WriteView { addr: addr.wrapping_add(i as usize), bytes: seq![b[i]] },
    )
}

fn single_writes(addr: usize, b: &[u8]) -> (w: Vec<MemWrite>)
    ensures
        writes_view(w@) == byte_writes(addr, b@),
{
    let mut w: Vec<MemWrite> = Vec::new();
    let mut i: usize = 0;
    while i < b.len()
        invariant
            i <= b@.len(),
            writes_view(w@) == byte_writes(addr, b@).subrange(0, i as int),
        decreases b@.len() - i,
    {
        let mut one: Vec<u8> = Vec::new();
        one.push(b[i]);
        assert(one@ =~= seq![b@[i as int]]);
        let ghost before = w@;
        w.push(MemWrite { addr: addr.wrapping_add(i), bytes: one });
        proof {
            let all = byte_writes(addr, b@);
            assert(writes_view(w@) =~= writes_view(before).push(w@.last()@));
            assert(w@.last()@ == all[i as int]);
            assert(writes_view(w@) =~= all.subrange(0, i + 1));
        }
        i += 1;
    }
    assert(byte_writes(addr, b@).subrange(0, b@.len() as int) =~= byte_writes(addr, b@));
    w
}

/// `mem.writeBytes(addr, bytes)`.
pub open spec fn writes_bytes(args: Json, attached: bool, step: HostStep) -> bool {
    match (addr_at(args, 0), arg_at(args, 1)) {
        (Err(e), _) => step == HostStep::Done(Err(HostError::Arg(e))),
        (Ok(_), Err(e)) => step == HostStep::Done(Err(HostError::Arg(e))),
        (Ok(addr), Ok(v)) => match v.kind {
            JsonKind::List(s) => if !attached {
                step == not_attached()
            } else {
                writes_then(step, byte_writes(addr, low_bytes(s@)), Ok(Reply::Bool(true)))
            },
            _ => step == HostStep::Done(Err(HostError::Misuse(Misuse::WriteBytesNeedsArray))),
        },
    }
}

pub fn write_bytes(args: &Json, attached: bool) -> (step: HostStep)
    ensures
        writes_bytes(*args, attached, step),
{
    let addr: usize = match addr_arg(args, 0) {
        Ok(a) => a,
        Err(e) => return fail(HostError::Arg(e)),
    };
    let v = match arg(args, 1) {
        Ok(v) => v,
        Err(e) => return fail(HostError::Arg(e)),
    };
    match &v.kind {
        JsonKind::List(s) => {
            if !attached {
                return misuse(Misuse::NotAttached);
            }
            let b = all_low_bytes(s);
            let writes = single_writes(addr, b.as_slice());
            HostStep::Ask(HostOp::Write { writes, then: Ok(Reply::Bool(true)) })
        },
        _ => misuse(Misuse::WriteBytesNeedsArray),
    }
}

/// Answers a call that writes: the first write that failed, or what was to be
/// answered after the last.
pub fn finish_write(outcome: Result<(), String>, then: Result<Reply, HostError>) -> (r: Result<
    Reply,
    HostError,
>)
    ensures
        r == match outcome {
            Ok(_) => then,
            Err(e) => Err::<Reply, HostError>(HostError::Failed(Stage::Write, e)),
        },
{
    match outcome {
        Ok(_) => then,
        Err(e) => Err(HostError::Failed(Stage::Write, e)),
    }
}

/// The type that a tag names and its width, or why it cannot be used.
pub open spec fn sized_type(tags: TypeTags, ty: String) -> Result<
    (ScanValueType, usize),
    HostError,
> {
    match tags.of(ty@) {
        None => Err(HostError::UnknownType(ty)),
        Some(vt) => match vt.width() {
            None => Err(HostError::NoFixedWidth(ty)),
            Some(w) => Ok((vt, w)),
        },
    }
}

fn sized_type_exec(tags: &TypeTags, ty: String) -> (r: Result<(ScanValueType, usize), HostError>)
    ensures
        r == sized_type(*tags, ty),
        r matches Ok(p) ==> p.0.width() == Some(p.1) && 1 <= p.1 <= 8,
{
    match tags.from_tag(ty.as_str()) {
        None => Err(HostError::UnknownType(ty)),
        Some(vt) => match vt.fixed_width() {
            None => Err(HostError::NoFixedWidth(ty)),
            Some(w) => Ok((vt, w)),
        },
    }
}

/// `mem.readValues(addr, type, count)`.
pub open spec fn read_values_step(args: Json, attached: bool, tags: TypeTags) -> HostStep {
    match (addr_at(args, 0), text_at(args, 1), size_at(args, 2)) {
        (Err(e), _, _) => HostStep::Done(Err(HostError::Arg(e))),
        (Ok(_), Err(e), _) => HostStep::Done(Err(HostError::Arg(e))),
        (Ok(_), Ok(_), Err(e)) => HostStep::Done(Err(HostError::Arg(e))),
        (Ok(addr), Ok(ty), Ok(count)) => match sized_type(tags, ty) {
            Err(e) => HostStep::Done(Err(e)),
            Ok((vt, width)) => if count * width > usize::MAX {
                HostStep::Done(Err(HostError::Misuse(Misuse::ReadValuesOverflow)))
            } else if count * width > MAX_SCRIPT_READ {
                HostStep::Done(Err(HostError::ValuesTooLong((count * width) as usize)))
            } else if !attached {
                not_attached()
            } else {
                HostStep::Ask(
                    HostOp::ReadValues { addr, vt, width, total: (count * width) as usize },
                )
            },
        },
    }
}

pub fn read_values(args: &Json, attached: bool, tags: &TypeTags) -> (step: HostStep)
    ensures
        step == read_values_step(*args, attached, *tags),
{
    let addr: usize = match addr_arg(args, 0) {
        Ok(a) => a,
        Err(e) => return fail(HostError::Arg(e)),
    };
    let ty = match text_arg(args, 1) {
        Ok(t) => t,
        Err(e) => return fail(HostError::Arg(e)),
    };
    let count: usize = match size_arg(args, 2) {
        Ok(n) => n,
        Err(e) => return fail(HostError::Arg(e)),
    };
    let (vt, width) = match sized_type_exec(tags, ty) {
        Ok(p) => p,
        Err(e) => return fail(e),
    };
    match count.checked_mul(width) {
        None => misuse(Misuse::ReadValuesOverflow),
        Some(total) => if total > MAX_SCRIPT_READ {
            fail(HostError::ValuesTooLong(total))
        } else if !attached {
            misuse(Misuse::NotAttached)
        } else {
            HostStep::Ask(HostOp::ReadValues { addr, vt, width, total })
        },
    }
}

/// The numbers that follow each other in `b`: as many as are whole.
pub open spec fn numbers_in(vt: ScanValueType, width: usize, b: Seq<u8>) -> Seq<NumValue> {
    Seq::new(
        (b.len() / width as nat) as nat,
        |i: int| number_in(vt, b.subrange(i * width, i * width + width)),
    )
}

/// Answers `mem.readValues` with the numbers in what was read.
pub fn finish_read_values(vt: ScanValueType, width: usize, read: Result<Vec<u8>, String>) -> (r:
    Result<Reply, HostError>)
    requires
        vt.width() == Some(width),
    ensures
        match read {
            Ok(b) => r matches Ok(Reply::Reals(v)) && v@ == numbers_in(vt, width, b@),
            Err(e) => r == Err::<Reply, HostError>(HostError::Failed(Stage::Read, e)),
        },
{
    let b = match read {
        Ok(b) => b,
        Err(e) => return Err(HostError::Failed(Stage::Read, e)),
    };
    let avail: usize = b.len() / width;
    assert(avail * width <= b@.len()) by {
        lemma_fundamental_div_mod(b@.len() as int, width as int);
        lemma_mul_is_commutative(avail as int, width as int);
    }
    let mut out: Vec<NumValue> = Vec::new();
    let mut i: usize = 0;
    let mut pos: usize = 0;
    while i < avail
        invariant
            i <= avail,
            width >= 1,
            vt.width() == Some(width),
            avail == b@.len() / width as nat,
            pos == i * width,
            avail * width <= b@.len() <= usize::MAX,
            out@ == numbers_in(vt, width, b@).subrange(0, i as int),
        decreases avail - i,
    {
        assert(i * width + width <= avail * width) by (nonlinear_arith)
            requires
                i < avail,
        ;
        let v = bytes_to_json_num(vt, slice_subrange(b.as_slice(), pos, pos + width));
        out.push(v);
        assert((i + 1) * width == i * width + width) by (nonlinear_arith);
        i += 1;
        pos += width;
        assert(out@ =~= numbers_in(vt, width, b@).subrange(0, i as int));
    }
    assert(numbers_in(vt, width, b@).subrange(0, avail as int) =~= numbers_in(vt, width, b@));
    Ok(Reply::Reals(out))
}

/// The bytes that a value writes in a type.
pub open spec fn value_bytes(vt: ScanValueType, v: Json) -> Result<Seq<u8>, HostError> {
    match vt.layout() {
        Layout::Signed(n) => match int_of(v) {
            Ok(i) => Ok(le_bytes(i as int, n as nat)),
            Err(e) => Err(HostError::Arg(e)),
        },
        Layout::Unsigned(n) => match uint_of(v) {
            Ok(u) => Ok(le_bytes(u as int, n as nat)),
            Err(e) => Err(HostError::Arg(e)),
        },
        Layout::Single => match number_of(v) {
            Ok(f) => Ok(le_bytes(f.single as int, 4)),
            Err(e) => Err(HostError::Arg(e)),
        },
        _ => match number_of(v) {
            Ok(f) => Ok(le_bytes(f.double as int, 8)),
            Err(e) => Err(HostError::Arg(e)),
        },
    }
}

/// The bytes that writing a value puts into memory; types that are no numbers are not
/// written.
pub fn write_typed_value(tags: &TypeTags, vt: ScanValueType, v: &Json) -> (r: Result<
    Vec<u8>,
    HostError,
>)
    ensures
        match r {
            Ok(b) => vt.width() is Some && value_bytes(vt, *v) == Ok::<Seq<u8>, HostError>(b@),
            Err(e) => if vt.width() is Some {
                value_bytes(vt, *v) == Err::<Seq<u8>, HostError>(e)
            } else {
                e matches HostError::UnsupportedType(t) && t@ == tags.tag(vt)
            },
        },
{
    match vt.fixed_width() {
        Some(_) => number_bytes(vt, v),
        None => Err(HostError::UnsupportedType(tags.as_tag(vt))),
    }
}

fn number_bytes(vt: ScanValueType, v: &Json) -> (r: Result<Vec<u8>, HostError>)
    requires
        vt.width() is Some,
    ensures
        match r {
            Ok(b) => value_bytes(vt, *v) == Ok::<Seq<u8>, HostError>(b@),
            Err(e) => value_bytes(vt, *v) == Err::<Seq<u8>, HostError>(e),
        },
{
    match vt.layout_exec() {
        Layout::Signed(n) => match as_i64(v) {
            Ok(i) => Ok(to_le_signed(i, n)),
            Err(e) => Err(HostError::Arg(e)),
        },
        Layout::Unsigned(n) => match as_u64_flex(v) {
            Ok(u) => Ok(to_le(u, n)),
            Err(e) => Err(HostError::Arg(e)),
        },
        Layout::Single => match as_real(v) {
            Ok(f) => Ok(to_le(f.single as u64, 4)),
            Err(e) => Err(HostError::Arg(e)),
        },
        _ => match as_real(v) {
            Ok(f) => Ok(to_le(f.double, 8)),
            Err(e) => Err(HostError::Arg(e)),
        },
    }
}

/// Writes up to the first value that cannot be written.
pub struct WritePlan {
    pub writes: Seq<WriteView>,
    pub error: Option<HostError>,
}

/// The writes of values that follow each other from `addr` on.
pub open spec fn value_writes(
    addr: usize,
    vt: ScanValueType,
    width: usize,
    s: Seq<Json>,
) -> WritePlan
    decreases s.len(),
{
    if s.len() == 0 {
        WritePlan { writes: Seq::empty(), error: None }
    } else {
        let before = value_writes(addr, vt, width, s.drop_last());
        if before.error is Some {
            before
        } else {
            match value_bytes(vt, s.last()) {
                Ok(b) => WritePlan {
                    writes: before.writes.push(
                        WriteView {
                            addr: addr.wrapping_add(
                                ((s.len() - 1) as usize).wrapping_mul(width),
                            ),
                            bytes: b,
                        },
                    ),
                    error: None,
                },
                Err(e) => WritePlan { writes: before.writes, error: Some(e) },
            }
        }
    }
}

proof fn lemma_value_writes_stop(
    addr: usize,
    vt: ScanValueType,
    width: usize,
    s: Seq<Json>,
    n: int,
)
    requires
        0 <= n <= s.len(),
        value_writes(addr, vt, width, s.subrange(0, n)).error is Some,
    ensures
        value_writes(addr, vt, width, s) == value_writes(addr, vt, width, s.subrange(0, n)),
    decreases s.len() - n,
{
    if n < s.len() {
        assert(s.subrange(0, n + 1).drop_last() =~= s.subrange(0, n));
        lemma_value_writes_stop(addr, vt, width, s, n + 1);
    } else {
        assert(s.subrange(0, n) =~= s);
    }
}

/// What a run of writes answers at its end.
pub open spec fn end_of(error: Option<HostError>, reply: Reply) -> Result<Reply, HostError> {
    match error {
        Some(e) => Err(e),
        None => Ok(reply),
    }
}

/// `mem.writeValues(addr, type, values)`.
pub open spec fn writes_values(
    args: Json,
    attached: bool,
    tags: TypeTags,
    step: HostStep,
) -> bool {
    match (addr_at(args, 0), text_at(args, 1), arg_at(args, 2)) {
        (Err(e), _, _) => step == HostStep::Done(Err(HostError::Arg(e))),
        (Ok(_), Err(e), _) => step == HostStep::Done(Err(HostError::Arg(e))),
        (Ok(_), Ok(_), Err(e)) => step == HostStep::Done(Err(HostError::Arg(e))),
        (Ok(addr), Ok(ty), Ok(v)) => match v.kind {
            JsonKind::List(s) => match sized_type(tags, ty) {
                Err(e) => step == HostStep::Done(Err(e)),
                Ok((vt, width)) => if !attached {
                    step == not_attached()
                } else {
                    let plan = value_writes(addr, vt, width, s@);
                    writes_then(
                        step,
                        plan.writes,
                        end_of(plan.error, Reply::Count(s@.len() as usize)),
                    )
                },
            },
            _ => step == HostStep::Done(Err(HostError::Misuse(Misuse::WriteValuesNeedsArray))),
        },
    }
}

#[verifier::loop_isolation(false)]
pub fn write_values(args: &Json, attached: bool, tags: &TypeTags) -> (step: HostStep)
    ensures
        writes_values(*args, attached, *tags, step),
{
    let addr: usize = match addr_arg(args, 0) {
        Ok(a) => a,
        Err(e) => return fail(HostError::Arg(e)),
    };
    let ty = match text_arg(args, 1) {
        Ok(t) => t,
        Err(e) => return fail(HostError::Arg(e)),
    };
    let v = match arg(args, 2) {
        Ok(v) => v,
        Err(e) => return fail(HostError::Arg(e)),
    };
    let s = match &v.kind {
        JsonKind::List(s) => s,
        _ => return misuse(Misuse::WriteValuesNeedsArray),
    };
    let (vt, width) = match sized_type_exec(tags, ty) {
        Ok(p) => p,
        Err(e) => return fail(e),
    };
    if !attached {
        return misuse(Misuse::NotAttached);
    }
    let mut writes: Vec<MemWrite> = Vec::new();
    let mut i: usize = 0;
    assert(writes_view(writes@) =~= Seq::<WriteView>::empty());
    while i < s.len()
        invariant
            i <= s@.len(),
            vt.width() is Some,
            value_writes(addr, vt, width, s@.subrange(0, i as int)) == (WritePlan {
                writes: writes_view(writes@),
                error: None,
            }),
        decreases s@.len() - i,
    {
        assert(s@.subrange(0, i + 1).drop_last() =~= s@.subrange(0, i as int));
        match write_typed_value(tags, vt, &s[i]) {
            Ok(bytes) => {
                let ghost before = writes@;
                writes.push(MemWrite { addr: addr.wrapping_add(i.wrapping_mul(width)), bytes });
                assert(writes_view(writes@) =~= writes_view(before).push(writes@.last()@));
            },
            Err(e) => {
                proof {
                    lemma_value_writes_stop(addr, vt, width, s@, i + 1);
                }
                return HostStep::Ask(HostOp::Write { writes, then: Err(e) });
            },
        }
        i += 1;
    }
    assert(s@.subrange(0, s@.len() as int) =~= s@);
    HostStep::Ask(HostOp::Write { writes, then: Ok(Reply::Count(s.len())) })
}

/// `mem.resolveRip(insn, dispOffset, instrLen)`.
pub open spec fn resolve_rip_step(args: Json, attached: bool) -> HostStep {
    match (addr_at(args, 0), size_at(args, 1), size_at(args, 2)) {
        (Err(e), _, _) => HostStep::Done(Err(HostError::Arg(e))),
        (Ok(_), Err(e), _) => HostStep::Done(Err(HostError::Arg(e))),
        (Ok(_), Ok(_), Err(e)) => HostStep::Done(Err(HostError::Arg(e))),
        (Ok(insn), Ok(disp_off), Ok(instr_len)) => if !attached {
            not_attached()
        } else {
            HostStep::Ask(
                HostOp::ReadRip { at: insn.wrapping_add(disp_off), insn, instr_len },
            )
        },
    }
}

pub fn resolve_rip(args: &Json, attached: bool) -> (step: HostStep)
    ensures
        step == resolve_rip_step(*args, attached),
{
    let insn: usize = match addr_arg(args, 0) {
        Ok(a) => a,
        Err(e) => return fail(HostError::Arg(e)),
    };
    let disp_off: usize = match size_arg(args, 1) {
        Ok(n) => n,
        Err(e) => return fail(HostError::Arg(e)),
    };
    let instr_len: usize = match size_arg(args, 2) {
        Ok(n) => n,
        Err(e) => return fail(HostError::Arg(e)),
    };
    if !attached {
        return misuse(Misuse::NotAttached);
    }
    HostStep::Ask(HostOp::ReadRip { at: insn.wrapping_add(disp_off), insn, instr_len })
}

/// What an instruction with a displacement points at: the displacement counts
/// from the end of the instruction.
pub open spec fn rip_target(insn: usize, instr_len: usize, disp: i32) -> usize {
    wrapped(insn.wrapping_add(instr_len) + disp)
}

pub fn rip_target_exec(insn: usize, instr_len: usize, disp: i32) -> (t: usize)
    ensures
        t == rip_target(insn, instr_len, disp),
{
    wrap_sum(insn.wrapping_add(instr_len), disp as i64)
}

/// Answers `mem.resolveRip` with what the displacement points at.
pub fn finish_resolve_rip(insn: usize, instr_len: usize, disp: Result<i32, String>) -> (r: Result<
    Reply,
    HostError,
>)
    ensures
        r == match disp {
            Ok(d) => Ok::<Reply, HostError>(Reply::Address(rip_target(insn, instr_len, d))),
            Err(e) => Err::<Reply, HostError>(HostError::Failed(Stage::Read, e)),
        },
{
    match disp {
        Ok(d) => Ok(Reply::Address(rip_target_exec(insn, instr_len, d))),
        Err(e) => Err(HostError::Failed(Stage::Read, e)),
    }
}

/// The field that an entry of a layout describes. An entry without an offset
/// starts where the one before it ends.
pub open spec fn field_of(
    f: Json,
    cursor: usize,
    tags: TypeTags,
    no_name: Misuse,
    no_type: Misuse,
) -> Result<FieldSpec, HostError> {
    match str_of(member(Some(f), "name"@)) {
        None => Err(HostError::Misuse(no_name)),
        Some(name) => match str_of(member(Some(f), "type"@)) {
            None => Err(HostError::Misuse(no_type)),
            Some(ty) => match sized_type(tags, ty) {
                Err(e) => Err(e),
                Ok((vt, width)) => Ok(
                    FieldSpec {
                        name,
                        vt,
                        width,
                        off: match real_of(member(Some(f), "offset"@)) {
                            Some(x) => x.to_usize,
                            None => cursor,
                        },
                    },
                ),
            },
        },
    }
}

fn field_of_exec(
    f: &Json,
    cursor: usize,
    tags: &TypeTags,
    no_name: Misuse,
    no_type: Misuse,
) -> (r: Result<FieldSpec, HostError>)
    ensures
        r == field_of(*f, cursor, *tags, no_name, no_type),
        r matches Ok(x) ==> x.vt.width() == Some(x.width) && 1 <= x.width <= 8,
{
    let name = match str_value(get(Some(f), "name")) {
        Some(n) => n,
        None => return Err(HostError::Misuse(no_name)),
    };
    let ty = match str_value(get(Some(f), "type")) {
        Some(t) => t,
        None => return Err(HostError::Misuse(no_type)),
    };
    let (vt, width) = match sized_type_exec(tags, ty) {
        Ok(p) => p,
        Err(e) => return Err(e),
    };
    let off: usize = match real_value(get(Some(f), "offset")) {
        Some(x) => x.to_usize,
        None => cursor,
    };
    Ok(FieldSpec { name, vt, width, off })
}

/// The fields of a layout up to the first entry that describes none.
pub struct LayoutPlan {
    pub fields: Seq<FieldSpec>,
    pub error: Option<HostError>,
    /// Where the next field would start.
    pub cursor: usize,
}

pub open spec fn layout_of(
    s: Seq<Json>,
    tags: TypeTags,
    no_name: Misuse,
    no_type: Misuse,
) -> LayoutPlan
    decreases s.len(),
{
    if s.len() == 0 {
        LayoutPlan { fields: Seq::empty(), error: None, cursor: 0 }
    } else {
        let before = layout_of(s.drop_last(), tags, no_name, no_type);
        if before.error is Some {
            before
        } else {
            match field_of(s.last(), before.cursor, tags, no_name, no_type) {
                Ok(f) => LayoutPlan {
                    fields: before.fields.push(f),
                    error: None,
                    cursor: f.off.wrapping_add(f.width),
                },
                Err(e) => LayoutPlan { error: Some(e), ..before },
            }
        }
    }
}

proof fn lemma_layout_stops(
    s: Seq<Json>,
    tags: TypeTags,
    no_name: Misuse,
    no_type: Misuse,
    n: int,
)
    requires
        0 <= n <= s.len(),
        layout_of(s.subrange(0, n), tags, no_name, no_type).error is Some,
    ensures
        layout_of(s, tags, no_name, no_type) == layout_of(
            s.subrange(0, n),
            tags,
            no_name,
            no_type,
        ),
    decreases s.len() - n,
{
    if n < s.len() {
        assert(s.subrange(0, n + 1).drop_last() =~= s.subrange(0, n));
        lemma_layout_stops(s, tags, no_name, no_type, n + 1);
    } else {
        assert(s.subrange(0, n) =~= s);
    }
}

/// Every field has a type of the field's width.
pub open spec fn fields_sized(fields: Seq<FieldSpec>) -> bool {
    forall|i: int|
        0 <= i < fields.len() ==> (#[trigger] fields[i]).vt.width() == Some(fields[i].width)
}

fn layout_fields(s: &Vec<Json>, tags: &TypeTags, no_name: Misuse, no_type: Misuse) -> (r: (
    Vec<FieldSpec>,
    Option<HostError>,
    usize,
))
    ensures
        layout_of(s@, *tags, no_name, no_type) == (LayoutPlan {
            fields: r.0@,
            error: r.1,
            cursor: r.2,
        }),
        fields_sized(r.0@),
{
    let mut fields: Vec<FieldSpec> = Vec::new();
    let mut cursor: usize = 0;
    let mut i: usize = 0;
    while i < s.len()
        invariant
            i <= s@.len(),
            layout_of(s@.subrange(0, i as int), *tags, no_name, no_type) == (LayoutPlan {
                fields: fields@,
                error: None,
                cursor,
            }),
            fields_sized(fields@),
        decreases s@.len() - i,
    {
        assert(s@.subrange(0, i + 1).drop_last() =~= s@.subrange(0, i as int));
        match field_of_exec(&s[i], cursor, tags, no_name, no_type) {
            Ok(f) => {
                cursor = f.off.wrapping_add(f.width);
                fields.push(f);
            },
            Err(e) => {
                proof {
                    lemma_layout_stops(s@, *tags, no_name, no_type, i + 1);
                }
                return (fields, Some(e), cursor);
            },
        }
        i += 1;
    }
    assert(s@.subrange(0, s@.len() as int) =~= s@);
    (fields, None, cursor)
}

/// `mem.readStruct(addr, layout)`.
pub open spec fn reads_struct(args: Json, attached: bool, tags: TypeTags, step: HostStep) -> bool {
    match (addr_at(args, 0), arg_at(args, 1)) {
        (Err(e), _) => step == HostStep::Done(Err(HostError::Arg(e))),
        (Ok(_), Err(e)) => step == HostStep::Done(Err(HostError::Arg(e))),
        (Ok(a), Ok(v)) => match v.kind {
            JsonKind::List(s) => if !attached {
                step == not_attached()
            } else {
                let plan = layout_of(s@, tags, Misuse::ReadStructName, Misuse::ReadStructType);
                step matches HostStep::Ask(HostOp::ReadFields { addr, fields, error }) && addr == a
                    && fields@ == plan.fields && error == plan.error
            },
            _ => step == HostStep::Done(Err(HostError::Misuse(Misuse::ReadStructLayout))),
        },
    }
}

pub fn read_struct(args: &Json, attached: bool, tags: &TypeTags) -> (step: HostStep)
    ensures
        reads_struct(*args, attached, *tags, step),
        step matches HostStep::Ask(HostOp::ReadFields { fields, .. }) ==> fields_sized(fields@),
{
    let addr: usize = match addr_arg(args, 0) {
        Ok(a) => a,
        Err(e) => return fail(HostError::Arg(e)),
    };
    let v = match arg(args, 1) {
        Ok(v) => v,
        Err(e) => return fail(HostError::Arg(e)),
    };
    match &v.kind {
        JsonKind::List(s) => {
            if !attached {
                return misuse(Misuse::NotAttached);
            }
            let (fields, error, _) = layout_fields(
                s,
                tags,
                Misuse::ReadStructName,
                Misuse::ReadStructType,
            );
            HostStep::Ask(HostOp::ReadFields { addr, fields, error })
        },
        _ => misuse(Misuse::ReadStructLayout),
    }
}

/// The index of the member `name`.
pub open spec fn slot_of(obj: Seq<(String, NumValue)>, name: Seq<char>) -> Option<int>
    decreases obj.len(),
{
    if obj.len() == 0 {
        None
    } else if obj.last().0@ == name {
        Some(obj.len() - 1)
    } else {
        slot_of(obj.drop_last(), name)
    }
}

/// A record with a member set: in place of the one of that name, or at the end.
pub open spec fn with_member(obj: Seq<(String, NumValue)>, name: String, v: NumValue) -> Seq<
    (String, NumValue),
> {
    match slot_of(obj, name@) {
        Some(i) => obj.update(i, (obj[i].0, v)),
        None => obj.push((name, v)),
    }
}

fn set_member(obj: &mut Vec<(String, NumValue)>, name: String, v: NumValue)
    ensures
        final(obj)@ == with_member(old(obj)@, name, v),
{
    let ghost all = obj@;
    let mut i: usize = obj.len();
    assert(all.subrange(0, all.len() as int) =~= all);
    while i > 0
        invariant
            i <= obj@.len(),
            obj@ == all,
            all == old(obj)@,
            slot_of(all, name@) == slot_of(all.subrange(0, i as int), name@),
        decreases i,
    {
        i -= 1;
        assert(all.subrange(0, i + 1).drop_last() =~= all.subrange(0, i as int));
        if same_str(obj[i].0.as_str(), name.as_str()) {
            assert(all.subrange(0, i + 1).last() == all[i as int]);
            assert(slot_of(all, name@) == Some(i as int));
            let own = obj[i].0.clone();
            obj.set(i, (own, v));
            return ;
        }
    }
    obj.push((name, v));
}

/// The record of the first `n` fields, given what was read of each.
pub open spec fn record_of(fields: Seq<FieldSpec>, reads: Seq<Seq<u8>>, n: nat) -> Seq<
    (String, NumValue),
>
    decreases n,
{
    if n == 0 {
        Seq::empty()
    } else {
        let f = fields[n - 1];
        let b = reads[n - 1];
        with_member(
            record_of(fields, reads, (n - 1) as nat),
            f.name,
            if b.len() >= f.width {
                number_in(f.vt, b)
            } else {
                NumValue::Null
            },
        )
    }
}

/// What the reads up to the first that failed brought.
pub open spec fn read_parts(reads: Seq<Vec<u8>>) -> Seq<Seq<u8>> {
    Seq::new(reads.len(), |i: int| reads[i]@)
}

/// Answers `mem.readStruct`. `reads` holds what was read of each field up to the
/// first read that failed, and `failed` why that one did.
pub fn finish_read_struct(
    fields: &Vec<FieldSpec>,
    reads: &Vec<Vec<u8>>,
    failed: Option<String>,
    error: Option<HostError>,
) -> (r: Result<Reply, HostError>)
    requires
        fields_sized(fields@),
        failed is None ==> reads@.len() == fields@.len(),
    ensures
        match (failed, error) {
            (Some(e), _) => r == Err::<Reply, HostError>(HostError::Failed(Stage::Read, e)),
            (None, Some(e)) => r == Err::<Reply, HostError>(e),
            (None, None) => r matches Ok(Reply::Record(obj)) && obj@ == record_of(
                fields@,
                read_parts(reads@),
                fields@.len(),
            ),
        },
{
    match failed {
        Some(e) => return Err(HostError::Failed(Stage::Read, e)),
        None => {},
    }
    match error {
        Some(e) => return Err(e),
        None => {},
    }
    let mut obj: Vec<(String, NumValue)> = Vec::new();
    let mut i: usize = 0;
    while i < fields.len()
        invariant
            i <= fields@.len(),
            fields_sized(fields@),
            reads@.len() == fields@.len(),
            obj@ == record_of(fields@, read_parts(reads@), i as nat),
        decreases fields@.len() - i,
    {
        let f = &fields[i];
        let b = &reads[i];
        let v = if b.len() >= f.width {
            bytes_to_json_num(f.vt, b.as_slice())
        } else {
            NumValue::Null
        };
        set_member(&mut obj, f.name.clone(), v);
        i += 1;
    }
    Ok(Reply::Record(obj))
}

/// `mem.readStructArray(addr, layout, count, opts?)`.
pub open spec fn reads_array(args: Json, attached: bool, tags: TypeTags, step: HostStep) -> bool {
    match (addr_at(args, 0), arg_at(args, 1)) {
        (Err(e), _) => step == HostStep::Done(Err(HostError::Arg(e))),
        (Ok(_), Err(e)) => step == HostStep::Done(Err(HostError::Arg(e))),
        (Ok(a), Ok(v)) => match v.kind {
            JsonKind::List(s) => match size_at(args, 2) {
                Err(e) => step == HostStep::Done(Err(HostError::Arg(e))),
                Ok(count) => {
                    let plan = layout_of(s@, tags, Misuse::FieldName, Misuse::FieldType);
                    match plan.error {
                        Some(e) => step == HostStep::Done(Err(e)),
                        None => {
                            let st = match real_of(member(opt_arg_at(args, 3), "stride"@)) {
                                Some(x) => x.to_usize,
                                None => plan.cursor,
                            };
                            if st == 0 {
                                step == HostStep::Done(
                                    Err(HostError::Misuse(Misuse::StrideZero)),
                                )
                            } else if count * st > usize::MAX {
                                step == HostStep::Done(
                                    Err(HostError::Misuse(Misuse::ReadArrayOverflow)),
                                )
                            } else if count * st > MAX_SCRIPT_READ {
                                step == HostStep::Done(
                                    Err(HostError::ArrayTooLong((count * st) as usize)),
                                )
                            } else if !attached {
                                step == not_attached()
                            } else {
                                step matches HostStep::Ask(
                                    HostOp::ReadArray { addr, total, stride, fields },
                                ) && addr == a && total == count * st && stride == st && fields@
                                    == plan.fields
                            }
                        },
                    }
                },
            },
            _ => step == HostStep::Done(Err(HostError::Misuse(Misuse::ReadArrayLayout))),
        },
    }
}

pub fn read_struct_array(args: &Json, attached: bool, tags: &TypeTags) -> (step: HostStep)
    ensures
        reads_array(*args, attached, *tags, step),
        step matches HostStep::Ask(HostOp::ReadArray { fields, stride, .. }) ==> fields_sized(
            fields@,
        ) && stride > 0,
{
    let addr: usize = match addr_arg(args, 0) {
        Ok(a) => a,
        Err(e) => return fail(HostError::Arg(e)),
    };
    let v = match arg(args, 1) {
        Ok(v) => v,
        Err(e) => return fail(HostError::Arg(e)),
    };
    let s = match &v.kind {
        JsonKind::List(s) => s,
        _ => return misuse(Misuse::ReadArrayLayout),
    };
    let count: usize = match size_arg(args, 2) {
        Ok(n) => n,
        Err(e) => return fail(HostError::Arg(e)),
    };
    let (fields, error, cursor) = layout_fields(s, tags, Misuse::FieldName, Misuse::FieldType);
    if let Some(e) = error {
        return fail(e);
    }
    let stride: usize = match real_value(get(opt_arg(args, 3), "stride")) {
        Some(x) => x.to_usize,
        None => cursor,
    };
    if stride == 0 {
        return misuse(Misuse::StrideZero);
    }
    match count.checked_mul(stride) {
        None => misuse(Misuse::ReadArrayOverflow),
        Some(total) => if total > MAX_SCRIPT_READ {
            fail(HostError::ArrayTooLong(total))
        } else if !attached {
            misuse(Misuse::NotAttached)
        } else {
            HostStep::Ask(HostOp::ReadArray { addr, total, stride, fields })
        },
    }
}

/// What a field of the struct that starts at `base` holds; nothing where it
/// reaches past what was read.
pub open spec fn field_value(f: FieldSpec, b: Seq<u8>, base: int) -> NumValue {
    if base + f.off + f.width <= b.len() {
        number_in(f.vt, b.subrange(base + f.off, base + f.off + f.width))
    } else {
        NumValue::Null
    }
}

/// The record of the first `n` fields of the struct that starts at `base`.
pub open spec fn record_at(fields: Seq<FieldSpec>, b: Seq<u8>, base: int, n: nat) -> Seq<
    (String, NumValue),
>
    decreases n,
{
    if n == 0 {
        Seq::empty()
    } else {
        with_member(
            record_at(fields, b, base, (n - 1) as nat),
            fields[n - 1].name,
            field_value(fields[n - 1], b, base),
        )
    }
}

fn record_at_exec(fields: &Vec<FieldSpec>, b: &[u8], base: usize) -> (obj: Vec<(String, NumValue)>)
    requires
        fields_sized(fields@),
    ensures
        obj@ == record_at(fields@, b@, base as int, fields@.len()),
{
    let mut obj: Vec<(String, NumValue)> = Vec::new();
    let mut i: usize = 0;
    let total: usize = b.len();
    while i < fields.len()
        invariant
            i <= fields@.len(),
            fields_sized(fields@),
            total == b@.len(),
            obj@ == record_at(fields@, b@, base as int, i as nat),
        decreases fields@.len() - i,
    {
        let f = &fields[i];
        let v = match base.checked_add(f.off) {
            Some(start) => match start.checked_add(f.width) {
                Some(end) => if end <= total {
                    bytes_to_json_num(f.vt, slice_subrange(b, start, end))
                } else {
                    NumValue::Null
                },
                None => NumValue::Null,
            },
            None => NumValue::Null,
        };
        set_member(&mut obj, f.name.clone(), v);
        i += 1;
    }
    obj
}

/// The records are those of the structs that follow each other in `b`, as many
/// as are whole.
pub open spec fn are_records(
    out: Seq<Vec<(String, NumValue)>>,
    fields: Seq<FieldSpec>,
    stride: usize,
    b: Seq<u8>,
) -> bool {
    &&& out.len() == b.len() / stride as nat
    &&& forall|i: int|
        0 <= i < out.len() ==> (#[trigger] out[i])@ == record_at(
            fields,
            b,
            i * stride,
            fields.len(),
        )
}

/// Answers `mem.readStructArray` with the structs in what was read.
pub fn finish_read_struct_array(
    fields: &Vec<FieldSpec>,
    stride: usize,
    read: Result<Vec<u8>, String>,
) -> (r: Result<Reply, HostError>)
    requires
        fields_sized(fields@),
        stride > 0,
    ensures
        match read {
            Ok(b) => r matches Ok(Reply::Records(out)) && are_records(
                out@,
                fields@,
                stride,
                b@,
            ),
            Err(e) => r == Err::<Reply, HostError>(HostError::Failed(Stage::Read, e)),
        },
{
    let b = match read {
        Ok(b) => b,
        Err(e) => return Err(HostError::Failed(Stage::Read, e)),
    };
    let avail: usize = b.len() / stride;
    assert(avail * stride <= b@.len()) by {
        lemma_fundamental_div_mod(b@.len() as int, stride as int);
        lemma_mul_is_commutative(avail as int, stride as int);
    }
    let mut out: Vec<Vec<(String, NumValue)>> = Vec::new();
    let mut base: usize = 0;
    while out.len() < avail
        invariant
            out@.len() <= avail,
            stride > 0,
            fields_sized(fields@),
            base == out@.len() * stride,
            avail * stride <= b@.len() <= usize::MAX,
            forall|i: int|
                0 <= i < out@.len() ==> (#[trigger] out@[i])@ == record_at(
                    fields@,
                    b@,
                    i * stride,
                    fields@.len(),
                ),
        decreases avail - out@.len(),
    {
        let ghost n = out@.len() as int;
        assert(n * stride + stride <= avail * stride) by (nonlinear_arith)
            requires
                n < avail,
        ;
        assert((n + 1) * stride == n * stride + stride) by (nonlinear_arith);
        let rec = record_at_exec(fields, b.as_slice(), base);
        out.push(rec);
        base += stride;
    }
    Ok(Reply::Records(out))
}

/// The writes of the fields that are given a value, up to the first whose value
/// cannot be written.
pub open spec fn field_writes(
    addr: usize,
    fields: Seq<FieldSpec>,
    values: Seq<(String, Json)>,
) -> WritePlan
    decreases fields.len(),
{
    if fields.len() == 0 {
        WritePlan { writes: Seq::empty(), error: None }
    } else {
        let before = field_writes(addr, fields.drop_last(), values);
        let f = fields.last();
        if before.error is Some {
            before
        } else {
            match member_in(values, f.name@) {
                None => before,
                Some(v) => match value_bytes(f.vt, v) {
                    Ok(b) => WritePlan {
                        writes: before.writes.push(
                            WriteView { addr: addr.wrapping_add(f.off), bytes: b },
                        ),
                        error: None,
                    },
                    Err(e) => WritePlan { writes: before.writes, error: Some(e) },
                },
            }
        }
    }
}

proof fn lemma_field_writes_stop(
    addr: usize,
    fields: Seq<FieldSpec>,
    values: Seq<(String, Json)>,
    n: int,
)
    requires
        0 <= n <= fields.len(),
        field_writes(addr, fields.subrange(0, n), values).error is Some,
    ensures
        field_writes(addr, fields, values) == field_writes(addr, fields.subrange(0, n), values),
    decreases fields.len() - n,
{
    if n < fields.len() {
        assert(fields.subrange(0, n + 1).drop_last() =~= fields.subrange(0, n));
        lemma_field_writes_stop(addr, fields, values, n + 1);
    } else {
        assert(fields.subrange(0, n) =~= fields);
    }
}

/// `mem.writeStruct(addr, layout, values)`.
pub open spec fn writes_struct(
    args: Json,
    attached: bool,
    tags: TypeTags,
    step: HostStep,
) -> bool {
    match (addr_at(args, 0), arg_at(args, 1)) {
        (Err(e), _) => step == HostStep::Done(Err(HostError::Arg(e))),
        (Ok(_), Err(e)) => step == HostStep::Done(Err(HostError::Arg(e))),
        (Ok(addr), Ok(v)) => match v.kind {
            JsonKind::List(s) => match arg_at(args, 2) {
                Err(e) => step == HostStep::Done(Err(HostError::Arg(e))),
                Ok(w) => match w.kind {
                    JsonKind::Record(values) => if !attached {
                        step == not_attached()
                    } else {
                        let plan = layout_of(
                            s@,
                            tags,
                            Misuse::WriteStructName,
                            Misuse::WriteStructType,
                        );
                        let out = field_writes(addr, plan.fields, values@);
                        writes_then(
                            step,
                            out.writes,
                            match out.error {
                                Some(e) => Err(e),
                                None => end_of(
                                    plan.error,
                                    Reply::Count(out.writes.len() as usize),
                                ),
                            },
                        )
                    },
                    _ => step == HostStep::Done(
                        Err(HostError::Misuse(Misuse::WriteStructValues)),
                    ),
                },
            },
            _ => step == HostStep::Done(Err(HostError::Misuse(Misuse::WriteStructLayout))),
        },
    }
}

#[verifier::loop_isolation(false)]
pub fn write_struct(args: &Json, attached: bool, tags: &TypeTags) -> (step: HostStep)
    ensures
        writes_struct(*args, attached, *tags, step),
{
    let addr: usize = match addr_arg(args, 0) {
        Ok(a) => a,
        Err(e) => return fail(HostError::Arg(e)),
    };
    let v = match arg(args, 1) {
        Ok(v) => v,
        Err(e) => return fail(HostError::Arg(e)),
    };
    let s = match &v.kind {
        JsonKind::List(s) => s,
        _ => return misuse(Misuse::WriteStructLayout),
    };
    let w = match arg(args, 2) {
        Ok(v) => v,
        Err(e) => return fail(HostError::Arg(e)),
    };
    let values = match &w.kind {
        JsonKind::Record(r) => r,
        _ => return misuse(Misuse::WriteStructValues),
    };
    if !attached {
        return misuse(Misuse::NotAttached);
    }
    let (fields, error, _) = layout_fields(
        s,
        tags,
        Misuse::WriteStructName,
        Misuse::WriteStructType,
    );
    let mut writes: Vec<MemWrite> = Vec::new();
    let mut i: usize = 0;
    assert(writes_view(writes@) =~= Seq::<WriteView>::empty());
    while i < fields.len()
        invariant
            i <= fields@.len(),
            fields_sized(fields@),
            field_writes(addr, fields@.subrange(0, i as int), values@) == (WritePlan {
                writes: writes_view(writes@),
                error: None,
            }),
        decreases fields@.len() - i,
    {
        assert(fields@.subrange(0, i + 1).drop_last() =~= fields@.subrange(0, i as int));
        let f = &fields[i];
        match find_member(values, f.name.as_str()) {
            None => {},
            Some(v) => match write_typed_value(tags, f.vt, v) {
                Ok(bytes) => {
                    let ghost before = writes@;
                    writes.push(MemWrite { addr: addr.wrapping_add(f.off), bytes });
                    assert(writes_view(writes@) =~= writes_view(before).push(writes@.last()@));
                },
                Err(e) => {
                    proof {
                        lemma_field_writes_stop(addr, fields@, values@, i + 1);
                    }
                    return HostStep::Ask(HostOp::Write { writes, then: Err(e) });
                },
            },
        }
        i += 1;
    }
    assert(fields@.subrange(0, fields@.len() as int) =~= fields@);
    let count: usize = writes.len();
    let then = match error {
        Some(e) => Err(e),
        None => Ok(Reply::Count(count)),
    };
    HostStep::Ask(HostOp::Write { writes, then })
}

/// The type that a method reads one number of, and how it answers it.
pub open spec fn read_method(method: Seq<char>) -> Option<(ScanValueType, NumberForm)> {
    if method == "mem.readI8"@ {
        Some((ScanValueType::I8, NumberForm::Plain))
    } else if method == "mem.readI16"@ {
        Some((ScanValueType::I16, NumberForm::Plain))
    } else if method == "mem.readI32"@ {
        Some((ScanValueType::I32, NumberForm::Plain))
    } else if method == "mem.readI64"@ {
        Some((ScanValueType::I64, NumberForm::Real))
    } else if method == "mem.readU8"@ {
        Some((ScanValueType::U8, NumberForm::Plain))
    } else if method == "mem.readU16"@ {
        Some((ScanValueType::U16, NumberForm::Plain))
    } else if method == "mem.readU32"@ {
        Some((ScanValueType::U32, NumberForm::Plain))
    } else if method == "mem.readU64"@ {
        Some((ScanValueType::U64, NumberForm::Real))
    } else if method == "mem.readU64Str"@ {
        Some((ScanValueType::U64, NumberForm::Decimal))
    } else if method == "mem.readF32"@ {
        Some((ScanValueType::F32, NumberForm::Plain))
    } else if method == "mem.readF64"@ {
        Some((ScanValueType::F64, NumberForm::Plain))
    } else {
        None
    }
}

fn read_method_exec(method: &str) -> (r: Option<(ScanValueType, NumberForm)>)
    ensures
        r == read_method(method@),
{
    if same_str(method, "mem.readI8") {
        Some((ScanValueType::I8, NumberForm::Plain))
    } else if same_str(method, "mem.readI16") {
        Some((ScanValueType::I16, NumberForm::Plain))
    } else if same_str(method, "mem.readI32") {
        Some((ScanValueType::I32, NumberForm::Plain))
    } else if same_str(method, "mem.readI64") {
        Some((ScanValueType::I64, NumberForm::Real))
    } else if same_str(method, "mem.readU8") {
        Some((ScanValueType::U8, NumberForm::Plain))
    } else if same_str(method, "mem.readU16") {
        Some((ScanValueType::U16, NumberForm::Plain))
    } else if same_str(method, "mem.readU32") {
        Some((ScanValueType::U32, NumberForm::Plain))
    } else if same_str(method, "mem.readU64") {
        Some((ScanValueType::U64, NumberForm::Real))
    } else if same_str(method, "mem.readU64Str") {
        Some((ScanValueType::U64, NumberForm::Decimal))
    } else if same_str(method, "mem.readF32") {
        Some((ScanValueType::F32, NumberForm::Plain))
    } else if same_str(method, "mem.readF64") {
        Some((ScanValueType::F64, NumberForm::Plain))
    } else {
        None
    }
}

/// The type that a method writes one number of.
pub open spec fn write_method(method: Seq<char>) -> Option<ScanValueType> {
    if method == "mem.writeI8"@ {
        Some(ScanValueType::I8)
    } else if method == "mem.writeI16"@ {
        Some(ScanValueType::I16)
    } else if method == "mem.writeI32"@ {
        Some(ScanValueType::I32)
    } else if method == "mem.writeI64"@ {
        Some(ScanValueType::I64)
    } else if method == "mem.writeU8"@ {
        Some(ScanValueType::U8)
    } else if method == "mem.writeU16"@ {
        Some(ScanValueType::U16)
    } else if method == "mem.writeU32"@ {
        Some(ScanValueType::U32)
    } else if method == "mem.writeU64"@ {
        Some(ScanValueType::U64)
    } else if method == "mem.writeF32"@ {
        Some(ScanValueType::F32)
    } else if method == "mem.writeF64"@ {
        Some(ScanValueType::F64)
    } else {
        None
    }
}

fn write_method_exec(method: &str) -> (r: Option<ScanValueType>)
    ensures
        r == write_method(method@),
        r matches Some(vt) ==> vt.width() is Some,
{
    if same_str(method, "mem.writeI8") {
        Some(ScanValueType::I8)
    } else if same_str(method, "mem.writeI16") {
        Some(ScanValueType::I16)
    } else if same_str(method, "mem.writeI32") {
        Some(ScanValueType::I32)
    } else if same_str(method, "mem.writeI64") {
        Some(ScanValueType::I64)
    } else if same_str(method, "mem.writeU8") {
        Some(ScanValueType::U8)
    } else if same_str(method, "mem.writeU16") {
        Some(ScanValueType::U16)
    } else if same_str(method, "mem.writeU32") {
        Some(ScanValueType::U32)
    } else if same_str(method, "mem.writeU64") {
        Some(ScanValueType::U64)
    } else if same_str(method, "mem.writeF32") {
        Some(ScanValueType::F32)
    } else if same_str(method, "mem.writeF64") {
        Some(ScanValueType::F64)
    } else {
        None
    }
}

/// A call that reads one number, such as `mem.readI32(addr)`.
pub open spec fn read_number_step(
    args: Json,
    attached: bool,
    vt: ScanValueType,
    form: NumberForm,
) -> HostStep {
    match addr_at(args, 0) {
        Err(e) => HostStep::Done(Err(HostError::Arg(e))),
        Ok(addr) => if !attached {
            not_attached()
        } else {
            HostStep::Ask(HostOp::ReadNumber { addr, vt, form })
        },
    }
}

pub fn read_number(args: &Json, attached: bool, vt: ScanValueType, form: NumberForm) -> (step:
    HostStep)
    ensures
        step == read_number_step(*args, attached, vt, form),
{
    let addr: usize = match addr_arg(args, 0) {
        Ok(a) => a,
        Err(e) => return fail(HostError::Arg(e)),
    };
    if !attached {
        return misuse(Misuse::NotAttached);
    }
    HostStep::Ask(HostOp::ReadNumber { addr, vt, form })
}

/// How a number is answered.
pub open spec fn is_number_reply(r: Reply, v: NumValue, form: NumberForm) -> bool {
    match form {
        NumberForm::Plain => r == Reply::Plain(v),
        NumberForm::Real => r == Reply::Real(v),
        NumberForm::Decimal => r matches Reply::Text(t) && t@ == match v {
            NumValue::Unsigned(u) => decimal(u as nat),
            _ => ""@,
        },
    }
}

/// Answers a call that reads one number.
pub fn finish_read_number(vt: ScanValueType, form: NumberForm, read: Result<Vec<u8>, String>) -> (r:
    Result<Reply, HostError>)
    requires
        read matches Ok(b) ==> (vt.width() matches Some(n) && n <= b@.len()),
    ensures
        match read {
            Ok(b) => r matches Ok(reply) && is_number_reply(reply, number_in(vt, b@), form),
            Err(e) => r == Err::<Reply, HostError>(HostError::Failed(Stage::Read, e)),
        },
{
    let b = match read {
        Ok(b) => b,
        Err(e) => return Err(HostError::Failed(Stage::Read, e)),
    };
    let v = bytes_to_json_num(vt, b.as_slice());
    match form {
        NumberForm::Plain => Ok(Reply::Plain(v)),
        NumberForm::Real => Ok(Reply::Real(v)),
        NumberForm::Decimal => match v {
            NumValue::Unsigned(u) => Ok(Reply::Text(string_of(decimal_exec(u).as_slice()))),
            _ => Ok(Reply::Text("".to_string())),
        },
    }
}

/// A call that writes one number, such as `mem.writeI32(addr, value)`.
pub open spec fn writes_number(
    args: Json,
    attached: bool,
    vt: ScanValueType,
    step: HostStep,
) -> bool {
    match (addr_at(args, 0), arg_at(args, 1)) {
        (Err(e), _) => step == HostStep::Done(Err(HostError::Arg(e))),
        (Ok(_), Err(e)) => step == HostStep::Done(Err(HostError::Arg(e))),
        (Ok(addr), Ok(v)) => match value_bytes(vt, v) {
            Err(e) => step == HostStep::Done(Err(e)),
            Ok(b) => if !attached {
                step == not_attached()
            } else {
                writes_then(step, seq![WriteView { addr, bytes: b }], Ok(Reply::Bool(true)))
            },
        },
    }
}

pub fn write_number(args: &Json, attached: bool, vt: ScanValueType) -> (step: HostStep)
    requires
        vt.width() is Some,
    ensures
        writes_number(*args, attached, vt, step),
{
    let addr: usize = match addr_arg(args, 0) {
        Ok(a) => a,
        Err(e) => return fail(HostError::Arg(e)),
    };
    let v = match arg(args, 1) {
        Ok(v) => v,
        Err(e) => return fail(HostError::Arg(e)),
    };
    let bytes = match number_bytes(vt, v) {
        Ok(b) => b,
        Err(e) => return fail(e),
    };
    if !attached {
        return misuse(Misuse::NotAttached);
    }
    let mut writes: Vec<MemWrite> = Vec::new();
    writes.push(MemWrite { addr, bytes });
    assert(writes_view(writes@) =~= seq![WriteView { addr, bytes: bytes@ }]);
    HostStep::Ask(HostOp::Write { writes, then: Ok(Reply::Bool(true)) })
}

/// `mem.readPointer(addr)`.
pub open spec fn read_pointer_step(args: Json, attached: bool) -> HostStep {
    match addr_at(args, 0) {
        Err(e) => HostStep::Done(Err(HostError::Arg(e))),
        Ok(addr) => if !attached {
            not_attached()
        } else {
            HostStep::Ask(HostOp::ReadPointer { addr })
        },
    }
}

pub fn read_pointer(args: &Json, attached: bool) -> (step: HostStep)
    ensures
        step == read_pointer_step(*args, attached),
{
    let addr: usize = match addr_arg(args, 0) {
        Ok(a) => a,
        Err(e) => return fail(HostError::Arg(e)),
    };
    if !attached {
        return misuse(Misuse::NotAttached);
    }
    HostStep::Ask(HostOp::ReadPointer { addr })
}

/// Answers `mem.readPointer`.
pub fn finish_read_pointer(read: Result<usize, String>) -> (r: Result<Reply, HostError>)
    ensures
        r == match read {
            Ok(p) => Ok::<Reply, HostError>(Reply::Address(p)),
            Err(e) => Err::<Reply, HostError>(HostError::Failed(Stage::Read, e)),
        },
{
    match read {
        Ok(p) => Ok(Reply::Address(p)),
        Err(e) => Err(HostError::Failed(Stage::Read, e)),
    }
}

/// An encoding names 16-bit units.
pub open spec fn is_wide(enc: Option<String>) -> bool {
    enc matches Some(e) && same_ignoring_case(e@, "utf16"@)
}

fn is_wide_exec(enc: &Option<String>) -> (r: bool)
    ensures
        r == is_wide(*enc),
{
    match enc {
        Some(e) => same_ignoring_case_exec(e.as_str(), "utf16"),
        None => false,
    }
}

/// The most units that are read of a string.
pub open spec fn capped(max: usize) -> usize {
    if max < MAX_SCRIPT_READ {
        max
    } else {
        MAX_SCRIPT_READ
    }
}

/// A text of 16-bit units is read on: the next unit, or the text where all that
/// was asked for has been read.
pub open spec fn reads_units(addr: usize, max: usize, units: Seq<u16>, step: HostStep) -> bool {
    if units.len() < max {
        step matches HostStep::Ask(HostOp::ReadUnit { at, addr: a, max: m, units: u }) && at
            == addr.wrapping_add((units.len() as usize).wrapping_mul(2)) && a == addr && m == max
            && u@ == units
    } else {
        step matches HostStep::Done(Ok(Reply::Text(t))) && is_utf16_text(units, t@)
    }
}

fn read_units(addr: usize, max: usize, units: Vec<u16>) -> (step: HostStep)
    ensures
        reads_units(addr, max, units@, step),
{
    if units.len() < max {
        HostStep::Ask(
            HostOp::ReadUnit {
                at: addr.wrapping_add(units.len().wrapping_mul(2)),
                addr,
                max,
                units,
            },
        )
    } else {
        HostStep::Done(Ok(Reply::Text(utf16_lossy(units.as_slice()))))
    }
}

/// Goes on with a text of 16-bit units once the next unit is read. A zero ends
/// the text.
pub fn next_unit(addr: usize, max: usize, units: Vec<u16>, read: Result<u16, String>) -> (step:
    HostStep)
    ensures
        match read {
            Err(e) => step == HostStep::Done(Err(HostError::Failed(Stage::Read, e))),
            Ok(u) => if u == 0 {
                step matches HostStep::Done(Ok(Reply::Text(t))) && is_utf16_text(units@, t@)
            } else {
                reads_units(addr, max, units@.push(u), step)
            },
        },
{
    let u: u16 = match read {
        Ok(u) => u,
        Err(e) => return fail(HostError::Failed(Stage::Read, e)),
    };
    if u == 0 {
        return HostStep::Done(Ok(Reply::Text(utf16_lossy(units.as_slice()))));
    }
    let mut units = units;
    units.push(u);
    read_units(addr, max, units)
}

/// `mem.readString(addr, max, encoding?)`.
pub open spec fn reads_string(args: Json, attached: bool, step: HostStep) -> bool {
    match (addr_at(args, 0), size_at(args, 1)) {
        (Err(e), _) => step == HostStep::Done(Err(HostError::Arg(e))),
        (Ok(_), Err(e)) => step == HostStep::Done(Err(HostError::Arg(e))),
        (Ok(addr), Ok(max)) => if !attached {
            step == not_attached()
        } else if is_wide(opt_text(opt_arg_at(args, 2))) {
            reads_units(addr, capped(max), Seq::empty(), step)
        } else {
            step == HostStep::Ask(HostOp::ReadText { addr, max: capped(max) })
        },
    }
}

pub fn read_string(args: &Json, attached: bool) -> (step: HostStep)
    ensures
        reads_string(*args, attached, step),
{
    let addr: usize = match addr_arg(args, 0) {
        Ok(a) => a,
        Err(e) => return fail(HostError::Arg(e)),
    };
    let max: usize = match size_arg(args, 1) {
        Ok(n) => n,
        Err(e) => return fail(HostError::Arg(e)),
    };
    let enc = opt_text_arg(opt_arg(args, 2));
    if !attached {
        return misuse(Misuse::NotAttached);
    }
    let max: usize = if max < MAX_SCRIPT_READ {
        max
    } else {
        MAX_SCRIPT_READ
    };
    if is_wide_exec(&enc) {
        let units: Vec<u16> = Vec::new();
        assert(units@ =~= Seq::<u16>::empty());
        read_units(addr, max, units)
    } else {
        HostStep::Ask(HostOp::ReadText { addr, max })
    }
}

/// Answers `mem.readString` with the text in front of the first zero byte.
pub fn finish_read_text(read: Result<Vec<u8>, String>) -> (r: Result<Reply, HostError>)
    ensures
        match read {
            Ok(b) => r matches Ok(Reply::Text(t)) && t@ == lossy_utf8(up_to_nul(b@)) && (
            valid_utf8(up_to_nul(b@)) ==> t@ == decode_utf8(up_to_nul(b@))),
            Err(e) => r == Err::<Reply, HostError>(HostError::Failed(Stage::Read, e)),
        },
{
    let b = match read {
        Ok(b) => b,
        Err(e) => return Err(HostError::Failed(Stage::Read, e)),
    };
    let n: usize = nul_position(b.as_slice());
    Ok(Reply::Text(utf8_lossy(slice_subrange(b.as_slice(), 0, n))))
}

/// One write per 16-bit unit, each two bytes further on.
pub open spec fn unit_writes(addr: usize, u: Seq<u16>) -> Seq<WriteView> {
    Seq::new(
        u.len(),
        |i: int|
            WriteView {
                addr: addr.wrapping_add((i as usize).wrapping_mul(2)),
                bytes: le_bytes(u[i] as int, 2),
            },
    )
}

fn wide_writes(addr: usize, u: &[u16]) -> (w: Vec<MemWrite>)
    ensures
        writes_view(w@) == unit_writes(addr, u@),
{
    let mut w: Vec<MemWrite> = Vec::new();
    let mut i: usize = 0;
    while i < u.len()
        invariant
            i <= u@.len(),
            writes_view(w@) == unit_writes(addr, u@).subrange(0, i as int),
        decreases u@.len() - i,
    {
        let ghost before = w@;
        let bytes = to_le(u[i] as u64, 2);
        w.push(MemWrite { addr: addr.wrapping_add(i.wrapping_mul(2)), bytes });
        proof {
            let all = unit_writes(addr, u@);
            assert(writes_view(w@) =~= writes_view(before).push(w@.last()@));
            assert(w@.last()@ == all[i as int]);
            assert(writes_view(w@) =~= all.subrange(0, i + 1));
        }
        i += 1;
    }
    assert(unit_writes(addr, u@).subrange(0, u@.len() as int) =~= unit_writes(addr, u@));
    w
}

/// The writes of a string, with a zero behind it.
pub open spec fn string_writes(addr: usize, s: Seq<char>, wide: bool) -> Seq<WriteView> {
    if wide {
        unit_writes(addr, utf16_of(s).push(0))
    } else {
        byte_writes(addr, encode_utf8(s).push(0))
    }
}

/// `mem.writeString(addr, text, encoding?)`.
pub open spec fn writes_string(args: Json, attached: bool, step: HostStep) -> bool {
    match (addr_at(args, 0), text_at(args, 1)) {
        (Err(e), _) => step == HostStep::Done(Err(HostError::Arg(e))),
        (Ok(_), Err(e)) => step == HostStep::Done(Err(HostError::Arg(e))),
        (Ok(addr), Ok(s)) => if !attached {
            step == not_attached()
        } else {
            writes_then(
                step,
                string_writes(addr, s@, is_wide(opt_text(opt_arg_at(args, 2)))),
                Ok(Reply::Bool(true)),
            )
        },
    }
}

pub fn write_string(args: &Json, attached: bool) -> (step: HostStep)
    ensures
        writes_string(*args, attached, step),
{
    let addr: usize = match addr_arg(args, 0) {
        Ok(a) => a,
        Err(e) => return fail(HostError::Arg(e)),
    };
    let s = match text_arg(args, 1) {
        Ok(t) => t,
        Err(e) => return fail(HostError::Arg(e)),
    };
    let enc = opt_text_arg(opt_arg(args, 2));
    if !attached {
        return misuse(Misuse::NotAttached);
    }
    if is_wide_exec(&enc) {
        let mut units = encode_utf16(s.as_str());
        units.push(0);
        let writes = wide_writes(addr, units.as_slice());
        HostStep::Ask(HostOp::Write { writes, then: Ok(Reply::Bool(true)) })
    } else {
        let mut bytes = s.as_str().as_bytes_vec();
        bytes.push(0);
        let writes = single_writes(addr, bytes.as_slice());
        HostStep::Ask(HostOp::Write { writes, then: Ok(Reply::Bool(true)) })
    }
}

/// A pointer chain goes on at `addr`: the next pointer, or the address where all
/// offsets are used up.
pub open spec fn follows_chain(addr: usize, offs: Seq<i64>, n: int, step: HostStep) -> bool {
    if n < offs.len() {
        step matches HostStep::Ask(HostOp::ReadLink { at, offsets, next }) && at == addr
            && offsets@ == offs && next == n
    } else {
        step == HostStep::Done(Ok(Reply::Address(addr)))
    }
}

fn follow_chain(addr: usize, offsets: Vec<i64>, next: usize) -> (step: HostStep)
    ensures
        follows_chain(addr, offsets@, next as int, step),
{
    if next < offsets.len() {
        HostStep::Ask(HostOp::ReadLink { at: addr, offsets, next })
    } else {
        HostStep::Done(Ok(Reply::Address(addr)))
    }
}

/// A chain went on once its next pointer was read: the offset was added to it.
pub open spec fn takes_link(
    offs: Seq<i64>,
    n: int,
    read: Result<usize, String>,
    step: HostStep,
) -> bool {
    match read {
        Err(e) => step == HostStep::Done(Err(HostError::Failed(Stage::ChainRead, e))),
        Ok(p) => follows_chain(wrapped(p + offs[n]), offs, n + 1, step),
    }
}

/// Goes on with a chain once its next pointer is read: the offset is added to
/// it.
pub fn next_link(offsets: Vec<i64>, next: usize, read: Result<usize, String>) -> (step: HostStep)
    requires
        next < offsets@.len(),
    ensures
        takes_link(offsets@, next as int, read, step),
{
    let p: usize = match read {
        Ok(p) => p,
        Err(e) => return fail(HostError::Failed(Stage::ChainRead, e)),
    };
    let count: usize = offsets.len();
    let addr: usize = wrap_sum(p, offsets[next]);
    assert(next < count);
    follow_chain(addr, offsets, next + 1)
}

/// `mem.readChain(base, offsets)`.
pub open spec fn reads_chain(args: Json, attached: bool, step: HostStep) -> bool {
    match (addr_at(args, 0), arg_at(args, 1)) {
        (Err(e), _) => step == HostStep::Done(Err(HostError::Arg(e))),
        (Ok(_), Err(e)) => step == HostStep::Done(Err(HostError::Arg(e))),
        (Ok(base), Ok(v)) => match v.kind {
            JsonKind::List(s) => match ints_of(s@) {
                Err(e) => step == HostStep::Done(Err(HostError::Arg(e))),
                Ok(offsets) => if !attached {
                    step == not_attached()
                } else {
                    follows_chain(base, offsets, 0, step)
                },
            },
            _ => step == HostStep::Done(Err(HostError::Misuse(Misuse::ChainNeedsArray))),
        },
    }
}

pub fn read_chain(args: &Json, attached: bool) -> (step: HostStep)
    ensures
        reads_chain(*args, attached, step),
{
    let base: usize = match addr_arg(args, 0) {
        Ok(a) => a,
        Err(e) => return fail(HostError::Arg(e)),
    };
    let v = match arg(args, 1) {
        Ok(v) => v,
        Err(e) => return fail(HostError::Arg(e)),
    };
    match &v.kind {
        JsonKind::List(s) => match all_ints(s) {
            Err(e) => fail(HostError::Arg(e)),
            Ok(offsets) => if !attached {
                misuse(Misuse::NotAttached)
            } else {
                follow_chain(base, offsets, 0)
            },
        },
        _ => misuse(Misuse::ChainNeedsArray),
    }
}

/// `mem.isValid(addr)`.
pub open spec fn is_valid_step(args: Json, pid: Option<u32>) -> HostStep {
    match addr_at(args, 0) {
        Err(e) => HostStep::Done(Err(HostError::Arg(e))),
        Ok(addr) => match pid {
            None => not_attached(),
            Some(pid) => HostStep::Ask(HostOp::IsMapped { addr, pid }),
        },
    }
}

pub fn is_valid(args: &Json, pid: Option<u32>) -> (step: HostStep)
    ensures
        step == is_valid_step(*args, pid),
{
    let addr: usize = match addr_arg(args, 0) {
        Ok(a) => a,
        Err(e) => return fail(HostError::Arg(e)),
    };
    match pid {
        None => misuse(Misuse::NotAttached),
        Some(pid) => HostStep::Ask(HostOp::IsMapped { addr, pid }),
    }
}

/// Answers `mem.isValid`.
pub fn finish_is_valid(mapped: Result<bool, String>) -> (r: Result<Reply, HostError>)
    ensures
        r == match mapped {
            Ok(b) => Ok::<Reply, HostError>(Reply::Bool(b)),
            Err(e) => Err::<Reply, HostError>(HostError::Failed(Stage::Regions, e)),
        },
{
    match mapped {
        Ok(b) => Ok(Reply::Bool(b)),
        Err(e) => Err(HostError::Failed(Stage::Regions, e)),
    }
}

/// What a method that reads or writes the target's memory does; `None` for a
/// method that is none of these.
pub open spec fn mem_called(
    method: Seq<char>,
    args: Json,
    pid: Option<u32>,
    tags: TypeTags,
    r: Option<HostStep>,
) -> bool {
    let attached = pid is Some;
    if method == "mem.readBytes"@ {
        r == Some(read_bytes_step(args, attached))
    } else if method == "mem.writeBytes"@ {
        r matches Some(s) && writes_bytes(args, attached, s)
    } else if method == "mem.readValues"@ {
        r == Some(read_values_step(args, attached, tags))
    } else if method == "mem.writeValues"@ {
        r matches Some(s) && writes_values(args, attached, tags, s)
    } else if method == "mem.resolveRip"@ {
        r == Some(resolve_rip_step(args, attached))
    } else if method == "mem.readStruct"@ {
        r matches Some(s) && reads_struct(args, attached, tags, s)
    } else if method == "mem.readStructArray"@ {
        r matches Some(s) && reads_array(args, attached, tags, s)
    } else if method == "mem.writeStruct"@ {
        r matches Some(s) && writes_struct(args, attached, tags, s)
    } else if read_method(method) is Some {
        r == Some(
            read_number_step(args, attached, (read_method(method)->0).0, (read_method(method)->0).1),
        )
    } else if write_method(method) is Some {
        r matches Some(s) && writes_number(args, attached, write_method(method)->0, s)
    } else if method == "mem.readPointer"@ {
        r == Some(read_pointer_step(args, attached))
    } else if method == "mem.readString"@ {
        r matches Some(s) && reads_string(args, attached, s)
    } else if method == "mem.writeString"@ {
        r matches Some(s) && writes_string(args, attached, s)
    } else if method == "mem.readChain"@ {
        r matches Some(s) && reads_chain(args, attached, s)
    } else if method == "mem.isValid"@ {
        r == Some(is_valid_step(args, pid))
    } else {
        r is None
    }
}

/// Calls a method that reads or writes the target's memory.
pub fn mem_call(method: &str, args: &Json, pid: Option<u32>, tags: &TypeTags) -> (r: Option<
    HostStep,
>)
    ensures
        mem_called(method@, *args, pid, *tags, r),
{
    let attached = pid.is_some();
    if same_str(method, "mem.readBytes") {
        return Some(read_bytes(args, attached));
    }
    if same_str(method, "mem.writeBytes") {
        return Some(write_bytes(args, attached));
    }
    if same_str(method, "mem.readValues") {
        return Some(read_values(args, attached, tags));
    }
    if same_str(method, "mem.writeValues") {
        return Some(write_values(args, attached, tags));
    }
    if same_str(method, "mem.resolveRip") {
        return Some(resolve_rip(args, attached));
    }
    if same_str(method, "mem.readStruct") {
        return Some(read_struct(args, attached, tags));
    }
    if same_str(method, "mem.readStructArray") {
        return Some(read_struct_array(args, attached, tags));
    }
    if same_str(method, "mem.writeStruct") {
        return Some(write_struct(args, attached, tags));
    }
    if let Some((vt, form)) = read_method_exec(method) {
        return Some(read_number(args, attached, vt, form));
    }
    if let Some(vt) = write_method_exec(method) {
        return Some(write_number(args, attached, vt));
    }
    if same_str(method, "mem.readPointer") {
        return Some(read_pointer(args, attached));
    }
    if same_str(method, "mem.readString") {
        return Some(read_string(args, attached));
    }
    if same_str(method, "mem.writeString") {
        return Some(write_string(args, attached));
    }
    if same_str(method, "mem.readChain") {
        return Some(read_chain(args, attached));
    }
    if same_str(method, "mem.isValid") {
        return Some(is_valid(args, pid));
    }
    None
}

/// The bytes that a run of writes puts at `addr + i`, where each write is of one
/// byte, are those of the run.
pub open spec fn run_of_bytes(w: Seq<WriteView>) -> Seq<u8> {
    Seq::new(w.len(), |i: int| w[i].bytes[0])
}

pub proof fn lemma_up_to_nul(s: Seq<u8>)
    requires
        forall|i: int| 0 <= i < s.len() ==> s[i] != 0,
    ensures
        up_to_nul(s.push(0)) == s,
    decreases s.len(),
{
    if s.len() > 0 {
        let t = s.subrange(1, s.len() as int);
        lemma_up_to_nul(t);
        assert(s.push(0).subrange(1, (s.len() + 1) as int) =~= t.push(0));
        assert(seq![s[0]] + t =~= s);
    } else {
        assert(up_to_nul(s.push(0)) =~= s);
    }
}

pub proof fn lemma_no_zero_byte(s: Seq<char>)
    requires
        forall|i: int| 0 <= i < s.len() ==> s[i] as u32 != 0,
    ensures
        forall|i: int| 0 <= i < encode_utf8(s).len() ==> encode_utf8(s)[i] != 0,
    decreases s.len(),
{
    if s.len() > 0 {
        let c = s[0] as u32;
        let rest = s.drop_first();
        assert forall|i: int| 0 <= i < rest.len() implies rest[i] as u32 != 0 by {
            assert(rest[i] == s[i + 1]);
        }
        lemma_no_zero_byte(rest);
        assert(c != 0);
        let e = encode_scalar(c);
        assert forall|i: int| 0 <= i < e.len() implies e[i] != 0 by {
            assert(0 < c && c <= 0x7F ==> (c & 0x7F) as u8 != 0) by (bit_vector);
            assert(0xC0u8 | ((c >> 6) & 0x1F) as u8 != 0) by (bit_vector);
            assert(0xE0u8 | ((c >> 12) & 0x0F) as u8 != 0) by (bit_vector);
            assert(0xF0u8 | ((c >> 18) & 0x07) as u8 != 0) by (bit_vector);
            assert(0x80u8 | (c & 0x3F) as u8 != 0) by (bit_vector);
            assert(0x80u8 | ((c >> 6) & 0x3F) as u8 != 0) by (bit_vector);
            assert(0x80u8 | ((c >> 12) & 0x3F) as u8 != 0) by (bit_vector);
        }
        assert(encode_utf8(s) == e + encode_utf8(rest));
    }
}

/// A text that was written is read back: what `mem.writeString` writes of a text
/// without a NUL, `mem.readString` answers as that text.
pub proof fn written_text_reads_back(addr: usize, s: Seq<char>)
    requires
        forall|i: int| 0 <= i < s.len() ==> s[i] as u32 != 0,
    ensures
        ({
            let b = run_of_bytes(string_writes(addr, s, false));
            valid_utf8(up_to_nul(b)) && decode_utf8(up_to_nul(b)) == s
        }),
{
    let b = run_of_bytes(string_writes(addr, s, false));
    assert(b =~= encode_utf8(s).push(0));
    lemma_no_zero_byte(s);
    lemma_up_to_nul(encode_utf8(s));
    encode_utf8_valid_utf8(s);
    encode_utf8_decode_utf8(s);
}

/// The units that a run of writes puts two bytes apart, where each write is of
/// one unit.
pub open spec fn run_of_units(w: Seq<WriteView>) -> Seq<u16> {
    Seq::new(w.len(), |i: int| le_value(w[i].bytes) as u16)
}

proof fn lemma_char_no_zero_unit(c: char)
    requires
        c as u32 != 0,
    ensures
        forall|i: int| 0 <= i < utf16_of_char(c).len() ==> utf16_of_char(c)[i] != 0,
{
    let n = c as u32 as int;
    assert(0 < n <= 0x10_FFFF);
    if n >= 0x1_0000 {
        assert(0xd800 <= 0xd800 + (n - 0x1_0000) / 0x400 <= 0xdbff);
    }
}

pub proof fn lemma_no_zero_unit(s: Seq<char>)
    requires
        forall|i: int| 0 <= i < s.len() ==> s[i] as u32 != 0,
    ensures
        forall|i: int| 0 <= i < utf16_of(s).len() ==> utf16_of(s)[i] != 0,
    decreases s.len(),
{
    if s.len() > 0 {
        let rest = s.drop_last();
        assert forall|i: int| 0 <= i < rest.len() implies rest[i] as u32 != 0 by {
            assert(rest[i] == s[i]);
        }
        lemma_no_zero_unit(rest);
        assert(s[s.len() - 1] as u32 != 0);
        lemma_char_no_zero_unit(s.last());
        let a = utf16_of(rest);
        let b = utf16_of_char(s.last());
        assert(utf16_of(s) == a + b);
        assert forall|i: int| 0 <= i < (a + b).len() implies (a + b)[i] != 0 by {
            if i < a.len() {
                assert((a + b)[i] == a[i]);
            } else {
                assert((a + b)[i] == b[i - a.len()]);
            }
        }
    }
}

/// A text that was written in 16-bit units is read back: what `mem.writeString`
/// writes of a text without a NUL ends with the first zero unit, and the units in
/// front of it are answered by `mem.readString` as that text.
pub proof fn written_wide_text_reads_back(addr: usize, s: Seq<char>, text: Seq<char>)
    requires
        forall|i: int| 0 <= i < s.len() ==> s[i] as u32 != 0,
        is_utf16_text(run_of_units(string_writes(addr, s, true)).drop_last(), text),
    ensures
        run_of_units(string_writes(addr, s, true)).last() == 0,
        forall|i: int|
            0 <= i < run_of_units(string_writes(addr, s, true)).len() - 1
                ==> #[trigger] run_of_units(string_writes(addr, s, true))[i] != 0,
        text == s,
{
    let units = utf16_of(s).push(0);
    let run = run_of_units(string_writes(addr, s, true));
    let writes = unit_writes(addr, units);
    assert forall|i: int| 0 <= i < run.len() implies run[i] == units[i] by {
        let unit = units[i] as int;
        lemma_pow256_small();
        lemma_le_round_trip(unit, 2);
        assert(writes[i].bytes == le_bytes(unit, 2));
        assert(unit % 0x1_0000 == unit);
        assert(run[i] == le_value(writes[i].bytes) as u16);
    }
    assert(run =~= units);
    assert(run.drop_last() =~= utf16_of(s));
    lemma_no_zero_unit(s);
}

/// An integer that was written is read back, where it fits the type.
pub proof fn written_integer_reads_back(vt: ScanValueType, v: Json)
    requires
        match vt.layout() {
            Layout::Signed(n) => int_of(v) matches Ok(i) && -signed_max(n) - 1 <= i <= signed_max(n),
            Layout::Unsigned(n) => uint_of(v) matches Ok(u) && u <= unsigned_max(n),
            _ => false,
        },
    ensures
        value_bytes(vt, v) matches Ok(b) && number_in(vt, b) == match vt.layout() {
            Layout::Signed(_) => NumValue::Signed(int_of(v)->Ok_0),
            _ => NumValue::Unsigned(uint_of(v)->Ok_0),
        },
{
    let n = vt.width()->0;
    let b = value_bytes(vt, v)->Ok_0;
    lemma_pow256_small();
    match vt.layout() {
        Layout::Signed(_) => {
            let i = int_of(v)->Ok_0 as int;
            lemma_le_bytes_len(i, n as nat);
            lemma_signed_round_trip(i, n as nat);
            assert(b.subrange(0, n as int) =~= b);
        },
        _ => {
            let u = uint_of(v)->Ok_0 as int;
            lemma_le_bytes_len(u, n as nat);
            lemma_le_round_trip(u, n as nat);
            lemma_small_mod(u as nat, pow256(n as nat));
            assert(b.subrange(0, n as int) =~= b);
        },
    }
}

} // verus!

//! The calls from scripts that scan the target, and those that disassemble it.
use vstd::prelude::*;

use crate::disassembly::{MAX_SIGNATURE, MIN_SIGNATURE};
use crate::host_error::{HostError, Misuse, Stage, MAX_SCRIPT_READ};
use crate::host_mem::{rip_target, rip_target_exec};
use crate::host_ops::{HitReply, HostOp, HostStep, PathReply, PathStart, Reply};
use crate::host_proc::{
    asked_module, asked_module_exec, fail, module_holding, module_holding_exec, modules_of,
    modules_of_exec, Target,
};
use crate::json::{
    addr_arg, addr_at, arg, arg_at, as_real, as_str, bool_of, bool_value, deref, get, member,
    number_of, opt_arg, opt_arg_at, opt_text, opt_text_arg, real_of, real_value, size_arg, size_at,
    text_arg, text_at, text_of_value, ArgError, Json, JsonKind, RealParts,
};
use crate::process_reader::ModuleInfo;
use crate::scan_value::{
    bytes_to_json_num, number_in, numeric_type, numeric_type_exec, NumValue, ScanValueType, TypeTags,
};
use crate::text::{ascii_lower, ascii_lower_exec, chars_of, same_str, string_of};

verus! {

/// The most hits that a scan for a value answers.
pub const VALUE_SCAN_CAP: usize = 10000;

/// The module that the options of a call name.
pub open spec fn module_option(args: Json, i: nat) -> Option<String> {
    opt_text(member(opt_arg_at(args, i), "module"@))
}

fn module_option_exec(args: &Json, i: usize) -> (r: Option<String>)
    ensures
        r == module_option(*args, i as nat),
{
    opt_text_arg(get(opt_arg(args, i), "module"))
}

/// `scan.aob(pattern, opts?)`.
pub open spec fn aob_step(args: Json, process: Option<Target>) -> HostStep {
    match text_at(args, 0) {
        Err(e) => HostStep::Done(Err(HostError::Arg(e))),
        Ok(pattern) => match asked_module(process, module_option(args, 1)) {
            Err(e) => HostStep::Done(Err(e)),
            Ok(m) => HostStep::Ask(HostOp::PatternScan { base: m.base, size: m.size, pattern }),
        },
    }
}

pub fn aob(args: &Json, process: &Option<Target>) -> (step: HostStep)
    ensures
        step == aob_step(*args, *process),
{
    let pattern = match text_arg(args, 0) {
        Ok(t) => t,
        Err(e) => return fail(HostError::Arg(e)),
    };
    match asked_module_exec(process, module_option_exec(args, 1)) {
        Err(e) => fail(e),
        Ok(m) => HostStep::Ask(HostOp::PatternScan { base: m.base, size: m.size, pattern }),
    }
}

/// `scan.aobResolveRip(pattern, dispOffset, instrLen, opts?)`.
pub open spec fn aob_rip_step(args: Json, process: Option<Target>) -> HostStep {
    match (text_at(args, 0), size_at(args, 1), size_at(args, 2)) {
        (Err(e), _, _) => HostStep::Done(Err(HostError::Arg(e))),
        (Ok(_), Err(e), _) => HostStep::Done(Err(HostError::Arg(e))),
        (Ok(_), Ok(_), Err(e)) => HostStep::Done(Err(HostError::Arg(e))),
        (Ok(pattern), Ok(disp_off), Ok(instr_len)) => match asked_module(
            process,
            module_option(args, 3),
        ) {
            Err(e) => HostStep::Done(Err(e)),
            Ok(m) => HostStep::Ask(
                HostOp::PatternRip {
                    base: m.base,
                    size: m.size,
                    pattern,
                    disp_off,
                    instr_len,
                    deref: match bool_of(member(opt_arg_at(args, 3), "deref"@)) {
                        Some(b) => b,
                        None => false,
                    },
                },
            ),
        },
    }
}

pub fn aob_rip(args: &Json, process: &Option<Target>) -> (step: HostStep)
    ensures
        step == aob_rip_step(*args, *process),
{
    let pattern = match text_arg(args, 0) {
        Ok(t) => t,
        Err(e) => return fail(HostError::Arg(e)),
    };
    let disp_off: usize = match size_arg(args, 1) {
        Ok(n) => n,
        Err(e) => return fail(HostError::Arg(e)),
    };
    let instr_len: usize = match size_arg(args, 2) {
        Ok(n) => n,
        Err(e) => return fail(HostError::Arg(e)),
    };
    let module = module_option_exec(args, 3);
    let deref = match bool_value(get(opt_arg(args, 3), "deref")) {
        Some(b) => b,
        None => false,
    };
    match asked_module_exec(process, module) {
        Err(e) => fail(e),
        Ok(m) => HostStep::Ask(
            HostOp::PatternRip {
                base: m.base,
                size: m.size,
                pattern,
                disp_off,
                instr_len,
                deref,
            },
        ),
    }
}

/// What is done with the hits of `scan.aobResolveRip`: read the displacement of
/// the first, or answer null where there is none.
#[derive(Clone, Copy, Debug, PartialEq, Eq, Structural)]
pub enum RipNext {
    Null,
    /// Read the displacement there; the instruction starts at `insn`.
    ReadDisplacement { at: usize, insn: usize },
}

pub fn rip_of_hits(hits: &Vec<usize>, disp_off: usize) -> (n: RipNext)
    ensures
        n == if hits@.len() == 0 {
            RipNext::Null
        } else {
            RipNext::ReadDisplacement { at: hits@[0].wrapping_add(disp_off), insn: hits@[0] }
        },
{
    if hits.len() == 0 {
        RipNext::Null
    } else {
        RipNext::ReadDisplacement { at: hits[0].wrapping_add(disp_off), insn: hits[0] }
    }
}

/// Goes on with `scan.aobResolveRip` once the displacement is read: the target,
/// or the pointer there where it is to be followed.
pub fn rip_resolved(insn: usize, instr_len: usize, deref: bool, disp: Result<i32, String>) -> (step:
    HostStep)
    ensures
        step == match disp {
            Err(e) => HostStep::Done(Err(HostError::Failed(Stage::ReadRelative, e))),
            Ok(d) => if deref {
                HostStep::Ask(HostOp::ReadPointer { addr: rip_target(insn, instr_len, d) })
            } else {
                HostStep::Done(Ok(Reply::Address(rip_target(insn, instr_len, d))))
            },
        },
{
    match disp {
        Err(e) => fail(HostError::Failed(Stage::ReadRelative, e)),
        Ok(d) => {
            let target: usize = rip_target_exec(insn, instr_len, d);
            if deref {
                HostStep::Ask(HostOp::ReadPointer { addr: target })
            } else {
                HostStep::Done(Ok(Reply::Address(target)))
            }
        },
    }
}

/// Answers `scan.aobResolveRip` with the pointer at its target.
pub fn finish_rip_deref(read: Result<usize, String>) -> (r: Result<Reply, HostError>)
    ensures
        r == match read {
            Ok(p) => Ok::<Reply, HostError>(Reply::Address(p)),
            Err(e) => Err::<Reply, HostError>(HostError::Failed(Stage::Deref, e)),
        },
{
    match read {
        Ok(p) => Ok(Reply::Address(p)),
        Err(e) => Err(HostError::Failed(Stage::Deref, e)),
    }
}

/// The type that a scan for a value is asked for, in any case of its letters.
pub open spec fn scan_type(ty: Seq<char>) -> Option<ScanValueType> {
    numeric_type(ascii_lower(ty))
}

/// The scan type is unknown: the error names it in lower case.
pub open spec fn unknown_scan_type(e: HostError, ty: Seq<char>) -> bool {
    e matches HostError::UnknownScanType(t) && t@ == ascii_lower(ty)
}

/// The type of a scan for a value, or the error where it is none.
pub fn scan_type_exec(ty: &str) -> (r: Result<ScanValueType, HostError>)
    ensures
        match r {
            Ok(vt) => scan_type(ty@) == Some(vt),
            Err(e) => scan_type(ty@) is None && unknown_scan_type(e, ty@),
        },
{
    let c = chars_of(ty);
    let low = string_of(ascii_lower_exec(c.as_slice()).as_slice());
    match numeric_type_exec(low.as_str()) {
        Some(vt) => Ok(vt),
        None => Err(HostError::UnknownScanType(low)),
    }
}

/// `scan.value(type, value, opts?)`.
pub open spec fn asks_value(args: Json, process: Option<Target>, step: HostStep) -> bool {
    match (text_at(args, 0), text_at(args, 1)) {
        (Err(e), _) => step == HostStep::Done(Err(HostError::Arg(e))),
        (Ok(_), Err(e)) => step == HostStep::Done(Err(HostError::Arg(e))),
        (Ok(ty), Ok(value)) => match asked_module(process, module_option(args, 2)) {
            Err(e) => step == HostStep::Done(Err(e)),
            Ok(m) => match scan_type(ty@) {
                None => step matches HostStep::Done(Err(e)) && unknown_scan_type(e, ty@),
                Some(vt) => step == HostStep::Ask(
                    HostOp::ValueScan { base: m.base, size: m.size, vt, value },
                ),
            },
        },
    }
}

pub fn ask_value(args: &Json, process: &Option<Target>) -> (step: HostStep)
    ensures
        asks_value(*args, *process, step),
{
    let ty = match text_arg(args, 0) {
        Ok(t) => t,
        Err(e) => return fail(HostError::Arg(e)),
    };
    let value = match text_arg(args, 1) {
        Ok(t) => t,
        Err(e) => return fail(HostError::Arg(e)),
    };
    match asked_module_exec(process, module_option_exec(args, 2)) {
        Err(e) => fail(e),
        Ok(m) => match scan_type_exec(ty.as_str()) {
            Err(e) => fail(e),
            Ok(vt) => HostStep::Ask(
                HostOp::ValueScan { base: m.base, size: m.size, vt, value },
            ),
        },
    }
}

/// `scan.range(start, size, type, value)`.
pub open spec fn range_step(args: Json, attached: bool) -> HostStep {
    match (addr_at(args, 0), size_at(args, 1), text_at(args, 2), text_at(args, 3)) {
        (Err(e), _, _, _) => HostStep::Done(Err(HostError::Arg(e))),
        (Ok(_), Err(e), _, _) => HostStep::Done(Err(HostError::Arg(e))),
        (Ok(_), Ok(_), Err(e), _) => HostStep::Done(Err(HostError::Arg(e))),
        (Ok(_), Ok(_), Ok(_), Err(e)) => HostStep::Done(Err(HostError::Arg(e))),
        (Ok(start), Ok(size), Ok(ty), Ok(value)) => if size > MAX_SCRIPT_READ {
            HostStep::Done(Err(HostError::RangeTooLong(size)))
        } else if !attached {
            HostStep::Done(Err(HostError::Misuse(Misuse::NotAttached)))
        } else {
            HostStep::Ask(HostOp::RangeScan { start, size, ty, value })
        },
    }
}

pub fn ask_range(args: &Json, attached: bool) -> (step: HostStep)
    ensures
        step == range_step(*args, attached),
{
    let start: usize = match addr_arg(args, 0) {
        Ok(a) => a,
        Err(e) => return fail(HostError::Arg(e)),
    };
    let size: usize = match size_arg(args, 1) {
        Ok(n) => n,
        Err(e) => return fail(HostError::Arg(e)),
    };
    let ty = match text_arg(args, 2) {
        Ok(t) => t,
        Err(e) => return fail(HostError::Arg(e)),
    };
    let value = match text_arg(args, 3) {
        Ok(t) => t,
        Err(e) => return fail(HostError::Arg(e)),
    };
    if size > MAX_SCRIPT_READ {
        return fail(HostError::RangeTooLong(size));
    }
    if !attached {
        return fail(HostError::Misuse(Misuse::NotAttached));
    }
    HostStep::Ask(HostOp::RangeScan { start, size, ty, value })
}

/// Goes on with `scan.range` once the range is read: the type that is scanned
/// for.
pub fn range_read(read: Result<(), String>, ty: &str) -> (r: Result<ScanValueType, HostError>)
    ensures
        match read {
            Err(e) => r == Err::<ScanValueType, HostError>(HostError::Failed(Stage::Read, e)),
            Ok(_) => match r {
                Ok(vt) => scan_type(ty@) == Some(vt),
                Err(e) => scan_type(ty@) is None && unknown_scan_type(e, ty@),
            },
        },
{
    match read {
        Err(e) => Err(HostError::Failed(Stage::Read, e)),
        Ok(_) => scan_type_exec(ty),
    }
}

/// The addresses at which a value was found, given at which offsets it matches:
/// no more than a scan answers.
pub open spec fn value_hits(base: usize, matched: Seq<bool>) -> Seq<usize>
    decreases matched.len(),
{
    if matched.len() == 0 {
        Seq::empty()
    } else {
        let before = value_hits(base, matched.drop_last());
        if matched.last() && before.len() < VALUE_SCAN_CAP {
            before.push(base.wrapping_add((matched.len() - 1) as usize))
        } else {
            before
        }
    }
}

proof fn lemma_hits_full(base: usize, matched: Seq<bool>, n: int)
    requires
        0 <= n <= matched.len(),
        value_hits(base, matched.subrange(0, n)).len() >= VALUE_SCAN_CAP,
    ensures
        value_hits(base, matched) == value_hits(base, matched.subrange(0, n)),
    decreases matched.len() - n,
{
    if n < matched.len() {
        assert(matched.subrange(0, n + 1).drop_last() =~= matched.subrange(0, n));
        lemma_hits_full(base, matched, n + 1);
    } else {
        assert(matched.subrange(0, n) =~= matched);
    }
}

/// Collects the hits of a scan for a value. `matched` says for each offset
/// whether the value stands there. The second result says whether the scan was
/// cut short.
pub fn value_scan(base: usize, matched: &Vec<bool>) -> (r: (Vec<usize>, bool))
    ensures
        r.0@ == value_hits(base, matched@),
        r.1 == (r.0@.len() >= VALUE_SCAN_CAP),
{
    let mut hits: Vec<usize> = Vec::new();
    let mut off: usize = 0;
    while off < matched.len()
        invariant
            off <= matched@.len(),
            hits@ == value_hits(base, matched@.subrange(0, off as int)),
            hits@.len() < VALUE_SCAN_CAP,
        decreases matched@.len() - off,
    {
        assert(matched@.subrange(0, off + 1).drop_last() =~= matched@.subrange(0, off as int));
        if matched[off] {
            hits.push(base.wrapping_add(off));
            if hits.len() >= VALUE_SCAN_CAP {
                proof {
                    lemma_hits_full(base, matched@, off + 1);
                }
                return (hits, true);
            }
        }
        off += 1;
    }
    assert(matched@.subrange(0, matched@.len() as int) =~= matched@);
    (hits, false)
}

/// An optional number among the options of a call.
pub open spec fn number_option(opts: Option<Json>, name: Seq<char>) -> Result<
    Option<RealParts>,
    ArgError,
> {
    match member(opts, name) {
        None => Ok(None),
        Some(v) => match number_of(v) {
            Ok(f) => Ok(Some(f)),
            Err(e) => Err(e),
        },
    }
}

fn number_option_exec(opts: Option<&Json>, name: &str) -> (r: Result<Option<RealParts>, ArgError>)
    ensures
        r == number_option(deref(opts), name@),
{
    match get(opts, name) {
        None => Ok(None),
        Some(v) => match as_real(v) {
            Ok(f) => Ok(Some(f)),
            Err(e) => Err(e),
        },
    }
}

/// How deep a pointer scan goes: 5 unless asked otherwise, from 1 to 12.
pub open spec fn scan_depth(asked: Option<RealParts>) -> usize {
    match asked {
        None => 5,
        Some(f) => if f.to_usize < 1 {
            1
        } else if f.to_usize > 12 {
            12
        } else {
            f.to_usize
        },
    }
}

fn scan_depth_exec(asked: Option<RealParts>) -> (d: usize)
    ensures
        d == scan_depth(asked),
{
    match asked {
        None => 5,
        Some(f) => if f.to_usize < 1 {
            1
        } else if f.to_usize > 12 {
            12
        } else {
            f.to_usize
        },
    }
}

/// A pointer scan with the given options: `scan.pointer(goal, opts?)` and
/// `classes.fromPointer(goal, name?, opts?)`, which makes a class of the first
/// path.
pub open spec fn pointer_step(
    args: Json,
    process: Option<Target>,
    opts: Option<Json>,
    class: Option<Option<String>>,
) -> HostStep {
    match (addr_at(args, 0), number_option(opts, "maxDepth"@), number_option(opts, "maxOffset"@)) {
        (Err(e), _, _) => HostStep::Done(Err(HostError::Arg(e))),
        (Ok(_), Err(e), _) => HostStep::Done(Err(HostError::Arg(e))),
        (Ok(_), Ok(_), Err(e)) => HostStep::Done(Err(HostError::Arg(e))),
        (Ok(goal), Ok(depth), Ok(offset)) => match modules_of(process) {
            Err(e) => HostStep::Done(Err(e)),
            Ok(mods) => if mods@.len() == 0 {
                HostStep::Done(Err(HostError::Misuse(Misuse::NoAnchor)))
            } else {
                HostStep::Ask(
                    HostOp::PointerScan {
                        goal,
                        max_depth: scan_depth(depth),
                        max_offset: match offset {
                            Some(f) => f.to_usize,
                            None => 0x1000,
                        },
                        class,
                    },
                )
            },
        },
    }
}

pub fn pointer_scan(
    args: &Json,
    process: &Option<Target>,
    opts: Option<&Json>,
    class: Option<Option<String>>,
) -> (step: HostStep)
    ensures
        step == pointer_step(*args, *process, deref(opts), class),
{
    let goal: usize = match addr_arg(args, 0) {
        Ok(a) => a,
        Err(e) => return fail(HostError::Arg(e)),
    };
    let depth = match number_option_exec(opts, "maxDepth") {
        Ok(d) => d,
        Err(e) => return fail(HostError::Arg(e)),
    };
    let offset = match number_option_exec(opts, "maxOffset") {
        Ok(d) => d,
        Err(e) => return fail(HostError::Arg(e)),
    };
    let mods = match modules_of_exec(process) {
        Ok(m) => m,
        Err(e) => return fail(e),
    };
    if mods.len() == 0 {
        return fail(HostError::Misuse(Misuse::NoAnchor));
    }
    let max_offset: usize = match offset {
        Some(f) => f.to_usize,
        None => 0x1000,
    };
    HostStep::Ask(
        HostOp::PointerScan { goal, max_depth: scan_depth_exec(depth), max_offset, class },
    )
}

/// The module that a path's formula names: the one that its base lies in.
pub open spec fn anchors(p: PathReply, base: usize, mods: Seq<ModuleInfo>) -> bool {
    match module_holding(mods, base as int) {
        Some(m) => p.module@ == m.name@ && p.module_base == m.base,
        None => p.module@ == "unknown"@ && p.module_base == 0,
    }
}

/// Anchors a path in the module that its base lies in.
pub fn anchor_path(path: PathStart, mods: &Vec<ModuleInfo>) -> (p: PathReply)
    ensures
        p.base == path.base,
        p.offsets == path.offsets,
        anchors(p, path.base, mods@),
{
    match module_holding_exec(mods, path.base) {
        Some(m) => PathReply {
            module: m.name,
            module_base: m.base,
            base: path.base,
            offsets: path.offsets,
        },
        None => PathReply {
            module: "unknown".to_string(),
            module_base: 0,
            base: path.base,
            offsets: path.offsets,
        },
    }
}

/// Answers `scan.pointer` with the paths, each anchored in its module.
pub fn finish_pointer_scan(
    paths: Result<Vec<PathStart>, (Stage, String)>,
    mods: &Vec<ModuleInfo>,
) -> (r: Result<Reply, HostError>)
    ensures
        match paths {
            Err((stage, e)) => r == Err::<Reply, HostError>(HostError::Failed(stage, e)),
            Ok(v) => r matches Ok(Reply::Paths(out)) && out@.len() == v@.len() && forall|i: int|
                0 <= i < v@.len() ==> (#[trigger] out@[i]).base == v@[i].base && out@[i].offsets
                    == v@[i].offsets && anchors(out@[i], v@[i].base, mods@),
        },
{
    let mut v = match paths {
        Ok(v) => v,
        Err((stage, e)) => return Err(HostError::Failed(stage, e)),
    };
    let ghost all = v@;
    let n: usize = v.len();
    let mut out: Vec<PathReply> = Vec::new();
    while out.len() < n
        invariant
            out@.len() + v@.len() == n,
            n == all.len(),
            v@ == all.subrange(out@.len() as int, n as int),
            forall|i: int|
                0 <= i < out@.len() ==> (#[trigger] out@[i]).base == all[i].base && out@[i].offsets
                    == all[i].offsets && anchors(out@[i], all[i].base, mods@),
        decreases n - out@.len(),
    {
        let ghost k = out@.len() as int;
        let p = v.remove(0);
        assert(p == all[k]);
        assert(v@ =~= all.subrange(k + 1, n as int));
        out.push(anchor_path(p, mods));
    }
    Ok(Reply::Paths(out))
}

/// The numbers among the values, as signed sizes.
pub open spec fn signed_sizes(s: Seq<Json>) -> Seq<isize>
    decreases s.len(),
{
    if s.len() == 0 {
        Seq::empty()
    } else {
        match real_of(Some(s.last())) {
            Some(f) => signed_sizes(s.drop_last()).push(f.to_isize),
            None => signed_sizes(s.drop_last()),
        }
    }
}

fn signed_sizes_exec(s: &Vec<Json>) -> (out: Vec<isize>)
    ensures
        out@ == signed_sizes(s@),
{
    let mut out: Vec<isize> = Vec::new();
    let mut i: usize = 0;
    while i < s.len()
        invariant
            i <= s@.len(),
            out@ == signed_sizes(s@.subrange(0, i as int)),
        decreases s@.len() - i,
    {
        assert(s@.subrange(0, i + 1).drop_last() =~= s@.subrange(0, i as int));
        match real_value(Some(&s[i])) {
            Some(f) => {
                out.push(f.to_isize);
            },
            None => {},
        }
        i += 1;
    }
    assert(s@.subrange(0, s@.len() as int) =~= s@);
    out
}

/// The path that a value describes: `{ base, offsets }`. A value without a base
/// describes none.
pub open spec fn describes_path(v: Json, p: Option<PathStart>) -> bool {
    match real_of(member(Some(v), "base"@)) {
        None => p is None,
        Some(f) => p matches Some(q) && q.base == f.to_usize && q.offsets@ == match member(
            Some(v),
            "offsets"@,
        ) {
            Some(o) => match o.kind {
                JsonKind::List(s) => signed_sizes(s@),
                _ => Seq::empty(),
            },
            None => Seq::empty(),
        },
    }
}

fn path_of(v: &Json) -> (p: Option<PathStart>)
    ensures
        describes_path(*v, p),
{
    let base: usize = match real_value(get(Some(v), "base")) {
        Some(f) => f.to_usize,
        None => return None,
    };
    let offsets: Vec<isize> = match get(Some(v), "offsets") {
        Some(o) => match &o.kind {
            JsonKind::List(s) => signed_sizes_exec(s),
            _ => Vec::new(),
        },
        None => Vec::new(),
    };
    Some(PathStart { base, offsets })
}

/// `scan.rescan(paths, goal)`.
pub open spec fn asks_rescan(args: Json, attached: bool, step: HostStep) -> bool {
    match arg_at(args, 0) {
        Err(e) => step == HostStep::Done(Err(HostError::Arg(e))),
        Ok(v) => match v.kind {
            JsonKind::List(s) => match addr_at(args, 1) {
                Err(e) => step == HostStep::Done(Err(HostError::Arg(e))),
                Ok(g) => if !attached {
                    step == HostStep::Done(Err(HostError::Misuse(Misuse::NotAttached)))
                } else {
                    step matches HostStep::Ask(HostOp::Rescan { paths, goal }) && goal == g
                        && paths@.len() == s@.len() && forall|i: int|
                        0 <= i < s@.len() ==> describes_path(s@[i], #[trigger] paths@[i])
                },
            },
            _ => step == HostStep::Done(Err(HostError::Misuse(Misuse::PathsNeedArray))),
        },
    }
}

pub fn ask_rescan(args: &Json, attached: bool) -> (step: HostStep)
    ensures
        asks_rescan(*args, attached, step),
{
    let v = match arg(args, 0) {
        Ok(v) => v,
        Err(e) => return fail(HostError::Arg(e)),
    };
    let s = match &v.kind {
        JsonKind::List(s) => s,
        _ => return fail(HostError::Misuse(Misuse::PathsNeedArray)),
    };
    let goal: usize = match addr_arg(args, 1) {
        Ok(a) => a,
        Err(e) => return fail(HostError::Arg(e)),
    };
    if !attached {
        return fail(HostError::Misuse(Misuse::NotAttached));
    }
    let mut paths: Vec<Option<PathStart>> = Vec::new();
    while paths.len() < s.len()
        invariant
            paths@.len() <= s@.len(),
            forall|i: int|
                0 <= i < paths@.len() ==> describes_path(s@[i], #[trigger] paths@[i]),
        decreases s@.len() - paths@.len(),
    {
        let i: usize = paths.len();
        paths.push(path_of(&s[i]));
    }
    HostStep::Ask(HostOp::Rescan { paths, goal })
}

/// The numbers of the paths that still lead to the goal.
pub open spec fn kept_paths(resolved: Seq<Option<usize>>, goal: usize) -> Seq<usize>
    decreases resolved.len(),
{
    if resolved.len() == 0 {
        Seq::empty()
    } else if resolved.last() == Some(goal) {
        kept_paths(resolved.drop_last(), goal).push((resolved.len() - 1) as usize)
    } else {
        kept_paths(resolved.drop_last(), goal)
    }
}

/// Answers `scan.rescan`, given where each path leads now.
pub fn finish_rescan(resolved: &Vec<Option<usize>>, goal: usize) -> (r: Reply)
    ensures
        r matches Reply::Kept(k) && k@ == kept_paths(resolved@, goal),
{
    let mut kept: Vec<usize> = Vec::new();
    let mut i: usize = 0;
    while i < resolved.len()
        invariant
            i <= resolved@.len(),
            kept@ == kept_paths(resolved@.subrange(0, i as int), goal),
        decreases resolved@.len() - i,
    {
        assert(resolved@.subrange(0, i + 1).drop_last() =~= resolved@.subrange(0, i as int));
        match resolved[i] {
            Some(a) => {
                if a == goal {
                    kept.push(i);
                }
            },
            None => {},
        }
        i += 1;
    }
    assert(resolved@.subrange(0, resolved@.len() as int) =~= resolved@);
    Reply::Kept(kept)
}

/// `scan.makeSignature(addr)`.
pub open spec fn signature_step(args: Json, process: Option<Target>) -> HostStep {
    match addr_at(args, 0) {
        Err(e) => HostStep::Done(Err(HostError::Arg(e))),
        Ok(addr) => match modules_of(process) {
            Err(e) => HostStep::Done(Err(e)),
            Ok(mods) => match module_holding(mods@, addr as int) {
                None => HostStep::Done(Err(HostError::NotInAModule(addr as u64))),
                Some(m) => HostStep::Ask(
                    HostOp::MakeSignature {
                        base: m.base,
                        size: m.size,
                        off: (addr - m.base) as usize,
                        min_len: MIN_SIGNATURE,
                        max_len: MAX_SIGNATURE,
                    },
                ),
            },
        },
    }
}

proof fn lemma_holding(mods: Seq<ModuleInfo>, addr: int)
    ensures
        module_holding(mods, addr) matches Some(m) ==> m.base <= addr && addr - m.base < m.size,
    decreases mods.len(),
{
    if mods.len() > 0 {
        lemma_holding(mods.subrange(1, mods.len() as int), addr);
    }
}

pub fn ask_signature(args: &Json, process: &Option<Target>) -> (step: HostStep)
    ensures
        step == signature_step(*args, *process),
{
    let addr: usize = match addr_arg(args, 0) {
        Ok(a) => a,
        Err(e) => return fail(HostError::Arg(e)),
    };
    let mods = match modules_of_exec(process) {
        Ok(m) => m,
        Err(e) => return fail(e),
    };
    match module_holding_exec(mods, addr) {
        None => fail(HostError::NotInAModule(addr as u64)),
        Some(m) => {
            proof {
                lemma_holding(mods@, addr as int);
            }
            HostStep::Ask(
                HostOp::MakeSignature {
                    base: m.base,
                    size: m.size,
                    off: addr - m.base,
                    min_len: MIN_SIGNATURE,
                    max_len: MAX_SIGNATURE,
                },
            )
        },
    }
}

/// A way to compare, as the scanner describes it.
#[derive(Debug)]
pub struct ScanCompare {
    pub tag: String,
    /// How the comparison is called in messages.
    pub name: String,
    /// Whether it compares with a value.
    pub needs_needle: bool,
    /// Whether it compares with an earlier scan.
    pub needs_previous: bool,
    /// Whether it only starts a session.
    pub baseline: bool,
}

/// A hit of a scan and what it held before.
#[derive(Debug)]
pub struct ScanHit {
    pub address: usize,
    pub previous: Vec<u8>,
}

/// A scan that is narrowed down call by call.
#[derive(Debug)]
pub struct ScanSession {
    pub vt: ScanValueType,
    pub hits: Vec<ScanHit>,
}

/// The first comparison with that tag.
pub open spec fn compare_tagged(all: Seq<ScanCompare>, tag: Seq<char>) -> Option<int>
    decreases all.len(),
{
    if all.len() == 0 {
        None
    } else {
        match compare_tagged(all.drop_last(), tag) {
            Some(i) => Some(i),
            None => if all.last().tag@ == tag {
                Some(all.len() - 1)
            } else {
                None
            },
        }
    }
}

proof fn lemma_compare_stays(all: Seq<ScanCompare>, tag: Seq<char>, n: int)
    requires
        0 <= n <= all.len(),
        compare_tagged(all.subrange(0, n), tag) is Some,
    ensures
        compare_tagged(all, tag) == compare_tagged(all.subrange(0, n), tag),
    decreases all.len() - n,
{
    if n < all.len() {
        assert(all.subrange(0, n + 1).drop_last() =~= all.subrange(0, n));
        lemma_compare_stays(all, tag, n + 1);
    } else {
        assert(all.subrange(0, n) =~= all);
    }
}

fn find_compare(all: &Vec<ScanCompare>, tag: &str) -> (r: Option<usize>)
    ensures
        match r {
            Some(i) => i < all@.len() && compare_tagged(all@, tag@) == Some(i as int),
            None => compare_tagged(all@, tag@) is None,
        },
{
    let mut i: usize = 0;
    while i < all.len()
        invariant
            i <= all@.len(),
            compare_tagged(all@.subrange(0, i as int), tag@) is None,
        decreases all@.len() - i,
    {
        assert(all@.subrange(0, i + 1).drop_last() =~= all@.subrange(0, i as int));
        if same_str(all[i].tag.as_str(), tag) {
            proof {
                lemma_compare_stays(all@, tag@, i + 1);
            }
            return Some(i);
        }
        i += 1;
    }
    assert(all@.subrange(0, all@.len() as int) =~= all@);
    None
}

/// The text of the value that a comparison needs.
pub open spec fn needle_text(value: Option<Json>, c: ScanCompare) -> Result<
    Option<String>,
    HostError,
> {
    if !c.needs_needle {
        Ok(None)
    } else {
        match value {
            None => Err(HostError::NeedsValue(c.name)),
            Some(v) => Ok(Some(text_of_value(v))),
        }
    }
}

pub fn parse_scan_needle(value: Option<&Json>, c: &ScanCompare) -> (r: Result<
    Option<String>,
    HostError,
>)
    ensures
        r == needle_text(deref(value), *c),
{
    if !c.needs_needle {
        return Ok(None);
    }
    match value {
        None => Err(HostError::NeedsValue(c.name.clone())),
        Some(v) => Ok(Some(as_str(v))),
    }
}

/// `scan.first(type, value?, compare?)`. The first comparison is the exact one,
/// which is taken where none is named.
pub open spec fn first_step(args: Json, tags: TypeTags, compares: Seq<ScanCompare>) -> HostStep {
    match text_at(args, 0) {
        Err(e) => HostStep::Done(Err(HostError::Arg(e))),
        Ok(ty) => match tags.of(ty@) {
            None => HostStep::Done(Err(HostError::FirstUnknownType(ty))),
            Some(vt) => {
                let named = opt_text(opt_arg_at(args, 2));
                let found = match named {
                    None => Some(0),
                    Some(tag) => compare_tagged(compares, tag@),
                };
                match found {
                    None => HostStep::Done(Err(HostError::FirstUnknownCompare(named->0))),
                    Some(i) => if compares[i].needs_previous {
                        HostStep::Done(Err(HostError::FirstNeedsPrevious(compares[i].name)))
                    } else {
                        match needle_text(opt_arg_at(args, 1), compares[i]) {
                            Err(e) => HostStep::Done(Err(e)),
                            Ok(value) => HostStep::Ask(
                                HostOp::FirstScan { vt, compare: i as usize, value },
                            ),
                        }
                    },
                }
            },
        },
    }
}

pub fn scan_session_first(args: &Json, tags: &TypeTags, compares: &Vec<ScanCompare>) -> (step:
    HostStep)
    requires
        compares@.len() > 0,
    ensures
        step == first_step(*args, *tags, compares@),
{
    let ty = match text_arg(args, 0) {
        Ok(t) => t,
        Err(e) => return fail(HostError::Arg(e)),
    };
    let vt = match tags.from_tag(ty.as_str()) {
        Some(vt) => vt,
        None => return fail(HostError::FirstUnknownType(ty)),
    };
    let i: usize = match opt_text_arg(opt_arg(args, 2)) {
        None => 0,
        Some(tag) => match find_compare(compares, tag.as_str()) {
            Some(i) => i,
            None => return fail(HostError::FirstUnknownCompare(tag)),
        },
    };
    if compares[i].needs_previous {
        return fail(HostError::FirstNeedsPrevious(compares[i].name.clone()));
    }
    match parse_scan_needle(opt_arg(args, 1), &compares[i]) {
        Err(e) => fail(e),
        Ok(value) => HostStep::Ask(HostOp::FirstScan { vt, compare: i, value }),
    }
}

/// The value does not parse in the type.
pub open spec fn bad_needle(
    e: HostError,
    value: Seq<char>,
    vt: ScanValueType,
    tags: TypeTags,
    why: String,
) -> bool {
    e matches HostError::BadNeedle(v, t, w) && v@ == value && t@ == tags.tag(vt) && w == why
}

/// Checks the value of a scan once it was parsed.
pub fn needle_parsed(
    value: Option<String>,
    vt: ScanValueType,
    tags: &TypeTags,
    parsed: Result<(), String>,
) -> (r: Result<(), HostError>)
    ensures
        match (value, parsed) {
            (Some(v), Err(w)) => r matches Err(e) && bad_needle(e, v@, vt, *tags, w),
            _ => r is Ok,
        },
{
    match value {
        None => Ok(()),
        Some(v) => match parsed {
            Ok(_) => Ok(()),
            Err(w) => Err(HostError::BadNeedle(v, tags.as_tag(vt), w)),
        },
    }
}

/// Answers `scan.first`: the session starts, with the hits of the scan.
pub fn finish_first_scan(
    session: &mut Option<ScanSession>,
    vt: ScanValueType,
    hits: Result<Vec<ScanHit>, (Stage, String)>,
) -> (r: Result<Reply, HostError>)
    ensures
        match hits {
            Ok(h) => *final(session) == Some(ScanSession { vt, hits: h }) && r == Ok::<
                Reply,
                HostError,
            >(Reply::Count(h@.len() as usize)),
            Err((stage, e)) => *final(session) == *old(session) && r == Err::<Reply, HostError>(
                HostError::Failed(stage, e),
            ),
        },
{
    match hits {
        Ok(h) => {
            let n: usize = h.len();
            *session = Some(ScanSession { vt, hits: h });
            Ok(Reply::Count(n))
        },
        Err((stage, e)) => Err(HostError::Failed(stage, e)),
    }
}

/// `scan.next(compare, value?)`.
pub open spec fn next_step(
    args: Json,
    compares: Seq<ScanCompare>,
    session: Option<ScanSession>,
) -> HostStep {
    match text_at(args, 0) {
        Err(e) => HostStep::Done(Err(HostError::Arg(e))),
        Ok(tag) => match compare_tagged(compares, tag@) {
            None => HostStep::Done(Err(HostError::NextUnknownCompare(tag))),
            Some(i) => if compares[i].baseline {
                HostStep::Done(Err(HostError::NextIsBaseline(tag)))
            } else if session is None {
                HostStep::Done(Err(HostError::Misuse(Misuse::NextWithoutSession)))
            } else {
                match needle_text(opt_arg_at(args, 1), compares[i]) {
                    Err(e) => HostStep::Done(Err(e)),
                    Ok(value) => HostStep::Ask(HostOp::NextScan { compare: i as usize, value }),
                }
            },
        },
    }
}

pub fn scan_session_next(
    args: &Json,
    compares: &Vec<ScanCompare>,
    session: &Option<ScanSession>,
) -> (step: HostStep)
    ensures
        step == next_step(*args, compares@, *session),
{
    let tag = match text_arg(args, 0) {
        Ok(t) => t,
        Err(e) => return fail(HostError::Arg(e)),
    };
    let i: usize = match find_compare(compares, tag.as_str()) {
        Some(i) => i,
        None => return fail(HostError::NextUnknownCompare(tag)),
    };
    if compares[i].baseline {
        return fail(HostError::NextIsBaseline(tag));
    }
    if session.is_none() {
        return fail(HostError::Misuse(Misuse::NextWithoutSession));
    }
    match parse_scan_needle(opt_arg(args, 1), &compares[i]) {
        Err(e) => fail(e),
        Ok(value) => HostStep::Ask(HostOp::NextScan { compare: i, value }),
    }
}

/// Answers `scan.next`: the session goes on with the hits that are left.
pub fn finish_next_scan(session: &mut Option<ScanSession>, hits: Result<Vec<ScanHit>, String>) -> (r:
    Result<Reply, HostError>)
    ensures
        match hits {
            Ok(h) => *final(session) == match *old(session) {
                Some(s) => Some(ScanSession { vt: s.vt, hits: h }),
                None => None,
            } && r == Ok::<Reply, HostError>(Reply::Count(h@.len() as usize)),
            Err(e) => *final(session) == *old(session) && r == Err::<Reply, HostError>(
                HostError::Failed(Stage::NextScan, e),
            ),
        },
{
    match hits {
        Ok(h) => {
            let n: usize = h.len();
            match session.take() {
                Some(s) => {
                    *session = Some(ScanSession { vt: s.vt, hits: h });
                },
                None => {},
            }
            Ok(Reply::Count(n))
        },
        Err(e) => Err(HostError::Failed(Stage::NextScan, e)),
    }
}

/// How many hits are answered where no number is given.
pub const DEFAULT_RESULTS: usize = 1000;

/// The most hits that are answered.
pub const RESULTS_CAP: usize = 100000;

/// How many hits a call asks for.
pub open spec fn result_limit(args: Json) -> Result<usize, ArgError> {
    match opt_arg_at(args, 0) {
        None => Ok(DEFAULT_RESULTS),
        Some(v) => match number_of(v) {
            Err(e) => Err(e),
            Ok(f) => Ok(
                if f.to_usize < RESULTS_CAP {
                    f.to_usize
                } else {
                    RESULTS_CAP
                },
            ),
        },
    }
}

fn result_limit_exec(args: &Json) -> (r: Result<usize, ArgError>)
    ensures
        r == result_limit(*args),
{
    match opt_arg(args, 0) {
        None => Ok(DEFAULT_RESULTS),
        Some(v) => match as_real(v) {
            Err(e) => Err(e),
            Ok(f) => if f.to_usize < RESULTS_CAP {
                Ok(f.to_usize)
            } else {
                Ok(RESULTS_CAP)
            },
        },
    }
}

/// The addresses of the first hits, no more than `max`.
pub open spec fn first_addresses(hits: Seq<ScanHit>, max: usize) -> Seq<usize> {
    Seq::new(
        if hits.len() < max {
            hits.len()
        } else {
            max as nat
        },
        |i: int| hits[i].address,
    )
}

fn first_addresses_exec(hits: &Vec<ScanHit>, max: usize) -> (out: Vec<usize>)
    ensures
        out@ == first_addresses(hits@, max),
{
    let mut out: Vec<usize> = Vec::new();
    while out.len() < hits.len() && out.len() < max
        invariant
            out@.len() <= hits@.len(),
            out@.len() <= max,
            forall|i: int| 0 <= i < out@.len() ==> out@[i] == (#[trigger] hits@[i]).address,
        decreases hits@.len() - out@.len(),
    {
        let i: usize = out.len();
        out.push(hits[i].address);
    }
    assert(out@ =~= first_addresses(hits@, max));
    out
}

/// `scan.results(max?)`.
pub open spec fn answers_results(args: Json, session: Option<ScanSession>, step: HostStep) -> bool {
    match result_limit(args) {
        Err(e) => step == HostStep::Done(Err(HostError::Arg(e))),
        Ok(max) => match session {
            None => step == HostStep::Done(
                Err(HostError::Misuse(Misuse::ResultsWithoutSession)),
            ),
            Some(s) => step matches HostStep::Done(Ok(Reply::Addresses(a))) && a@
                == first_addresses(s.hits@, max),
        },
    }
}

pub fn scan_session_results(args: &Json, session: &Option<ScanSession>) -> (step: HostStep)
    ensures
        answers_results(*args, *session, step),
{
    let max: usize = match result_limit_exec(args) {
        Ok(n) => n,
        Err(e) => return fail(HostError::Arg(e)),
    };
    match session {
        None => fail(HostError::Misuse(Misuse::ResultsWithoutSession)),
        Some(s) => HostStep::Done(Ok(Reply::Addresses(first_addresses_exec(&s.hits, max)))),
    }
}

/// `scan.resultsWithValues(max?)`.
pub open spec fn asks_values(args: Json, session: Option<ScanSession>, step: HostStep) -> bool {
    match result_limit(args) {
        Err(e) => step == HostStep::Done(Err(HostError::Arg(e))),
        Ok(max) => match session {
            None => step == HostStep::Done(Err(HostError::Misuse(Misuse::ValuesWithoutSession))),
            Some(s) => step matches HostStep::Ask(HostOp::ReadHits { vt, addresses }) && vt == s.vt
                && addresses@ == first_addresses(s.hits@, max),
        },
    }
}

pub fn scan_session_values(args: &Json, session: &Option<ScanSession>) -> (step: HostStep)
    ensures
        asks_values(*args, *session, step),
{
    let max: usize = match result_limit_exec(args) {
        Ok(n) => n,
        Err(e) => return fail(HostError::Arg(e)),
    };
    match session {
        None => fail(HostError::Misuse(Misuse::ValuesWithoutSession)),
        Some(s) => HostStep::Ask(
            HostOp::ReadHits { vt: s.vt, addresses: first_addresses_exec(&s.hits, max) },
        ),
    }
}

/// A hit as it is answered, given what was read there.
pub open spec fn hit_reply(vt: ScanValueType, hit: ScanHit, read: Option<Vec<u8>>) -> HitReply {
    HitReply {
        address: hit.address,
        value: match (vt.width(), read) {
            (Some(w), Some(b)) => if b@.len() >= w {
                number_in(vt, b@)
            } else {
                NumValue::Null
            },
            _ => NumValue::Null,
        },
        previous: number_in(vt, hit.previous@),
    }
}

/// Answers `scan.resultsWithValues`, given what was read at the first hits;
/// nothing where the read failed.
pub fn finish_hits(vt: ScanValueType, hits: &Vec<ScanHit>, reads: &Vec<Option<Vec<u8>>>) -> (r:
    Reply)
    requires
        reads@.len() <= hits@.len(),
        forall|i: int|
            0 <= i < hits@.len() ==> (vt.width() matches Some(w) ==> w <= (
            #[trigger] hits@[i]).previous@.len()),
    ensures
        r matches Reply::Hits(out) && out@.len() == reads@.len() && forall|i: int|
            0 <= i < out@.len() ==> #[trigger] out@[i] == hit_reply(vt, hits@[i], reads@[i]),
{
    let mut out: Vec<HitReply> = Vec::new();
    while out.len() < reads.len()
        invariant
            out@.len() <= reads@.len() <= hits@.len(),
            forall|i: int|
                0 <= i < hits@.len() ==> (vt.width() matches Some(w) ==> w <= (
                #[trigger] hits@[i]).previous@.len()),
            forall|i: int|
                0 <= i < out@.len() ==> #[trigger] out@[i] == hit_reply(vt, hits@[i], reads@[i]),
        decreases reads@.len() - out@.len(),
    {
        let i: usize = out.len();
        let hit = &hits[i];
        let value = match vt.fixed_width() {
            None => NumValue::Null,
            Some(w) => match &reads[i] {
                None => NumValue::Null,
                Some(b) => if b.len() >= w {
                    bytes_to_json_num(vt, b.as_slice())
                } else {
                    NumValue::Null
                },
            },
        };
        let previous = bytes_to_json_num(vt, hit.previous.as_slice());
        out.push(HitReply { address: hit.address, value, previous });
    }
    Reply::Hits(out)
}

/// `scan.reset()`: drops the session, and answers whether there was one.
pub fn scan_session_reset(session: &mut Option<ScanSession>) -> (step: HostStep)
    ensures
        *final(session) == None::<ScanSession>,
        step == HostStep::Done(Ok::<Reply, HostError>(Reply::Bool(*old(session) is Some))),
{
    let had = session.is_some();
    *session = None;
    HostStep::Done(Ok(Reply::Bool(had)))
}

/// What a method that scans does, but for `scan.reset`; `None` for a method that
/// is none of these.
pub open spec fn scan_called(
    method: Seq<char>,
    args: Json,
    process: Option<Target>,
    tags: TypeTags,
    compares: Seq<ScanCompare>,
    session: Option<ScanSession>,
    r: Option<HostStep>,
) -> bool {
    let attached = process is Some;
    if method == "scan.aob"@ {
        r == Some(aob_step(args, process))
    } else if method == "scan.aobResolveRip"@ {
        r == Some(aob_rip_step(args, process))
    } else if method == "scan.value"@ {
        r matches Some(s) && asks_value(args, process, s)
    } else if method == "scan.range"@ {
        r == Some(range_step(args, attached))
    } else if method == "scan.pointer"@ {
        r == Some(pointer_step(args, process, opt_arg_at(args, 1), None))
    } else if method == "scan.rescan"@ {
        r matches Some(s) && asks_rescan(args, attached, s)
    } else if method == "scan.makeSignature"@ {
        r == Some(signature_step(args, process))
    } else if method == "scan.first"@ {
        r == Some(first_step(args, tags, compares))
    } else if method == "scan.next"@ {
        r == Some(next_step(args, compares, session))
    } else if method == "scan.results"@ {
        r matches Some(s) && answers_results(args, session, s)
    } else if method == "scan.resultsWithValues"@ {
        r matches Some(s) && asks_values(args, session, s)
    } else if method == "classes.fromPointer"@ {
        r == Some(
            pointer_step(
                args,
                process,
                opt_arg_at(args, 2),
                Some(opt_text(opt_arg_at(args, 1))),
            ),
        )
    } else {
        r is None
    }
}

/// Calls a method that scans.
pub fn scan_call(
    method: &str,
    args: &Json,
    process: &Option<Target>,
    tags: &TypeTags,
    compares: &Vec<ScanCompare>,
    session: &Option<ScanSession>,
) -> (r: Option<HostStep>)
    requires
        compares@.len() > 0,
    ensures
        scan_called(method@, *args, *process, *tags, compares@, *session, r),
{
    let attached = process.is_some();
    if same_str(method, "scan.aob") {
        return Some(aob(args, process));
    }
    if same_str(method, "scan.aobResolveRip") {
        return Some(aob_rip(args, process));
    }
    if same_str(method, "scan.value") {
        return Some(ask_value(args, process));
    }
    if same_str(method, "scan.range") {
        return Some(ask_range(args, attached));
    }
    if same_str(method, "scan.pointer") {
        return Some(pointer_scan(args, process, opt_arg(args, 1), None));
    }
    if same_str(method, "scan.rescan") {
        return Some(ask_rescan(args, attached));
    }
    if same_str(method, "scan.makeSignature") {
        return Some(ask_signature(args, process));
    }
    if same_str(method, "scan.first") {
        return Some(scan_session_first(args, tags, compares));
    }
    if same_str(method, "scan.next") {
        return Some(scan_session_next(args, compares, session));
    }
    if same_str(method, "scan.results") {
        return Some(scan_session_results(args, session));
    }
    if same_str(method, "scan.resultsWithValues") {
        return Some(scan_session_values(args, session));
    }
    if same_str(method, "classes.fromPointer") {
        let name = opt_text_arg(opt_arg(args, 1));
        return Some(pointer_scan(args, process, opt_arg(args, 2), Some(name)));
    }
    None
}

/// A scan for a value answers the addresses at which it matched, in ascending order
/// and no others. Only the first so many are answered; what is left out lies behind
/// all that is answered.
pub proof fn value_scan_answers_the_matches(base: usize, matched: Seq<bool>)
    requires
        base + matched.len() <= usize::MAX,
    ensures
        value_hits(base, matched).len() <= VALUE_SCAN_CAP,
        forall|k: int, l: int|
            0 <= k < l < value_hits(base, matched).len() ==> #[trigger] value_hits(base, matched)[k]
                < #[trigger] value_hits(base, matched)[l],
        forall|k: int|
            0 <= k < value_hits(base, matched).len() ==> base <= #[trigger] value_hits(
                base,
                matched,
            )[k] < base + matched.len() && matched[value_hits(base, matched)[k] - base],
        forall|i: int|
            0 <= i < matched.len() && #[trigger] matched[i] ==> value_hits(base, matched).contains(
                (base + i) as usize,
            ) || (value_hits(base, matched).len() == VALUE_SCAN_CAP && value_hits(
                base,
                matched,
            ).last() < base + i),
    decreases matched.len(),
{
    if matched.len() > 0 {
        let rest = matched.drop_last();
        let before = value_hits(base, rest);
        let all = value_hits(base, matched);
        value_scan_answers_the_matches(base, rest);
        assert forall|i: int| 0 <= i < matched.len() && #[trigger] matched[i] implies all.contains(
        (base + i) as usize) || (all.len() == VALUE_SCAN_CAP && all.last() < base + i) by {
            if i < rest.len() {
                assert(rest[i]);
                if before.contains((base + i) as usize) {
                    let k = before.index_of((base + i) as usize);
                    assert(all[k] == (base + i) as usize);
                }
            } else if before.len() < VALUE_SCAN_CAP {
                assert(all[before.len() as int] == (base + i) as usize);
            }
        }
    }
}

/// A rescan keeps just the paths that still lead to the goal.
pub proof fn rescan_keeps_what_still_leads_there(resolved: Seq<Option<usize>>, goal: usize, i: usize)
    requires
        resolved.len() <= usize::MAX,
    ensures
        kept_paths(resolved, goal).contains(i) <==> i < resolved.len() && resolved[i as int]
            == Some(goal),
    decreases resolved.len(),
{
    let out = kept_paths(resolved, goal);
    if resolved.len() > 0 {
        let rest = resolved.drop_last();
        let before = kept_paths(rest, goal);
        rescan_keeps_what_still_leads_there(rest, goal, i);
        if before.contains(i) {
            let k = before.index_of(i);
            assert(out[k] == i);
        }
        if i == resolved.len() - 1 && resolved.last() == Some(goal) {
            assert(out[before.len() as int] == i);
        }
        if out.contains(i) {
            let k = out.index_of(i);
            if k < before.len() {
                assert(before[k] == i);
            }
        }
    }
}

/// A signature is made for the place that was asked for: base and offset lead to the
/// address, and the place lies in the image that is looked at.
pub proof fn signature_is_made_for_the_address(
    args: Json,
    process: Option<Target>,
    addr: usize,
)
    requires
        addr_at(args, 0) == Ok::<usize, ArgError>(addr),
        signature_step(args, process) is Ask,
    ensures
        signature_step(args, process) matches HostStep::Ask(
            HostOp::MakeSignature { base, size, off, min_len, max_len },
        ) && base + off == addr && off < size && 0 < min_len <= max_len,
{
    lemma_holding(modules_of(process)->Ok_0@, addr as int);
}

/// What a hit holds now is what was read now, and what it held is what the scan kept:
/// neither depends on the other.
pub proof fn hit_tells_now_from_before(
    vt: ScanValueType,
    hit: ScanHit,
    other: ScanHit,
    read: Option<Vec<u8>>,
    again: Option<Vec<u8>>,
)
    ensures
        hit_reply(vt, hit, read).address == hit.address,
        hit_reply(vt, hit, read).value == hit_reply(vt, other, read).value,
        hit_reply(vt, hit, read).previous == hit_reply(vt, hit, again).previous,
        hit_reply(vt, hit, None).value == NumValue::Null,
        read matches Some(b) && b@ == hit.previous@ && vt.width() is Some && b@.len() >= (
        vt.width()->0) ==> hit_reply(vt, hit, read).value == hit_reply(vt, hit, read).previous,
{
}

/// A path that starts in a module is anchored there: the module holds the address that
/// the path starts at.
pub proof fn path_is_anchored_in_its_module(p: PathReply, base: usize, mods: Seq<ModuleInfo>)
    requires
        anchors(p, base, mods),
        exists|i: int|
            0 <= i < mods.len() && (#[trigger] mods[i]).base <= base && base - mods[i].base
                < mods[i].size && mods[i].base + mods[i].size <= usize::MAX,
    ensures
        exists|i: int|
            0 <= i < mods.len() && (#[trigger] mods[i]).name@ == p.module@ && mods[i].base
                == p.module_base && mods[i].base <= base && base - mods[i].base < mods[i].size,
{
    lemma_held_somewhere(mods, base as int);
    lemma_holding(mods, base as int);
    let i = choose|i: int|
        0 <= i < mods.len() && #[trigger] mods[i] == module_holding(mods, base as int)->0;
    assert(mods[i].name@ == p.module@);
}

proof fn lemma_held_somewhere(mods: Seq<ModuleInfo>, addr: int)
    requires
        exists|i: int|
            0 <= i < mods.len() && (#[trigger] mods[i]).base <= addr && addr - mods[i].base
                < mods[i].size && mods[i].base + mods[i].size <= usize::MAX,
    ensures
        module_holding(mods, addr) matches Some(m) && exists|i: int|
            0 <= i < mods.len() && #[trigger] mods[i] == m,
    decreases mods.len(),
{
    let i = choose|i: int|
        0 <= i < mods.len() && (#[trigger] mods[i]).base <= addr && addr - mods[i].base
            < mods[i].size && mods[i].base + mods[i].size <= usize::MAX;
    let rest = mods.subrange(1, mods.len() as int);
    if crate::process_reader::in_module(mods[0], addr) {
        assert(mods[0] == module_holding(mods, addr)->0);
    } else {
        assert(i > 0);
        assert(rest[i - 1] == mods[i]);
        lemma_held_somewhere(rest, addr);
        let j = choose|j: int| 0 <= j < rest.len() && #[trigger] rest[j] == module_holding(
            rest,
            addr,
        )->0;
        assert(mods[j + 1] == rest[j]);
    }
}

} // verus!

//! The calls from scripts that disassemble the target's code.
use vstd::prelude::*;

use crate::disassembly::Insn;
use crate::host_error::{HostError, Misuse, Stage};
use crate::host_ops::{HostOp, HostStep, InsnReply, Reply};
use crate::host_proc::{
    fail, module_holding, module_holding_exec, modules_of, modules_of_exec, Target,
};
use crate::json::{
    addr_arg, addr_at, addr_of, all_cast_bytes, arg, arg_at, as_addr, as_real, cast_bytes_of,
    number_of, opt_arg, opt_arg_at, Json, JsonKind,
};
use crate::text::{hex_bytes, hex_bytes_exec, same_str};

verus! {

/// How many instructions `disasm.at` answers where no number is given.
pub const DEFAULT_INSTRUCTIONS: usize = 16;

/// The most bytes that an instruction takes.
pub const MAX_INSTRUCTION: usize = 15;

/// The most bytes that are disassembled of a function.
pub const MAX_FUNCTION_BYTES: usize = 4096;

/// `disasm.at(addr, count?)`.
pub open spec fn at_step(args: Json, attached: bool) -> HostStep {
    match addr_at(args, 0) {
        Err(e) => HostStep::Done(Err(HostError::Arg(e))),
        Ok(addr) => {
            let asked = match opt_arg_at(args, 1) {
                None => Ok(DEFAULT_INSTRUCTIONS),
                Some(v) => match number_of(v) {
                    Ok(f) => Ok(f.to_usize),
                    Err(e) => Err(e),
                },
            };
            match asked {
                Err(e) => HostStep::Done(Err(HostError::Arg(e))),
                Ok(count) => if !attached {
                    HostStep::Done(Err(HostError::Misuse(Misuse::NotAttached)))
                } else {
                    HostStep::Ask(
                        HostOp::Disassemble {
                            addr: addr as u64,
                            bytes: if count * MAX_INSTRUCTION > usize::MAX {
                                usize::MAX
                            } else {
                                (count * MAX_INSTRUCTION) as usize
                            },
                            count,
                        },
                    )
                },
            }
        },
    }
}

pub fn disasm_at(args: &Json, attached: bool) -> (step: HostStep)
    ensures
        step == at_step(*args, attached),
{
    let addr: usize = match addr_arg(args, 0) {
        Ok(a) => a,
        Err(e) => return fail(HostError::Arg(e)),
    };
    let count: usize = match opt_arg(args, 1) {
        None => DEFAULT_INSTRUCTIONS,
        Some(v) => match as_real(v) {
            Ok(f) => f.to_usize,
            Err(e) => return fail(HostError::Arg(e)),
        },
    };
    if !attached {
        return fail(HostError::Misuse(Misuse::NotAttached));
    }
    let bytes: usize = match count.checked_mul(MAX_INSTRUCTION) {
        Some(b) => b,
        None => usize::MAX,
    };
    HostStep::Ask(HostOp::Disassemble { addr: addr as u64, bytes, count })
}

/// `disasm.func(addr)`.
pub open spec fn func_step(args: Json, attached: bool) -> HostStep {
    match addr_at(args, 0) {
        Err(e) => HostStep::Done(Err(HostError::Arg(e))),
        Ok(addr) => if !attached {
            HostStep::Done(Err(HostError::Misuse(Misuse::NotAttached)))
        } else {
            HostStep::Ask(
                HostOp::DisassembleFunction { addr: addr as u64, max: MAX_FUNCTION_BYTES },
            )
        },
    }
}

pub fn disasm_func(args: &Json, attached: bool) -> (step: HostStep)
    ensures
        step == func_step(*args, attached),
{
    let addr: usize = match addr_arg(args, 0) {
        Ok(a) => a,
        Err(e) => return fail(HostError::Arg(e)),
    };
    if !attached {
        return fail(HostError::Misuse(Misuse::NotAttached));
    }
    HostStep::Ask(HostOp::DisassembleFunction { addr: addr as u64, max: MAX_FUNCTION_BYTES })
}

/// `disasm.decodeBytes(bytes, base?)`, which needs no process.
pub open spec fn asks_decode(args: Json, step: HostStep) -> bool {
    match arg_at(args, 0) {
        Err(e) => step == HostStep::Done(Err(HostError::Arg(e))),
        Ok(v) => match v.kind {
            JsonKind::List(s) => match cast_bytes_of(s@) {
                Err(e) => step == HostStep::Done(Err(HostError::Arg(e))),
                Ok(b) => {
                    let at = match opt_arg_at(args, 1) {
                        None => Ok(0usize),
                        Some(a) => addr_of(a),
                    };
                    match at {
                        Err(e) => step == HostStep::Done(Err(HostError::Arg(e))),
                        Ok(a) => step matches HostStep::Ask(HostOp::Decode { bytes, base })
                            && bytes@ == b && base == a as u64,
                    }
                },
            },
            _ => step == HostStep::Done(Err(HostError::Misuse(Misuse::DecodeNeedsArray))),
        },
    }
}

pub fn decode_bytes(args: &Json) -> (step: HostStep)
    ensures
        asks_decode(*args, step),
{
    let v = match arg(args, 0) {
        Ok(v) => v,
        Err(e) => return fail(HostError::Arg(e)),
    };
    let s = match &v.kind {
        JsonKind::List(s) => s,
        _ => return fail(HostError::Misuse(Misuse::DecodeNeedsArray)),
    };
    let bytes = match all_cast_bytes(s) {
        Ok(b) => b,
        Err(e) => return fail(HostError::Arg(e)),
    };
    let base: usize = match opt_arg(args, 1) {
        None => 0,
        Some(a) => match as_addr(a) {
            Ok(a) => a,
            Err(e) => return fail(HostError::Arg(e)),
        },
    };
    HostStep::Ask(HostOp::Decode { bytes, base: base as u64 })
}

/// An instruction as it is answered: its bytes in hex, without gaps.
pub open spec fn answers_insn(r: InsnReply, i: Insn) -> bool {
    &&& r.address == i.address
    &&& r.bytes@ == hex_bytes(i.data@, ""@, true)
    &&& r.text == i.instruction
    &&& r.target == i.target
}

pub fn insn_reply(i: &Insn) -> (r: InsnReply)
    ensures
        answers_insn(r, *i),
{
    InsnReply {
        address: i.address,
        bytes: hex_bytes_exec(i.data.as_slice(), "", true),
        text: i.instruction.clone(),
        target: i.target,
    }
}

/// Answers a call that disassembles, with no more than `count` instructions.
pub fn finish_disasm(insns: Result<Vec<Insn>, String>, count: usize) -> (r: Result<
    Reply,
    HostError,
>)
    ensures
        match insns {
            Err(e) => r == Err::<Reply, HostError>(HostError::Failed(Stage::Disassemble, e)),
            Ok(v) => r matches Ok(Reply::Instructions(out)) && out@.len() == (if v@.len() < count {
                v@.len()
            } else {
                count as nat
            }) && forall|i: int|
                0 <= i < out@.len() ==> answers_insn(#[trigger] out@[i], v@[i]),
        },
{
    let v = match insns {
        Ok(v) => v,
        Err(e) => return Err(HostError::Failed(Stage::Disassemble, e)),
    };
    let mut out: Vec<InsnReply> = Vec::new();
    while out.len() < v.len() && out.len() < count
        invariant
            out@.len() <= v@.len(),
            out@.len() <= count,
            forall|i: int| 0 <= i < out@.len() ==> answers_insn(#[trigger] out@[i], v@[i]),
        decreases v@.len() - out@.len(),
    {
        let i: usize = out.len();
        out.push(insn_reply(&v[i]));
    }
    Ok(Reply::Instructions(out))
}

/// `disasm.xrefsTo(addr)`.
pub open spec fn xrefs_step(args: Json, process: Option<Target>) -> HostStep {
    match addr_at(args, 0) {
        Err(e) => HostStep::Done(Err(HostError::Arg(e))),
        Ok(target) => match modules_of(process) {
            Err(e) => HostStep::Done(Err(e)),
            Ok(mods) => match module_holding(mods@, target as int) {
                None => HostStep::Done(Err(HostError::NotInAModule(target as u64))),
                Some(m) => HostStep::Ask(
                    HostOp::CodeRefs {
                        pid: process->0.pid,
                        base: m.base,
                        size: m.size,
                        target: target as u64,
                    },
                ),
            },
        },
    }
}

pub fn disasm_xrefs_to(args: &Json, process: &Option<Target>) -> (step: HostStep)
    ensures
        step == xrefs_step(*args, *process),
{
    let target: usize = match addr_arg(args, 0) {
        Ok(a) => a,
        Err(e) => return fail(HostError::Arg(e)),
    };
    let mods = match modules_of_exec(process) {
        Ok(m) => m,
        Err(e) => return fail(e),
    };
    match module_holding_exec(mods, target) {
        None => fail(HostError::NotInAModule(target as u64)),
        Some(m) => match process {
            Some(t) => HostStep::Ask(
                HostOp::CodeRefs {
                    pid: t.pid,
                    base: m.base,
                    size: m.size,
                    target: target as u64,
                },
            ),
            None => fail(HostError::Misuse(Misuse::NotAttached)),
        },
    }
}

/// What a method that disassembles does; `None` for a method that is none of
/// these.
pub open spec fn disasm_called(
    method: Seq<char>,
    args: Json,
    process: Option<Target>,
    r: Option<HostStep>,
) -> bool {
    if method == "disasm.at"@ {
        r == Some(at_step(args, process is Some))
    } else if method == "disasm.func"@ {
        r == Some(func_step(args, process is Some))
    } else if method == "disasm.decodeBytes"@ {
        r matches Some(s) && asks_decode(args, s)
    } else if method == "disasm.xrefsTo"@ {
        r == Some(xrefs_step(args, process))
    } else {
        r is None
    }
}

pub fn disasm_call(method: &str, args: &Json, process: &Option<Target>) -> (r: Option<HostStep>)
    ensures
        disasm_called(method@, *args, *process, r),
{
    if same_str(method, "disasm.at") {
        return Some(disasm_at(args, process.is_some()));
    }
    if same_str(method, "disasm.func") {
        return Some(disasm_func(args, process.is_some()));
    }
    if same_str(method, "disasm.decodeBytes") {
        return Some(decode_bytes(args));
    }
    if same_str(method, "disasm.xrefsTo") {
        return Some(disasm_xrefs_to(args, process));
    }
    None
}

/// How many bytes of code are looked through at once.
pub const REF_CHUNK: u64 = 1048576;

/// How many bytes more are read, so that an instruction across the end of a
/// chunk is decoded whole.
pub const REF_OVERLAP: u64 = 16;

/// The most references that are answered.
pub const REF_CAP: usize = 10000;

/// A range of code.
#[derive(Clone, Copy, Debug, PartialEq, Eq, Structural)]
pub struct CodeRegion {
    pub start: u64,
    pub end: u64,
}

impl CodeRegion {
    pub open spec fn size(self) -> int {
        if self.end >= self.start {
            self.end - self.start
        } else {
            0
        }
    }
}

/// How many bytes are read at a position of a region of `size` bytes.
pub open spec fn chunk_len(size: int, pos: int) -> int {
    if size - pos < REF_CHUNK + REF_OVERLAP {
        size - pos
    } else {
        REF_CHUNK + REF_OVERLAP
    }
}

/// The chunk at a position reaches the end of its region.
pub open spec fn is_last_chunk(size: int, pos: int) -> bool {
    pos + chunk_len(size, pos) >= size
}

/// The search for code that refers to an address: which chunk of which region
/// comes next, and what was found.
#[derive(Debug)]
pub struct RefScan {
    pub regions: Vec<CodeRegion>,
    pub region: usize,
    pub pos: u64,
    pub refs: Vec<usize>,
}

/// The first region from `i` on that is not empty.
pub open spec fn next_region(regions: Seq<CodeRegion>, i: int) -> int
    decreases regions.len() - i,
{
    if 0 <= i < regions.len() && regions[i].size() == 0 {
        next_region(regions, i + 1)
    } else {
        i
    }
}

/// The references of a chunk that are counted: all in the last chunk of a
/// region, else those in front of the overlap, which the next chunk counts.
pub open spec fn counted(found: Seq<u64>, base: int, last: bool) -> Seq<usize>
    decreases found.len(),
{
    if found.len() == 0 {
        Seq::empty()
    } else {
        let before = counted(found.drop_last(), base, last);
        if last || found.last() - base < REF_CHUNK {
            before.push(found.last() as usize)
        } else {
            before
        }
    }
}

/// No more references than are answered.
pub open spec fn capped_refs(s: Seq<usize>) -> Seq<usize> {
    if s.len() > REF_CAP {
        s.subrange(0, REF_CAP as int)
    } else {
        s
    }
}

impl RefScan {
    /// The next chunk, if there is one, lies in its region.
    pub open spec fn wf(self) -> bool {
        &&& self.region <= self.regions@.len()
        &&& self.region < self.regions@.len() ==> self.pos
            < self.regions@[self.region as int].size()
        &&& self.refs@.len() <= REF_CAP
    }

    /// All code was looked through, or enough was found.
    pub open spec fn done(self) -> bool {
        self.region == self.regions@.len()
    }

    /// The chunk that is to be read next, with how many bytes.
    pub open spec fn asks_for(self, c: Option<(u64, u64)>) -> bool {
        match c {
            None => self.done(),
            Some((at, len)) => {
                let r = self.regions@[self.region as int];
                !self.done() && at == r.start + self.pos && len == chunk_len(
                    r.size(),
                    self.pos as int,
                )
            },
        }
    }

    /// What was found in the chunk was taken, and the search went on.
    pub open spec fn took(pre: Self, post: Self, found: Seq<u64>) -> bool {
        let r = pre.regions@[pre.region as int];
        let last = is_last_chunk(r.size(), pre.pos as int);
        let all = pre.refs@ + counted(found, r.start + pre.pos, last);
        &&& post.regions == pre.regions
        &&& post.refs@ == capped_refs(all)
        &&& if all.len() >= REF_CAP {
            post.done()
        } else if last {
            post.region == next_region(pre.regions@, pre.region + 1) && post.pos == 0
        } else {
            post.region == pre.region && post.pos == pre.pos + REF_CHUNK
        }
    }

    pub fn new(regions: Vec<CodeRegion>) -> (s: Self)
        ensures
            s.wf(),
            s.regions == regions,
            s.region == next_region(regions@, 0),
            s.pos == 0,
            s.refs@.len() == 0,
    {
        let region: usize = skip_empty(&regions, 0);
        RefScan { regions, region, pos: 0, refs: Vec::new() }
    }

    /// The chunk that is to be read next: its address and how many bytes.
    pub fn next_chunk(&self) -> (c: Option<(u64, u64)>)
        requires
            self.wf(),
        ensures
            self.asks_for(c),
    {
        if self.region == self.regions.len() {
            return None;
        }
        let r = self.regions[self.region];
        let left: u64 = r.end - r.start - self.pos;
        let len: u64 = if left < REF_CHUNK + REF_OVERLAP {
            left
        } else {
            REF_CHUNK + REF_OVERLAP
        };
        Some((r.start + self.pos, len))
    }

    /// Takes the references that were found in the chunk, and goes on to the
    /// next.
    pub fn chunk_done(&mut self, found: &Vec<u64>)
        requires
            old(self).wf(),
            !old(self).done(),
            forall|i: int|
                0 <= i < found@.len() ==> #[trigger] found@[i] >= old(self).regions@[old(self).region as int].start + old(self).pos,
        ensures
            final(self).wf(),
            Self::took(*old(self), *final(self), found@),
    {
        let ghost start = *self;
        let count: usize = self.regions.len();
        assert(self.region < count);
        let r = self.regions[self.region];
        let size: u64 = r.end - r.start;
        let base: u64 = r.start + self.pos;
        let left: u64 = size - self.pos;
        let last = left <= REF_CHUNK + REF_OVERLAP;
        assert(last == is_last_chunk(r.size(), self.pos as int));
        let mut i: usize = 0;
        let mut full = self.refs.len() >= REF_CAP;
        assert(start.refs@ + counted(found@.subrange(0, 0), base as int, last) =~= start.refs@);
        while i < found.len() && !full
            invariant
                i <= found@.len(),
                forall|i: int| 0 <= i < found@.len() ==> #[trigger] found@[i] >= base,
                *self == (RefScan { refs: self.refs, ..start }),
                self.refs@ == start.refs@ + counted(
                    found@.subrange(0, i as int),
                    base as int,
                    last,
                ),
                self.refs@.len() <= REF_CAP,
                full == (self.refs@.len() >= REF_CAP),
            decreases found@.len() - i,
        {
            proof {
                assert(found@.subrange(0, i + 1).drop_last() =~= found@.subrange(0, i as int));
            }
            let a: u64 = found[i];
            if last || a - base < REF_CHUNK {
                let ghost before = self.refs@;
                self.refs.push(a as usize);
                assert(self.refs@ =~= start.refs@ + counted(
                    found@.subrange(0, i + 1),
                    base as int,
                    last,
                ));
                full = self.refs.len() >= REF_CAP;
            }
            i += 1;
        }
        proof {
            let all = start.refs@ + counted(found@, base as int, last);
            lemma_counted_grows(found@, i as int, base as int, last);
            assert(found@.subrange(0, found@.len() as int) =~= found@);
            if full {
                assert(self.refs@ =~= all.subrange(0, REF_CAP as int));
                assert(self.refs@ =~= capped_refs(all));
            } else {
                assert(self.refs@ =~= capped_refs(all));
            }
        }
        if full {
            self.region = self.regions.len();
        } else if last {
            self.region = skip_empty(&self.regions, self.region + 1);
            self.pos = 0;
        } else {
            self.pos = self.pos + REF_CHUNK;
        }
    }
}

proof fn lemma_counted_grows(found: Seq<u64>, n: int, base: int, last: bool)
    requires
        0 <= n <= found.len(),
    ensures
        counted(found, base, last).len() >= counted(found.subrange(0, n), base, last).len(),
        counted(found, base, last).subrange(
            0,
            counted(found.subrange(0, n), base, last).len() as int,
        ) == counted(found.subrange(0, n), base, last),
    decreases found.len() - n,
{
    if n < found.len() {
        lemma_counted_grows(found, n + 1, base, last);
        assert(found.subrange(0, n + 1).drop_last() =~= found.subrange(0, n));
        let a = counted(found.subrange(0, n), base, last);
        let b = counted(found.subrange(0, n + 1), base, last);
        assert(b.subrange(0, a.len() as int) =~= a);
        assert(counted(found, base, last).subrange(0, a.len() as int) =~= b.subrange(
            0,
            a.len() as int,
        ));
    } else {
        assert(found.subrange(0, n) =~= found);
        let a = counted(found, base, last);
        assert(a.subrange(0, a.len() as int) =~= a);
    }
}

fn skip_empty(regions: &Vec<CodeRegion>, from: usize) -> (r: usize)
    requires
        from <= regions@.len(),
    ensures
        r == next_region(regions@, from as int),
        r <= regions@.len(),
        r < regions@.len() ==> regions@[r as int].size() > 0,
{
    let mut i: usize = from;
    while i < regions.len() && regions[i].end <= regions[i].start
        invariant
            i <= regions@.len(),
            next_region(regions@, from as int) == next_region(regions@, i as int),
        decreases regions@.len() - i,
    {
        i += 1;
    }
    i
}

/// Answers `disasm.xrefsTo`: what the search found.
pub fn finish_xrefs(scan: RefScan) -> (r: Reply)
    ensures
        r == Reply::Addresses(scan.refs),
{
    Reply::Addresses(scan.refs)
}

/// A position at which a chunk of a region of `size` bytes starts: the first, or
/// behind a chunk that was not the last.
pub open spec fn is_chunk_start(size: int, pos: int) -> bool {
    &&& 0 <= pos < size
    &&& pos % (REF_CHUNK as int) == 0
    &&& pos == 0 || !is_last_chunk(size, pos - REF_CHUNK)
}

/// The chunk that starts at `pos` counts a reference at the offset `o`.
pub open spec fn chunk_counts(size: int, pos: int, o: int) -> bool {
    pos <= o < pos + chunk_len(size, pos) && (is_last_chunk(size, pos) || o - pos < REF_CHUNK)
}

/// Every reference of a region is counted by exactly one chunk: none is lost at
/// the end of a chunk, and none is counted twice.
pub proof fn reference_is_counted_once(size: int, o: int)
    requires
        0 <= o < size,
    ensures
        exists|pos: int| is_chunk_start(size, pos) && #[trigger] chunk_counts(size, pos, o),
        forall|a: int, b: int|
            is_chunk_start(size, a) && is_chunk_start(size, b) && #[trigger] chunk_counts(
                size,
                a,
                o,
            ) && #[trigger] chunk_counts(size, b, o) ==> a == b,
{
    let c = REF_CHUNK as int;
    let p = o - o % c;
    assert(p % c == 0 && 0 <= p <= o < p + c);
    if p == 0 || !is_last_chunk(size, p - c) {
        assert(is_chunk_start(size, p) && chunk_counts(size, p, o));
    } else {
        // The chunk before reaches the end of the region, so it counts `o`. It is
        // the first that does, because it lies a whole chunk further on than the
        // one before it.
        let q = p - c;
        assert(q % c == 0);
        assert(q == 0 || !is_last_chunk(size, q - c));
        assert(is_chunk_start(size, q) && chunk_counts(size, q, o));
    }
    assert forall|a: int, b: int|
        is_chunk_start(size, a) && is_chunk_start(size, b) && #[trigger] chunk_counts(size, a, o)
            && #[trigger] chunk_counts(size, b, o) implies a == b by {
        if a < b {
            lemma_chunks_apart(size, a, b);
        } else if b < a {
            lemma_chunks_apart(size, b, a);
        }
    }
}

/// Of two chunks the earlier one is not the last.
proof fn lemma_chunks_apart(size: int, a: int, b: int)
    requires
        is_chunk_start(size, a),
        is_chunk_start(size, b),
        a < b,
    ensures
        !is_last_chunk(size, a),
        a + REF_CHUNK <= b,
{
    let c = REF_CHUNK as int;
    assert(b - c >= a);
    assert(!is_last_chunk(size, b - c));
}

/// `x` was found in front of `edge`, or anywhere where all is taken.
pub open spec fn found_before(found: Seq<u64>, edge: int, all: bool, x: usize) -> bool {
    exists|i: int| 0 <= i < found.len() && (all || #[trigger] found[i] < edge) && found[i] as usize == x
}

proof fn lemma_counted(found: Seq<u64>, base: int, last: bool)
    ensures
        counted(found, base, last).len() <= found.len(),
        forall|x: usize| #[trigger]
            counted(found, base, last).contains(x) <==> found_before(
                found,
                base + REF_CHUNK,
                last,
                x,
            ),
    decreases found.len(),
{
    let edge = base + REF_CHUNK;
    let all = counted(found, base, last);
    if found.len() > 0 {
        let rest = found.drop_last();
        let before = counted(rest, base, last);
        lemma_counted(rest, base, last);
        assert forall|x: usize| #[trigger] all.contains(x) <==> found_before(found, edge, last, x) by {
            if all.contains(x) {
                let k = all.index_of(x);
                if k < before.len() {
                    assert(before[k] == x);
                    assert(before.contains(x));
                    let i = choose|i: int|
                        0 <= i < rest.len() && (last || #[trigger] rest[i] < edge) && rest[i]
                            as usize == x;
                    assert(found[i] == rest[i]);
                } else {
                    assert(found[found.len() - 1] as usize == x);
                }
            }
            if found_before(found, edge, last, x) {
                let i = choose|i: int|
                    0 <= i < found.len() && (last || #[trigger] found[i] < edge) && found[i]
                        as usize == x;
                if i < rest.len() {
                    assert(rest[i] == found[i]);
                    assert(before.contains(x));
                    let k = before.index_of(x);
                    assert(all[k] == x);
                } else {
                    assert(all.last() == x);
                }
            }
        }
    }
}

/// The search leaves nothing out and counts nothing twice. Within a region the next
/// chunk starts inside what was read, with room for an instruction that lies across
/// the edge; what is counted is what was found in front of it. A region is left only
/// when it was read to its end, with all that was found counted, and none of the
/// regions that are passed over holds anything.
pub proof fn search_leaves_nothing_out(
    pre: RefScan,
    post: RefScan,
    at: u64,
    len: u64,
    found: Seq<u64>,
)
    requires
        pre.wf(),
        pre.asks_for(Some((at, len))),
        RefScan::took(pre, post, found),
        pre.refs@.len() + found.len() < REF_CAP,
    ensures
        ({
            let r = pre.regions@[pre.region as int];
            let edge = if post.region == pre.region {
                r.start + post.pos
            } else {
                at + len
            };
            &&& r.start <= at && len > 0 && at + len <= r.end
            &&& post.region == pre.region ==> at < edge && edge + 16 <= at + len
            &&& post.region != pre.region ==> at + len == r.end && post.region > pre.region
                && post.pos == 0 && forall|k: int|
                pre.region < k < post.region ==> (#[trigger] pre.regions@[k]).end
                    <= pre.regions@[k].start
            &&& post.refs@.len() >= pre.refs@.len()
            &&& post.refs@.subrange(0, pre.refs@.len() as int) == pre.refs@
            &&& forall|x: usize| #[trigger]
                post.refs@.subrange(pre.refs@.len() as int, post.refs@.len() as int).contains(x)
                    <==> found_before(found, edge, post.region != pre.region, x)
        }),
{
    let r = pre.regions@[pre.region as int];
    let base = r.start + pre.pos;
    let last = is_last_chunk(r.size(), pre.pos as int);
    let new = counted(found, base, last);
    let all = pre.refs@ + new;
    lemma_counted(found, base, last);
    lemma_next_region(pre.regions@, pre.region + 1);
    assert(post.refs@ == all);
    assert(all.subrange(0, pre.refs@.len() as int) =~= pre.refs@);
    assert(all.subrange(pre.refs@.len() as int, all.len() as int) =~= new);
}

proof fn lemma_next_region(regions: Seq<CodeRegion>, i: int)
    requires
        0 <= i <= regions.len(),
    ensures
        i <= next_region(regions, i) <= regions.len(),
        forall|k: int|
            i <= k < next_region(regions, i) ==> (#[trigger] regions[k]).end <= regions[k].start,
    decreases regions.len() - i,
{
    if i < regions.len() && regions[i].size() == 0 {
        lemma_next_region(regions, i + 1);
    }
}

/// References are looked for in the whole module that holds the address, in the process
/// that is attached.
pub proof fn references_are_looked_for_in_the_module(
    args: Json,
    process: Target,
    addr: usize,
)
    requires
        addr_at(args, 0) matches Ok(a) && a == addr,
        xrefs_step(args, Some(process)) is Ask,
    ensures
        xrefs_step(args, Some(process)) matches HostStep::Ask(
            HostOp::CodeRefs { pid, base, size, target },
        ) && pid == process.pid && target == addr && base <= addr && addr - base < size
            && (process.modules matches Ok(mods) && exists|i: int|
            0 <= i < mods@.len() && (#[trigger] mods@[i]).base == base && mods@[i].size == size),
{
    if let Ok(mods) = process.modules {
        crate::host_proc::module_at_holds_its_address(mods@, addr as int);
        if let Some(m) = module_holding(mods@, addr as int) {
            let i = mods@.index_of(m);
            assert(mods@[i].base == m.base);
        }
    }
}

/// No more references are answered than allowed, and those from the first on.
pub proof fn first_references_are_answered(s: Seq<usize>, k: int)
    requires
        0 <= k < capped_refs(s).len(),
    ensures
        capped_refs(s)[k] == s[k],
        s.len() <= REF_CAP ==> capped_refs(s) == s,
        capped_refs(s).len() <= REF_CAP,
{
}

/// An instruction is answered with its own address, bytes, text and target.
pub proof fn instruction_is_answered_as_decoded(r: InsnReply, i: Insn)
    requires
        answers_insn(r, i),
    ensures
        r.address == i.address,
        r.text == i.instruction,
        r.target == i.target,
        crate::address::nibble_bytes(crate::address::hex_nibbles(r.bytes@)) == i.data@,
{
    reveal_strlit("");
    crate::address::printed_key_is_read_back(i.data@, ""@, true);
}

} // verus!

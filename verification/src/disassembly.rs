//! The disassembly panel: navigation, the browsable regions, and the linear
//! listing that is decoded piece by piece.
use vstd::prelude::*;
use vstd::string::StringExecFns;

use crate::address::{address_or_message, parse_address};
use crate::history::{remember, remembered, HISTORY_CAP};
use crate::process_reader::ModuleInfo;
use crate::regions::{covers, is_partition, merge_regions, Region};
use crate::sort::{sort_by_key, stably_sorted, Slot};
use crate::text::{
    address_text, address_text_exec, decimal, decimal_exec, hex_bytes, hex_bytes_exec, prefixed_hex,
    prefixed_hex_exec, says, string_of,
};
use crate::xrefs::{preview_of, DissectResult, Preview};

verus! {

/// Bytes of code that are decoded before a navigation target.
pub const BACK_CONTEXT_BYTES: u64 = 512;

/// The longest that an instruction can be.
pub const MAX_INSN_BYTES: usize = 15;

/// Chunks that are decoded at once when the listing is re-centred.
pub const RECENTER_MAX_CHUNKS: usize = 4;

/// The span browsed in front of an address that no module holds.
pub const ADHOC_REGION_BACK: u64 = 4096;

/// The span browsed behind an address that no module holds.
pub const ADHOC_REGION_FORWARD: u64 = 65536;

/// The fewest bytes that a signature is made of.
pub const MIN_SIGNATURE: usize = 8;

/// The most bytes that a signature is made of.
pub const MAX_SIGNATURE: usize = 128;

/// Bytes decoded per extension of the listing.
pub const LINEAR_CHUNK_BYTES: usize = 49152;

/// The listing is extended when the last visible row is this near its end.
pub const LINEAR_EXTEND_ROWS: usize = 400;

/// The most instructions that one listing holds.
pub const LINEAR_MAX_INSNS: usize = 400_000;

/// What an instruction does to the flow of control.
#[derive(Clone, Copy, Debug, PartialEq, Eq, Structural)]
pub enum FlowKind {
    Sequential,
    Call,
    Jump,
    CondJump,
    Ret,
    Int3,
    Other,
}

/// One decoded instruction.
#[derive(Debug)]
pub struct Insn {
    pub address: u64,
    pub length: usize,
    pub data: Vec<u8>,
    pub instruction: String,
    pub kind: FlowKind,
    /// Where a branch goes.
    pub target: Option<u64>,
    /// The memory that an operand refers to.
    pub mem_target: Option<u64>,
}

/// What the row menu of the disassembler asks of another panel.
#[derive(Clone, Copy, Debug, PartialEq, Eq, Structural)]
pub enum DisasmAction {
    SetClassAddress(usize),
    AddAddressToClass(usize),
    /// Arm an execute breakpoint here.
    SetBreakpoint(usize),
}

/// The state of the panel.
#[derive(Debug)]
pub struct DisassemblyPanel {
    pub address: usize,
    pub address_input: String,
    pub address_error: Option<String>,
    pub back: Vec<usize>,
    pub forward: Vec<usize>,
    /// The loaded modules, ascending by base.
    pub modules: Vec<ModuleInfo>,
    /// The modules that are browsed, as ascending indices into `modules`.
    pub selected_modules: Vec<usize>,
    /// The browsable regions.
    pub linear_regions: Vec<Region>,
    /// The instructions decoded so far.
    pub linear_insns: Vec<Insn>,
    /// Where decoding goes on; `None` once every region is done.
    pub linear_next: Option<u64>,
    pub dissect: Option<DissectResult>,
    pub dissect_status: Option<String>,
    pub pending_dissect: bool,
    pub dissect_epoch: u64,
    pub entry_symbol: Option<String>,
    pub status_msg: Option<String>,
    pub pending_focus: Option<usize>,
    pub pending_navigate: Option<usize>,
    pub selected_row: Option<usize>,
    pub scroll_to_row: Option<usize>,
    pub pending_action: Option<DisasmAction>,
    pub pending_signature: Option<usize>,
    pub last_signature: Option<Result<String, String>>,
}

/// The first region that holds `addr`.
pub open spec fn region_at(s: Seq<Region>, addr: u64) -> Option<Region>
    decreases s.len(),
{
    if s.len() == 0 {
        None
    } else if s[0].has(addr as int) {
        Some(s[0])
    } else {
        region_at(s.subrange(1, s.len() as int), addr)
    }
}

/// The least start of a region that is not below `addr`.
pub open spec fn next_start(s: Seq<Region>, addr: u64) -> Option<u64>
    decreases s.len(),
{
    if s.len() == 0 {
        None
    } else {
        let rest = next_start(s.drop_last(), addr);
        let here = s.last().start;
        if here >= addr && (rest is None || here < rest->0) {
            Some(here)
        } else {
            rest
        }
    }
}

/// `addr` where a region holds it, else the next start of a region.
pub open spec fn clamped(s: Seq<Region>, addr: u64) -> Option<u64> {
    if region_at(s, addr) is Some {
        Some(addr)
    } else {
        next_start(s, addr)
    }
}

/// The row of the instruction at `addr`, or of the one that `addr` lies in.
pub open spec fn listing_row(s: Seq<Insn>, addr: u64) -> Option<int>
    decreases s.len(),
{
    if s.len() == 0 {
        None
    } else if s.last().address > addr {
        listing_row(s.drop_last(), addr)
    } else if s.last().address == addr || addr < s.last().address + s.last().length {
        Some(s.len() - 1)
    } else {
        None
    }
}

/// Instructions follow each other without overlap.
pub open spec fn ordered(s: Seq<Insn>) -> bool {
    forall|i: int, j: int|
        0 <= i < j < s.len() ==> (#[trigger] s[i]).address + s[i].length <= (
        #[trigger] s[j]).address
}

/// The least address for which decoding needs to look behind: 512 bytes in
/// front of `addr`, but not in front of its region.
pub open spec fn back_floor(s: Seq<Region>, addr: u64) -> u64 {
    let floor = match region_at(s, addr) {
        Some(r) => r.start,
        None => 0,
    };
    let lo = if addr >= BACK_CONTEXT_BYTES {
        (addr - BACK_CONTEXT_BYTES) as u64
    } else {
        0
    };
    if lo > floor {
        lo
    } else {
        floor
    }
}

/// What a focus needs from the target process next.
#[derive(Clone, Copy, Debug, PartialEq, Eq, Structural)]
pub enum FocusStep {
    /// The focus is complete.
    Done,
    /// The executable regions of the module at `base`.
    Regions { base: usize, size: usize },
    /// `len + MAX_INSN_BYTES` bytes at `lo`, and the start among them from which
    /// decoding steps onto the address.
    Window { lo: u64, len: usize },
    /// The instructions of `len` bytes at `start`; `left` more chunks may follow.
    Chunk { start: u64, len: usize, left: usize },
}

/// A piece of code to decode.
#[derive(Clone, Copy, Debug, PartialEq, Eq, Structural)]
pub struct Chunk {
    pub start: u64,
    pub len: usize,
}

pub proof fn lemma_region_at_covers(s: Seq<Region>, addr: u64)
    ensures
        region_at(s, addr) is Some <==> covers(s, addr as int),
        region_at(s, addr) matches Some(r) ==> r.has(addr as int) && s.contains(r),
    decreases s.len(),
{
    if s.len() > 0 {
        let rest = s.subrange(1, s.len() as int);
        lemma_region_at_covers(rest, addr);
        if s[0].has(addr as int) {
            assert(covers(s, addr as int));
        } else {
            if covers(rest, addr as int) {
                let i = choose|i: int| 0 <= i < rest.len() && (#[trigger] rest[i]).has(addr as int);
                assert(s[i + 1].has(addr as int));
                let j = rest.index_of(region_at(rest, addr)->0);
                assert(s[j + 1] == region_at(rest, addr)->0);
            }
            if covers(s, addr as int) {
                let i = choose|i: int| 0 <= i < s.len() && (#[trigger] s[i]).has(addr as int);
                assert(rest[i - 1].has(addr as int));
            }
        }
    }
}

/// In a listing without overlaps the row of an address is the one instruction
/// that starts there or holds it.
pub proof fn listing_row_is_exact(s: Seq<Insn>, addr: u64, i: int)
    requires
        ordered(s),
        0 <= i < s.len(),
        s[i].length > 0,
        s[i].address <= addr < s[i].address + s[i].length,
    ensures
        listing_row(s, addr) == Some(i),
    decreases s.len(),
{
    if i < s.len() - 1 {
        assert(s[i].address + s[i].length <= s[s.len() - 1].address);
        listing_row_is_exact(s.drop_last(), addr, i);
    }
}

/// How the comment column names an address: by its symbol, else by the string
/// that was found there.
pub open spec fn described(
    symbol: Option<Seq<char>>,
    previews: Option<Seq<Preview>>,
    addr: u64,
) -> Option<Seq<char>> {
    match symbol {
        Some(s) => Some(s),
        None => match previews {
            Some(p) => match preview_of(p, addr) {
                Some(t) => Some("\""@ + t + "\""@),
                None => None,
            },
            None => None,
        },
    }
}

fn described_exec(symbol: Option<String>, dissect: Option<&DissectResult>, addr: u64) -> (r: Option<
    String,
>)
    ensures
        ({
            let sym = match symbol {
                Some(s) => Some(s@),
                None => None,
            };
            let found = match dissect {
                Some(d) => Some(d.string_previews@),
                None => None,
            };
            match r {
                Some(t) => described(sym, found, addr) == Some(t@),
                None => described(sym, found, addr) is None,
            }
        }),
{
    match symbol {
        Some(s) => Some(s),
        None => match dissect {
            Some(d) => match d.preview(addr) {
                Some(p) => {
                    let mut t = "\"".to_string();
                    t.append(p.as_str());
                    t.append("\"");
                    Some(t)
                },
                None => None,
            },
            None => None,
        },
    }
}

/// The comment of an instruction: what its branch target is called, else what
/// its memory operand is called or where it lies.
pub open spec fn comment_of(
    ins: Insn,
    symbol: Option<Seq<char>>,
    previews: Option<Seq<Preview>>,
) -> Option<Seq<char>> {
    match ins.target {
        Some(t) => described(symbol, previews, t),
        None => match ins.mem_target {
            Some(m) => match described(symbol, previews, m) {
                Some(d) => Some(d),
                None => Some("["@ + prefixed_hex(m as nat) + "]"@),
            },
            None => None,
        },
    }
}

/// The address whose symbol the comment of an instruction names: the branch
/// target, or else the memory operand.
pub fn comment_address(ins: &Insn) -> (r: Option<u64>)
    ensures
        r == if ins.target is Some {
            ins.target
        } else {
            ins.mem_target
        },
{
    match ins.target {
        Some(t) => Some(t),
        None => ins.mem_target,
    }
}

/// The comment of an instruction. `symbol` is the symbol at its
/// [`comment_address`].
pub fn insn_comment(ins: &Insn, symbol: Option<String>, dissect: Option<&DissectResult>) -> (r:
    Option<String>)
    ensures
        ({
            let sym = match symbol {
                Some(s) => Some(s@),
                None => None,
            };
            let found = match dissect {
                Some(d) => Some(d.string_previews@),
                None => None,
            };
            match r {
                Some(t) => comment_of(*ins, sym, found) == Some(t@),
                None => comment_of(*ins, sym, found) is None,
            }
        }),
{
    match ins.target {
        Some(t) => described_exec(symbol, dissect, t),
        None => match ins.mem_target {
            Some(m) => match described_exec(symbol, dissect, m) {
                Some(d) => Some(d),
                None => {
                    let mut t = "[".to_string();
                    let a = prefixed_hex_exec(m);
                    t.append(a.as_str());
                    t.append("]");
                    Some(t)
                },
            },
            None => None,
        },
    }
}

/// The byte column of an instruction: its bytes, as far as they were read.
pub fn insn_bytes(ins: &Insn) -> (out: String)
    ensures
        out@ == hex_bytes(
            ins.data@.subrange(
                0,
                if ins.length <= ins.data@.len() {
                    ins.length as int
                } else {
                    ins.data@.len() as int
                },
            ),
            " "@,
            false,
        ),
{
    let n: usize = if ins.length <= ins.data.len() {
        ins.length
    } else {
        ins.data.len()
    };
    hex_bytes_exec(vstd::slice::slice_subrange(ins.data.as_slice(), 0, n), " ", false)
}

/// The address that a click on the instruction follows.
pub fn click_target(ins: &Insn) -> (r: Option<usize>)
    ensures
        r == match (ins.kind, ins.target) {
            (FlowKind::Call, Some(t)) => Some(t as usize),
            (FlowKind::Jump, Some(t)) => Some(t as usize),
            (FlowKind::CondJump, Some(t)) => Some(t as usize),
            _ => None::<usize>,
        },
{
    match (ins.kind, ins.target) {
        (FlowKind::Call, Some(t)) => Some(t as usize),
        (FlowKind::Jump, Some(t)) => Some(t as usize),
        (FlowKind::CondJump, Some(t)) => Some(t as usize),
        _ => None,
    }
}

/// The colour of an instruction by what it does to the flow of control; `None`
/// for the default colour of text.
pub fn flow_color(kind: FlowKind) -> (c: Option<(u8, u8, u8)>)
    ensures
        c == match kind {
            FlowKind::Call => Some((120u8, 170u8, 255u8)),
            FlowKind::Jump => Some((230u8, 150u8, 90u8)),
            FlowKind::CondJump => Some((220u8, 200u8, 90u8)),
            FlowKind::Ret => Some((255u8, 120u8, 90u8)),
            FlowKind::Int3 => Some((170u8, 110u8, 190u8)),
            FlowKind::Sequential | FlowKind::Other => None,
        },
{
    match kind {
        FlowKind::Call => Some((120, 170, 255)),
        FlowKind::Jump => Some((230, 150, 90)),
        FlowKind::CondJump => Some((220, 200, 90)),
        FlowKind::Ret => Some((255, 120, 90)),
        FlowKind::Int3 => Some((170, 110, 190)),
        FlowKind::Sequential | FlowKind::Other => None,
    }
}

/// The bases of the modules ascend.
pub open spec fn bases_ascend(modules: Seq<ModuleInfo>) -> bool {
    forall|i: int, j: int|
        0 <= i <= j < modules.len() ==> (#[trigger] modules[i]).base <= (#[trigger] modules[j]).base
}

/// The module with the greatest base that is not above `addr`, if `addr` lies in
/// it. The modules ascend by base.
pub fn module_name_at(modules: &[ModuleInfo], addr: usize) -> (r: Option<&String>)
    requires
        bases_ascend(modules@),
    ensures
        match r {
            Some(name) => exists|i: int|
                0 <= i < modules@.len() && *name == (#[trigger] modules@[i]).name && modules@[i].base
                    <= addr < modules@[i].base + modules@[i].size && forall|j: int|
                    i < j < modules@.len() ==> (#[trigger] modules@[j]).base > addr,
            None => forall|i: int|
                0 <= i < modules@.len() && (#[trigger] modules@[i]).base <= addr
                    < modules@[i].base + modules@[i].size ==> exists|j: int|
                    i < j < modules@.len() && (#[trigger] modules@[j]).base <= addr,
        },
{
    let mut lo: usize = 0;
    let mut hi: usize = modules.len();
    while lo < hi
        invariant
            lo <= hi <= modules@.len(),
            bases_ascend(modules@),
            forall|j: int| 0 <= j < lo ==> (#[trigger] modules@[j]).base <= addr,
            forall|j: int| hi <= j < modules@.len() ==> (#[trigger] modules@[j]).base > addr,
        decreases hi - lo,
    {
        let mid: usize = lo + (hi - lo) / 2;
        if modules[mid].base <= addr {
            lo = mid + 1;
        } else {
            hi = mid;
        }
    }
    if lo == 0 {
        return None;
    }
    let m = &modules[lo - 1];
    if addr - m.base < m.size {
        Some(&m.name)
    } else {
        assert(modules@[lo - 1].base <= addr);
        None
    }
}

/// The slots of a module list by base.
pub open spec fn module_slots(modules: Seq<ModuleInfo>) -> Seq<Slot> {
    Seq::new(modules.len(), |i: int| Slot { key: modules[i].base as u64, index: i as usize })
}

/// `out` is `modules` in the order of their bases; modules of one base keep
/// their order.
pub open spec fn modules_by_base(modules: Seq<ModuleInfo>, out: Seq<ModuleInfo>) -> bool {
    exists|slots: Seq<Slot>|
        #![trigger stably_sorted(module_slots(modules), slots)]
        stably_sorted(module_slots(modules), slots) && out.len() == slots.len() && forall|i: int|
            0 <= i < out.len() ==> (#[trigger] slots[i]).index < modules.len() && out[i]
                == modules[slots[i].index as int]
}

/// The modules in the order of their bases.
pub fn sort_modules(modules: &[ModuleInfo]) -> (out: Vec<ModuleInfo>)
    ensures
        modules_by_base(modules@, out@),
        bases_ascend(out@),
        out@.len() == modules@.len(),
{
    let mut slots: Vec<Slot> = Vec::new();
    let mut i: usize = 0;
    while i < modules.len()
        invariant
            i <= modules@.len(),
            slots@.len() == i,
            forall|j: int|
                0 <= j < i ==> #[trigger] slots@[j] == (Slot {
                    key: modules@[j].base as u64,
                    index: j as usize,
                }),
        decreases modules@.len() - i,
    {
        slots.push(Slot { key: modules[i].base as u64, index: i });
        i += 1;
    }
    assert(slots@ =~= module_slots(modules@));
    let sorted = sort_by_key(slots.as_slice());
    proof {
        assert forall|j: int| 0 <= j < sorted@.len() implies (#[trigger] sorted@[j]).index
            < modules@.len() && sorted@[j].key == modules@[sorted@[j].index as int].base by {
            crate::sort::lemma_sorted_same_elements(slots@, sorted@, sorted@[j]);
            let k = slots@.index_of(sorted@[j]);
            assert(slots@[k] == sorted@[j]);
        }
    }
    let mut out: Vec<ModuleInfo> = Vec::new();
    let mut k: usize = 0;
    while k < sorted.len()
        invariant
            k <= sorted@.len(),
            out@.len() == k,
            forall|j: int|
                0 <= j < sorted@.len() ==> (#[trigger] sorted@[j]).index < modules@.len()
                    && sorted@[j].key == modules@[sorted@[j].index as int].base,
            forall|j: int| 0 <= j < k ==> #[trigger] out@[j] == modules@[sorted@[j].index as int],
        decreases sorted@.len() - k,
    {
        let s = sorted[k];
        assert(sorted@[k as int].index < modules@.len());
        out.push(modules[s.index].clone());
        k += 1;
    }
    proof {
        assert(stably_sorted(module_slots(modules@), sorted@));
        assert forall|a: int, b: int| 0 <= a <= b < out@.len() implies (#[trigger] out@[a]).base
            <= (#[trigger] out@[b]).base by {
            assert(crate::sort::sorted_by_key(sorted@));
            assert(sorted@[a].key == modules@[sorted@[a].index as int].base);
            assert(sorted@[b].key == modules@[sorted@[b].index as int].base);
        }
    }
    out
}

/// A module by its place in the address space.
#[derive(Clone, Copy, Debug, PartialEq, Eq, Structural)]
pub struct Span {
    pub base: usize,
    pub size: usize,
}

/// The spans of the modules that `selected` picks; an index past the end picks
/// none.
pub open spec fn spans_of(modules: Seq<ModuleInfo>, selected: Seq<usize>) -> Seq<Span>
    decreases selected.len(),
{
    if selected.len() == 0 {
        Seq::empty()
    } else {
        let rest = spans_of(modules, selected.drop_last());
        let i = selected.last() as int;
        if i < modules.len() {
            rest.push(Span { base: modules[i].base, size: modules[i].size })
        } else {
            rest
        }
    }
}

/// Ascending, each index once.
pub open spec fn indices_ascend(s: Seq<usize>) -> bool {
    forall|i: int, j: int| 0 <= i < j < s.len() ==> #[trigger] s[i] < #[trigger] s[j]
}

/// Sorts indices and drops repeated ones.
fn sorted_indices(s: &[usize]) -> (out: Vec<usize>)
    ensures
        indices_ascend(out@),
        forall|x: usize| #[trigger] out@.contains(x) <==> s@.contains(x),
{
    let mut sites: Vec<crate::xrefs::Site> = Vec::new();
    let mut i: usize = 0;
    while i < s.len()
        invariant
            i <= s@.len(),
            sites@.len() == i,
            forall|j: int| 0 <= j < i ==> (#[trigger] sites@[j]).0 == s@[j],
        decreases s@.len() - i,
    {
        sites.push(crate::xrefs::Site(s[i] as u64));
        i += 1;
    }
    let sorted = crate::xrefs::sorted_unique(sites.as_slice());
    proof {
        assert forall|j: int| 0 <= j < sorted@.len() implies (#[trigger] sorted@[j]).0
            <= usize::MAX by {
            assert(sorted@.contains(sorted@[j]));
            assert(sites@.contains(sorted@[j]));
            let k = sites@.index_of(sorted@[j]);
            assert(sites@[k].0 == s@[k]);
        }
    }
    let mut out: Vec<usize> = Vec::new();
    let mut k: usize = 0;
    while k < sorted.len()
        invariant
            k <= sorted@.len(),
            out@.len() == k,
            forall|j: int| 0 <= j < sorted@.len() ==> (#[trigger] sorted@[j]).0 <= usize::MAX,
            forall|j: int| 0 <= j < k ==> #[trigger] out@[j] == sorted@[j].0,
        decreases sorted@.len() - k,
    {
        assert(sorted@[k as int].0 <= usize::MAX);
        out.push(sorted[k].0 as usize);
        k += 1;
    }
    proof {
        assert forall|a: int, b: int| 0 <= a < b < out@.len() implies #[trigger] out@[a]
            < #[trigger] out@[b] by {
            assert(sorted@[a].0 < sorted@[b].0);
        }
        assert forall|x: usize| #[trigger] out@.contains(x) <==> s@.contains(x) by {
            let site = crate::xrefs::Site(x as u64);
            assert(sorted@.contains(site) <==> sites@.contains(site));
            if out@.contains(x) {
                let j = out@.index_of(x);
                assert(sorted@[j].0 == x);
                assert(sorted@[j] == site);
                assert(sorted@.contains(site));
                let k2 = sites@.index_of(site);
                assert(sites@[k2].0 == s@[k2]);
                assert(s@[k2] == x);
            }
            if s@.contains(x) {
                let j = s@.index_of(x);
                assert(sites@[j].0 == x);
                assert(sites@[j] == site);
                assert(sites@.contains(site));
                let k2 = sorted@.index_of(site);
                assert(out@[k2] == sorted@[k2].0);
                assert(out@[k2] == x);
            }
        }
    }
    out
}

/// What the table of instructions shows when it is empty.
#[derive(Clone, Copy, Debug, PartialEq, Eq, Structural)]
pub enum EmptyListing {
    /// Nothing is browsed.
    NothingSelected,
    /// Decoding has still to start.
    Decoding,
    /// Nothing could be decoded.
    NoInstructions,
}

/// What the user did to the table of instructions in one frame.
#[derive(Clone, Copy, Debug, PartialEq, Eq, Structural)]
pub struct TableActions {
    pub select: Option<usize>,
    pub navigate: Option<usize>,
    pub action: Option<DisasmAction>,
}

/// `b` where it is there, else `a`.
pub open spec fn replaced_by<T>(a: Option<T>, b: Option<T>) -> Option<T> {
    if b is Some {
        b
    } else {
        a
    }
}

impl DisassemblyPanel {
    /// The regions are a partition and the histories within their bound.
    pub open spec fn wf(&self) -> bool {
        &&& is_partition(self.linear_regions@)
        &&& self.back@.len() <= HISTORY_CAP
        &&& self.forward@.len() <= HISTORY_CAP
        &&& self.dissect matches Some(d) ==> d.wf()
    }

    /// `post` is `pre` with the focus moved to `addr`: the address box says so,
    /// the selection and stale messages are gone, and the view is to follow.
    pub open spec fn focused(pre: Self, post: Self, addr: usize) -> bool {
        &&& post.address_input@ == address_text(addr as nat)
        &&& post == (DisassemblyPanel {
            address: addr,
            address_input: post.address_input,
            address_error: None,
            selected_row: None,
            status_msg: None,
            pending_focus: Some(addr),
            ..pre
        })
    }

    /// `post` is `pre` after a navigation to `target`.
    pub open spec fn navigated(pre: Self, post: Self, target: usize) -> bool {
        if target == pre.address {
            post == pre
        } else {
            &&& Self::focused(
                (DisassemblyPanel { back: post.back, forward: post.forward, ..pre }),
                post,
                target,
            )
            &&& post.back@ == remembered(pre.back@, pre.address)
            &&& post.forward@.len() == 0
        }
    }

    /// `post` is `pre` after a step back.
    pub open spec fn went_back(pre: Self, post: Self) -> bool {
        if pre.back@.len() == 0 {
            post == pre
        } else {
            &&& Self::focused(
                (DisassemblyPanel { back: post.back, forward: post.forward, ..pre }),
                post,
                pre.back@.last(),
            )
            &&& post.back@ == pre.back@.drop_last()
            &&& post.forward@ == remembered(pre.forward@, pre.address)
        }
    }

    /// `post` is `pre` after a step forward.
    pub open spec fn went_forward(pre: Self, post: Self) -> bool {
        if pre.forward@.len() == 0 {
            post == pre
        } else {
            &&& Self::focused(
                (DisassemblyPanel { back: post.back, forward: post.forward, ..pre }),
                post,
                pre.forward@.last(),
            )
            &&& post.forward@ == pre.forward@.drop_last()
            &&& post.back@ == remembered(pre.back@, pre.address)
        }
    }

    /// `post` is `pre` after a step back, where there is one.
    pub open spec fn stepped(pre: Self, post: Self, back: bool) -> bool {
        if back {
            Self::went_back(pre, post)
        } else {
            post == pre
        }
    }

    /// `post` is `mid` after the arrow keys moved the selected row and the space bar
    /// followed the branch of the row that was selected in `pre`.
    pub open spec fn keyed(
        pre: Self,
        mid: Self,
        post: Self,
        space: bool,
        up: bool,
        down: bool,
    ) -> bool {
        let len = mid.linear_insns@.len() as int;
        let row = moved_row(mid.selected_row, len, up, down);
        post == (DisassemblyPanel {
            selected_row: row,
            scroll_to_row: if (up || down) && len > 0 {
                row
            } else {
                mid.scroll_to_row
            },
            pending_navigate: match pre.selected_row {
                Some(r) => if space && r < pre.linear_insns@.len()
                    && pre.linear_insns@[r as int].target is Some {
                    Some(pre.linear_insns@[r as int].target->0 as usize)
                } else {
                    mid.pending_navigate
                },
                None => mid.pending_navigate,
            },
            ..mid
        })
    }

    /// Nothing is listed, selected, remembered or asked for.
    pub open spec fn is_fresh(&self) -> bool {
        &&& self.address == 0
        &&& self.address_input@.len() == 0
        &&& self.address_error is None
        &&& self.back@.len() == 0 && self.forward@.len() == 0
        &&& self.modules@.len() == 0 && self.selected_modules@.len() == 0
        &&& self.linear_regions@.len() == 0 && self.linear_insns@.len() == 0
        &&& self.linear_next is None
        &&& self.dissect is None && self.dissect_status is None && !self.pending_dissect
        &&& self.dissect_epoch == 0
        &&& self.entry_symbol is None && self.status_msg is None
        &&& self.pending_focus is None && self.pending_navigate is None
        &&& self.selected_row is None && self.scroll_to_row is None
        &&& self.pending_action is None && self.pending_signature is None
        &&& self.last_signature is None
    }

    pub fn new() -> (p: Self)
        ensures
            p.wf(),
            p.is_fresh(),
    {
        DisassemblyPanel {
            address: 0,
            address_input: String::new(),
            address_error: None,
            back: Vec::new(),
            forward: Vec::new(),
            modules: Vec::new(),
            selected_modules: Vec::new(),
            linear_regions: Vec::new(),
            linear_insns: Vec::new(),
            linear_next: None,
            dissect: None,
            dissect_status: None,
            pending_dissect: false,
            dissect_epoch: 0,
            entry_symbol: None,
            status_msg: None,
            pending_focus: None,
            pending_navigate: None,
            selected_row: None,
            scroll_to_row: None,
            pending_action: None,
            pending_signature: None,
            last_signature: None,
        }
    }

    /// Takes the pending row action: it is handed out once.
    pub fn take_action(&mut self) -> (r: Option<DisasmAction>)
        ensures
            r == old(self).pending_action,
            *final(self) == (DisassemblyPanel { pending_action: None, ..*old(self) }),
    {
        let r = self.pending_action;
        self.pending_action = None;
        r
    }

    /// Takes the pending focus: it is handed out once.
    pub fn take_focus(&mut self) -> (r: Option<usize>)
        ensures
            r == old(self).pending_focus,
            *final(self) == (DisassemblyPanel { pending_focus: None, ..*old(self) }),
    {
        let r = self.pending_focus;
        self.pending_focus = None;
        r
    }

    /// The dissect result, if code was dissected.
    pub fn dissect_result(&self) -> (r: Option<&DissectResult>)
        ensures
            match r {
                Some(d) => self.dissect == Some(*d),
                None => self.dissect is None,
            },
    {
        self.dissect.as_ref()
    }

    /// Counts the successful dissects.
    pub fn dissect_epoch(&self) -> (e: u64)
        ensures
            e == self.dissect_epoch,
    {
        self.dissect_epoch
    }

    /// What stays when the target changes: the position, the histories, the
    /// messages and requests of other panels.
    pub open spec fn reset(pre: Self, post: Self) -> bool {
        &&& post.selected_modules@.len() == 0
        &&& post.linear_regions@.len() == 0
        &&& post.linear_insns@.len() == 0
        &&& post == (DisassemblyPanel {
            modules: post.modules,
            selected_modules: post.selected_modules,
            linear_regions: post.linear_regions,
            linear_insns: post.linear_insns,
            linear_next: None,
            dissect: None,
            dissect_status: None,
            pending_dissect: false,
            entry_symbol: None,
            selected_row: None,
            scroll_to_row: None,
            pending_focus: None,
            pending_signature: None,
            last_signature: None,
            ..pre
        })
    }

    fn reset_state(&mut self)
        ensures
            Self::reset(*old(self), *final(self)),
            final(self).modules == old(self).modules,
    {
        self.selected_modules = Vec::new();
        self.linear_regions = Vec::new();
        self.linear_insns = Vec::new();
        self.linear_next = None;
        self.dissect = None;
        self.dissect_status = None;
        self.pending_dissect = false;
        self.entry_symbol = None;
        self.selected_row = None;
        self.scroll_to_row = None;
        self.pending_focus = None;
        self.pending_signature = None;
        self.last_signature = None;
    }

    /// Starts over for a freshly attached process with the given modules.
    pub fn on_attach(&mut self, modules: &[ModuleInfo])
        requires
            old(self).wf(),
        ensures
            final(self).wf(),
            Self::reset(*old(self), *final(self)),
            modules_by_base(modules@, final(self).modules@),
            bases_ascend(final(self).modules@),
    {
        self.modules = sort_modules(modules);
        self.reset_state();
    }

    pub fn on_detach(&mut self)
        requires
            old(self).wf(),
        ensures
            final(self).wf(),
            Self::reset(*old(self), *final(self)),
            final(self).modules@.len() == 0,
    {
        self.modules = Vec::new();
        self.reset_state();
    }

    fn set_focus(&mut self, addr: usize)
        ensures
            Self::focused(*old(self), *final(self), addr),
    {
        self.address = addr;
        self.address_input = address_text_exec(addr as u64);
        self.address_error = None;
        self.selected_row = None;
        self.status_msg = None;
        self.pending_focus = Some(addr);
    }

    /// Navigates to `addr`, keeping the code around it. The place left is
    /// remembered unless it is the same or none.
    pub fn goto(&mut self, addr: usize)
        requires
            old(self).wf(),
        ensures
            final(self).wf(),
            Self::focused(
                (DisassemblyPanel {
                    back: final(self).back,
                    forward: final(self).forward,
                    ..*old(self)
                }),
                *final(self),
                addr,
            ),
            final(self).back@ == if old(self).address != 0 && old(self).address != addr {
                remembered(old(self).back@, old(self).address)
            } else {
                old(self).back@
            },
            final(self).forward@.len() == 0,
    {
        if self.address != 0 && self.address != addr {
            remember(&mut self.back, self.address);
        }
        self.forward.clear();
        self.set_focus(addr);
    }

    /// Follows a branch or the address box; staying where one is does nothing.
    pub fn navigate(&mut self, target: usize)
        requires
            old(self).wf(),
        ensures
            final(self).wf(),
            Self::navigated(*old(self), *final(self), target),
    {
        if target == self.address {
            return;
        }
        remember(&mut self.back, self.address);
        self.forward.clear();
        self.set_focus(target);
    }

    /// Goes back to the place remembered last; what is left can be gone forward to.
    pub fn go_back(&mut self)
        requires
            old(self).wf(),
        ensures
            final(self).wf(),
            Self::went_back(*old(self), *final(self)),
    {
        if self.back.len() == 0 {
            return;
        }
        let prev: usize = self.back.pop().unwrap();
        remember(&mut self.forward, self.address);
        self.set_focus(prev);
    }

    /// Goes forward to the place that was last gone back from.
    pub fn go_forward(&mut self)
        requires
            old(self).wf(),
        ensures
            final(self).wf(),
            Self::went_forward(*old(self), *final(self)),
    {
        if self.forward.len() == 0 {
            return;
        }
        let next: usize = self.forward.pop().unwrap();
        remember(&mut self.back, self.address);
        self.set_focus(next);
    }

    /// Navigates to the address in the address box, or says what is wrong with it.
    pub fn try_parse_address(&mut self)
        requires
            old(self).wf(),
        ensures
            final(self).wf(),
            match address_or_message(old(self).address_input@) {
                Ok(v) => if v == old(self).address {
                    *final(self) == (DisassemblyPanel { address_error: None, ..*old(self) })
                } else {
                    &&& Self::focused(
                        (DisassemblyPanel {
                            back: final(self).back,
                            forward: final(self).forward,
                            ..*old(self)
                        }),
                        *final(self),
                        v as usize,
                    )
                    &&& final(self).back@ == remembered(old(self).back@, old(self).address)
                    &&& final(self).forward@.len() == 0
                },
                Err(m) => {
                    &&& says(final(self).address_error, m)
                    &&& *final(self) == (DisassemblyPanel {
                        address_error: final(self).address_error,
                        ..*old(self)
                    })
                },
            },
    {
        match parse_address(self.address_input.as_str()) {
            Ok(addr) => {
                self.address_error = None;
                self.navigate(addr);
            },
            Err(e) => {
                self.address_error = Some(e);
            },
        }
    }

    /// Picks the modules to browse. Their executable regions are to be handed to
    /// [`Self::adopt_regions`]; the result says of which spans they are wanted.
    pub fn set_selected_modules(&mut self, indices: &[usize]) -> (spans: Vec<Span>)
        ensures
            indices_ascend(final(self).selected_modules@),
            forall|x: usize| #[trigger]
                final(self).selected_modules@.contains(x) <==> indices@.contains(x),
            *final(self) == (DisassemblyPanel {
                selected_modules: final(self).selected_modules,
                dissect: None,
                dissect_status: None,
                ..*old(self)
            }),
            spans@ == spans_of(old(self).modules@, final(self).selected_modules@),
    {
        self.selected_modules = sorted_indices(indices);
        self.dissect = None;
        self.dissect_status = None;
        self.dissect_targets()
    }

    /// Browses the given regions afresh. The result is the address to focus: the
    /// start of the first region; nothing where there is no region.
    pub fn adopt_regions(&mut self, regions: &[Region]) -> (start: Option<usize>)
        requires
            old(self).wf(),
        ensures
            final(self).wf(),
            forall|a: int| #[trigger]
                covers(final(self).linear_regions@, a) <==> covers(regions@, a),
            final(self).linear_insns@.len() == 0,
            match start {
                None => {
                    &&& final(self).linear_regions@.len() == 0
                    &&& *final(self) == (DisassemblyPanel {
                        linear_regions: final(self).linear_regions,
                        linear_insns: final(self).linear_insns,
                        linear_next: None,
                        selected_row: None,
                        ..*old(self)
                    })
                },
                Some(a) => {
                    &&& final(self).linear_regions@.len() > 0
                    &&& a == final(self).linear_regions@[0].start as usize
                    &&& final(self).address_input@ == address_text(a as nat)
                    &&& final(self).back@ == if old(self).address != 0 {
                        remembered(old(self).back@, old(self).address)
                    } else {
                        old(self).back@
                    }
                    &&& final(self).forward@.len() == 0
                    &&& *final(self) == (DisassemblyPanel {
                        linear_regions: final(self).linear_regions,
                        linear_insns: final(self).linear_insns,
                        linear_next: None,
                        selected_row: None,
                        back: final(self).back,
                        forward: final(self).forward,
                        address: a,
                        address_input: final(self).address_input,
                        address_error: None,
                        ..*old(self)
                    })
                },
            },
    {
        self.linear_regions = merge_regions(regions);
        self.linear_insns = Vec::new();
        self.linear_next = None;
        self.selected_row = None;
        if self.linear_regions.len() == 0 {
            return None;
        }
        if self.address != 0 {
            remember(&mut self.back, self.address);
        }
        self.forward.clear();
        let start: usize = self.linear_regions[0].start as usize;
        self.address = start;
        self.address_input = address_text_exec(start as u64);
        self.address_error = None;
        Some(start)
    }

    /// The spans of the browsed modules, for a dissect.
    pub fn dissect_targets(&self) -> (spans: Vec<Span>)
        ensures
            spans@ == spans_of(self.modules@, self.selected_modules@),
    {
        let mut out: Vec<Span> = Vec::new();
        let mut i: usize = 0;
        while i < self.selected_modules.len()
            invariant
                i <= self.selected_modules@.len(),
                out@ == spans_of(self.modules@, self.selected_modules@.subrange(0, i as int)),
            decreases self.selected_modules@.len() - i,
        {
            assert(self.selected_modules@.subrange(0, i + 1).drop_last()
                =~= self.selected_modules@.subrange(0, i as int));
            let k: usize = self.selected_modules[i];
            if k < self.modules.len() {
                out.push(Span { base: self.modules[k].base, size: self.modules[k].size });
            }
            i += 1;
        }
        assert(self.selected_modules@.subrange(0, self.selected_modules@.len() as int)
            =~= self.selected_modules@);
        out
    }

    /// What to dissect now: nothing while a dissect runs or no module is browsed.
    pub fn begin_dissect(&mut self, running: bool) -> (spans: Option<Vec<Span>>)
        ensures
            running ==> spans is None && *final(self) == *old(self),
            !running ==> ({
                let wanted = spans_of(old(self).modules@, old(self).selected_modules@);
                &&& *final(self) == (DisassemblyPanel {
                    dissect_status: final(self).dissect_status,
                    ..*old(self)
                })
                &&& match spans {
                    None => wanted.len() == 0 && says(
                        final(self).dissect_status,
                        "Select modules in the Modules panel first."@,
                    ),
                    Some(v) => wanted.len() > 0 && v@ == wanted && says(final(self).dissect_status, "Dissecting…"@),
                }
            }),
    {
        if running {
            return None;
        }
        let targets = self.dissect_targets();
        if targets.len() == 0 {
            self.dissect_status = Some("Select modules in the Modules panel first.".to_string());
            return None;
        }
        self.dissect_status = Some("Dissecting…".to_string());
        Some(targets)
    }

    /// Takes in a completed dissect. A new result bumps the epoch.
    pub fn apply_dissect(&mut self, result: Result<DissectResult, String>)
        requires
            old(self).wf(),
            result matches Ok(d) ==> d.wf(),
        ensures
            final(self).wf(),
            *final(self) == (DisassemblyPanel {
                dissect: final(self).dissect,
                dissect_status: final(self).dissect_status,
                dissect_epoch: final(self).dissect_epoch,
                ..*old(self)
            }),
            match result {
                Ok(d) => {
                    &&& final(self).dissect == Some(d)
                    &&& final(self).dissect_epoch == old(self).dissect_epoch.wrapping_add(1)
                    &&& says(
                        final(self).dissect_status,
                        decimal(d.calls.lists@.len()) + " call targets, "@ + decimal(
                            d.jumps.lists@.len(),
                        ) + " jump targets, "@ + decimal(d.strings.lists@.len()) + " strings"@,
                    )
                },
                Err(e) => {
                    &&& final(self).dissect is None
                    &&& final(self).dissect_epoch == old(self).dissect_epoch
                    &&& says(final(self).dissect_status, "Dissect failed: "@ + e@)
                },
            },
    {
        match result {
            Ok(d) => {
                let mut m = string_of(decimal_exec(d.calls.lists.len() as u64).as_slice());
                m.append(" call targets, ");
                let j = string_of(decimal_exec(d.jumps.lists.len() as u64).as_slice());
                m.append(j.as_str());
                m.append(" jump targets, ");
                let k = string_of(decimal_exec(d.strings.lists.len() as u64).as_slice());
                m.append(k.as_str());
                m.append(" strings");
                self.dissect_status = Some(m);
                self.dissect = Some(d);
                self.dissect_epoch = self.dissect_epoch.wrapping_add(1);
            },
            Err(e) => {
                self.dissect = None;
                let mut m = "Dissect failed: ".to_string();
                m.append(e.as_str());
                self.dissect_status = Some(m);
            },
        }
    }

    /// The region that holds `addr`.
    pub fn region_of(&self, addr: u64) -> (r: Option<Region>)
        ensures
            r == region_at(self.linear_regions@, addr),
    {
        let mut i: usize = 0;
        assert(self.linear_regions@.subrange(0, self.linear_regions@.len() as int)
            =~= self.linear_regions@);
        while i < self.linear_regions.len()
            invariant
                i <= self.linear_regions@.len(),
                region_at(self.linear_regions@, addr) == region_at(
                    self.linear_regions@.subrange(i as int, self.linear_regions@.len() as int),
                    addr,
                ),
            decreases self.linear_regions@.len() - i,
        {
            let r = self.linear_regions[i];
            if addr >= r.start && addr < r.end {
                return Some(r);
            }
            proof {
                let rest = self.linear_regions@.subrange(
                    i as int,
                    self.linear_regions@.len() as int,
                );
                assert(rest.subrange(1, rest.len() as int) =~= self.linear_regions@.subrange(
                    i + 1,
                    self.linear_regions@.len() as int,
                ));
            }
            i += 1;
        }
        None
    }

    /// The start of the first region at or after `addr`.
    pub fn next_region_start(&self, addr: u64) -> (r: Option<u64>)
        ensures
            r == next_start(self.linear_regions@, addr),
    {
        let mut best: Option<u64> = None;
        let mut i: usize = 0;
        while i < self.linear_regions.len()
            invariant
                i <= self.linear_regions@.len(),
                best == next_start(self.linear_regions@.subrange(0, i as int), addr),
            decreases self.linear_regions@.len() - i,
        {
            assert(self.linear_regions@.subrange(0, i + 1).drop_last()
                =~= self.linear_regions@.subrange(0, i as int));
            let s: u64 = self.linear_regions[i].start;
            let better = match best {
                None => true,
                Some(b) => s < b,
            };
            if s >= addr && better {
                best = Some(s);
            }
            i += 1;
        }
        assert(self.linear_regions@.subrange(0, self.linear_regions@.len() as int)
            =~= self.linear_regions@);
        best
    }

    fn clamp_into_regions(&self, addr: u64) -> (r: Option<u64>)
        ensures
            r == clamped(self.linear_regions@, addr),
    {
        if self.region_of(addr).is_some() {
            Some(addr)
        } else {
            self.next_region_start(addr)
        }
    }

    /// Restarts the listing at `start`, or at the next region behind it.
    fn linear_reset(&mut self, start: u64)
        ensures
            final(self).linear_insns@.len() == 0,
            *final(self) == (DisassemblyPanel {
                linear_insns: final(self).linear_insns,
                selected_row: None,
                linear_next: clamped(old(self).linear_regions@, start),
                ..*old(self)
            }),
    {
        self.linear_insns = Vec::new();
        self.selected_row = None;
        self.linear_next = self.clamp_into_regions(start);
    }

    /// The row of the instruction at `addr`, or of the one that holds it.
    pub fn linear_index_of(&self, addr: u64) -> (r: Option<usize>)
        ensures
            match r {
                Some(i) => listing_row(self.linear_insns@, addr) == Some(i as int) && i
                    < self.linear_insns@.len(),
                None => listing_row(self.linear_insns@, addr) is None,
            },
    {
        let mut n: usize = self.linear_insns.len();
        assert(self.linear_insns@.subrange(0, n as int) =~= self.linear_insns@);
        while n > 0
            invariant
                n <= self.linear_insns@.len(),
                listing_row(self.linear_insns@, addr) == listing_row(
                    self.linear_insns@.subrange(0, n as int),
                    addr,
                ),
            decreases n,
        {
            let ghost part = self.linear_insns@.subrange(0, n as int);
            assert(part.drop_last() =~= self.linear_insns@.subrange(0, n - 1));
            assert(part.last() == self.linear_insns@[n - 1]);
            let ins = &self.linear_insns[n - 1];
            if ins.address <= addr {
                if addr - ins.address < ins.length as u64 || addr == ins.address {
                    return Some(n - 1);
                }
                return None;
            }
            n -= 1;
        }
        None
    }

    /// `chunk` is what to decode to extend the listing.
    pub open spec fn planned(pre: Self, post: Self, chunk: Option<Chunk>) -> bool {
        &&& post == (DisassemblyPanel { linear_next: post.linear_next, ..pre })
        &&& if pre.linear_insns@.len() >= LINEAR_MAX_INSNS {
            chunk is None && post.linear_next is None
        } else {
            match pre.linear_next {
                None => chunk is None && post.linear_next is None,
                Some(start) => match region_at(pre.linear_regions@, start) {
                    None => chunk is None && post.linear_next == next_start(
                        pre.linear_regions@,
                        start,
                    ),
                    Some(r) => post.linear_next == Some(start) && chunk == Some(
                        chunk_at(start, r),
                    ),
                },
            }
        }
    }

    /// What to decode to extend the listing. `None` where there is nothing to
    /// decode now: the listing is full or complete, or decoding had to move on
    /// to the next region.
    pub fn plan_extension(&mut self) -> (chunk: Option<Chunk>)
        requires
            old(self).wf(),
        ensures
            final(self).wf(),
            Self::planned(*old(self), *final(self), chunk),
    {
        if self.linear_insns.len() >= LINEAR_MAX_INSNS {
            self.linear_next = None;
            return None;
        }
        let start: u64 = match self.linear_next {
            Some(s) => s,
            None => {
                return None;
            },
        };
        match self.region_of(start) {
            None => {
                self.linear_next = self.next_region_start(start);
                None
            },
            Some(r) => {
                proof {
                    lemma_region_at_covers(self.linear_regions@, start);
                }
                let left: u64 = r.end - start;
                let len: usize = if left < LINEAR_CHUNK_BYTES as u64 {
                    left as usize
                } else {
                    LINEAR_CHUNK_BYTES
                };
                Some(Chunk { start, len })
            },
        }
    }

    /// Where decoding goes on after the chunk at `start` gave `insns`: behind the
    /// last instruction while that is in the region, else in the next region.
    pub open spec fn after_chunk(&self, start: u64, insns: Seq<Insn>) -> Option<u64> {
        let end = match region_at(self.linear_regions@, start) {
            Some(r) => r.end,
            None => start,
        };
        if insns.len() > 0 && insns.last().address + insns.last().length < end {
            Some((insns.last().address + insns.last().length) as u64)
        } else {
            next_start(self.linear_regions@, end)
        }
    }

    /// Takes in what was decoded for the chunk at `start`.
    pub fn apply_chunk(&mut self, start: u64, result: Result<Vec<Insn>, String>)
        requires
            old(self).wf(),
        ensures
            final(self).wf(),
            *final(self) == (DisassemblyPanel {
                linear_insns: final(self).linear_insns,
                linear_next: final(self).linear_next,
                status_msg: final(self).status_msg,
                ..*old(self)
            }),
            match result {
                Ok(insns) => {
                    &&& final(self).linear_insns@ == old(self).linear_insns@ + insns@
                    &&& final(self).linear_next == old(self).after_chunk(start, insns@)
                    &&& final(self).status_msg == old(self).status_msg
                },
                Err(e) => {
                    &&& final(self).linear_insns == old(self).linear_insns
                    &&& final(self).linear_next is None
                    &&& says(final(self).status_msg, "Disassembly failed: "@ + e@)
                },
            },
    {
        match result {
            Ok(insns) => {
                let end: u64 = match self.region_of(start) {
                    Some(r) => r.end,
                    None => start,
                };
                let n: usize = insns.len();
                let next: Option<u64> = if n > 0 && insns[n - 1].address < end && (
                insns[n - 1].length as u64) < end - insns[n - 1].address {
                    Some(insns[n - 1].address + insns[n - 1].length as u64)
                } else {
                    self.next_region_start(end)
                };
                let mut more = insns;
                self.linear_insns.append(&mut more);
                self.linear_next = next;
            },
            Err(e) => {
                let mut m = "Disassembly failed: ".to_string();
                m.append(e.as_str());
                self.status_msg = Some(m);
                self.linear_next = None;
            },
        }
    }
}

/// The piece of the region `r` to decode next, from `start` on.
pub open spec fn chunk_at(start: u64, r: Region) -> Chunk {
    Chunk {
        start,
        len: if r.end - start < LINEAR_CHUNK_BYTES {
            (r.end - start) as usize
        } else {
            LINEAR_CHUNK_BYTES
        },
    }
}

/// Where a listing begins that shows the code in front of `addr`: `read` of the `len`
/// bytes there came, and decoding from `synced` steps onto `addr`.
pub open spec fn shown_from(addr: u64, len: usize, read: Option<usize>, synced: Option<u64>) -> u64 {
    match (read, synced) {
        (Some(n), Some(start)) => if n >= len {
            start
        } else {
            addr
        },
        _ => addr,
    }
}

/// Where re-centring goes on when `left` more chunks may be taken: where
/// decoding stands, and the chunk to decode with how many may still be taken.
/// No chunk means that the focus is complete.
pub open spec fn seek(s: Seq<Region>, full: bool, next: Option<u64>, left: nat) -> (
    Option<u64>,
    Option<(Chunk, nat)>,
)
    decreases left,
{
    if left == 0 {
        (next, None)
    } else if full {
        (None, None)
    } else {
        match next {
            None => (None, None),
            Some(start) => match region_at(s, start) {
                Some(r) => (next, Some((chunk_at(start, r), left))),
                None => match next_start(s, start) {
                    None => (None, None),
                    Some(n) => seek(s, full, Some(n), (left - 1) as nat),
                },
            },
        }
    }
}

/// The module holds `addr`.
pub open spec fn owns(m: ModuleInfo, addr: u64) -> bool {
    m.base <= addr < m.base + m.size
}

/// The step that asks for what [`seek`] found.
pub open spec fn chunk_step(found: Option<(Chunk, nat)>) -> FocusStep {
    match found {
        Some((c, left)) => FocusStep::Chunk { start: c.start, len: c.len, left: left as usize },
        None => FocusStep::Done,
    }
}

/// The window browsed around an address that no module holds.
pub open spec fn adhoc_region(addr: u64) -> Region {
    Region {
        start: if addr >= ADHOC_REGION_BACK {
            (addr - ADHOC_REGION_BACK) as u64
        } else {
            0
        },
        end: if addr + ADHOC_REGION_FORWARD <= u64::MAX {
            (addr + ADHOC_REGION_FORWARD) as u64
        } else {
            u64::MAX
        },
    }
}

impl DisassemblyPanel {
    /// `post` is `pre` with the row of `addr` selected and scrolled to; where
    /// the listing does not hold `addr` it is shown from the top.
    pub open spec fn row_shown(pre: Self, post: Self, addr: u64) -> bool {
        post == (DisassemblyPanel {
            scroll_to_row: match listing_row(pre.linear_insns@, addr) {
                Some(i) => Some(i as usize),
                None => Some(0usize),
            },
            selected_row: match listing_row(pre.linear_insns@, addr) {
                Some(i) => Some(i as usize),
                None => None,
            },
            ..pre
        })
    }

    /// `post` is `pre` with the listing restarted at `start` to show `addr`.
    pub open spec fn restarted(pre: Self, post: Self, start: u64, step: FocusStep) -> bool {
        let (next, found) = seek(
            pre.linear_regions@,
            false,
            clamped(pre.linear_regions@, start),
            RECENTER_MAX_CHUNKS as nat,
        );
        &&& post.linear_insns@.len() == 0
        &&& post == (DisassemblyPanel {
            linear_insns: post.linear_insns,
            linear_next: next,
            selected_row: None,
            scroll_to_row: if found is None {
                Some(0)
            } else {
                pre.scroll_to_row
            },
            ..pre
        })
        &&& step == chunk_step(found)
    }

    /// `post` is what a focus on `addr` makes of `pre` once `addr` lies in a
    /// region: a look behind `addr` is asked for, or, at the very start of a
    /// region, the listing restarts at `addr`.
    pub open spec fn looks_behind(pre: Self, post: Self, addr: u64, step: FocusStep) -> bool {
        let lo = back_floor(pre.linear_regions@, addr);
        if lo >= addr {
            Self::restarted(pre, post, addr, step)
        } else {
            post == pre && step == (FocusStep::Window { lo, len: (addr - lo) as usize })
        }
    }

    fn finish_focus(&mut self, addr: u64)
        ensures
            Self::row_shown(*old(self), *final(self), addr),
    {
        let row = self.linear_index_of(addr);
        self.scroll_to_row = match row {
            Some(i) => Some(i),
            None => Some(0),
        };
        self.selected_row = row;
    }

    fn seek_chunk(&mut self, left: usize) -> (r: Option<(Chunk, usize)>)
        requires
            old(self).wf(),
        ensures
            final(self).wf(),
            ({
                let (next, found) = seek(
                    old(self).linear_regions@,
                    old(self).linear_insns@.len() >= LINEAR_MAX_INSNS,
                    old(self).linear_next,
                    left as nat,
                );
                &&& *final(self) == (DisassemblyPanel { linear_next: next, ..*old(self) })
                &&& match r {
                    Some((c, l)) => found == Some((c, l as nat)) && l <= left && l > 0,
                    None => found is None,
                }
            }),
        decreases left,
    {
        if left == 0 {
            return None;
        }
        match self.plan_extension() {
            Some(c) => Some((c, left)),
            None => {
                if self.linear_next.is_none() {
                    return None;
                }
                self.seek_chunk(left - 1)
            },
        }
    }

    fn restart(&mut self, addr: u64, start: u64) -> (step: FocusStep)
        requires
            old(self).wf(),
        ensures
            final(self).wf(),
            Self::restarted(*old(self), *final(self), start, step),
    {
        self.linear_reset(start);
        match self.seek_chunk(RECENTER_MAX_CHUNKS) {
            Some((c, left)) => FocusStep::Chunk { start: c.start, len: c.len, left },
            None => {
                self.finish_focus(addr);
                FocusStep::Done
            },
        }
    }

    fn look_behind(&mut self, addr: u64) -> (step: FocusStep)
        requires
            old(self).wf(),
        ensures
            final(self).wf(),
            Self::looks_behind(*old(self), *final(self), addr, step),
    {
        let floor: u64 = match self.region_of(addr) {
            Some(r) => r.start,
            None => 0,
        };
        let near: u64 = addr.saturating_sub(BACK_CONTEXT_BYTES);
        let lo: u64 = if near > floor {
            near
        } else {
            floor
        };
        if lo >= addr {
            return self.restart(addr, addr);
        }
        FocusStep::Window { lo, len: (addr - lo) as usize }
    }

    /// Begins to bring `addr` into view, keeping the code around it. `symbol` is
    /// the symbol at `addr`. Where `addr` is decoded already the listing stays
    /// as it is and is only scrolled.
    pub fn focus_begin(&mut self, addr: u64, symbol: Option<String>) -> (step: FocusStep)
        requires
            old(self).wf(),
        ensures
            final(self).wf(),
            ({
                let named = DisassemblyPanel { entry_symbol: symbol, ..*old(self) };
                if listing_row(old(self).linear_insns@, addr) is Some {
                    Self::row_shown(named, *final(self), addr) && step == FocusStep::Done
                } else if region_at(old(self).linear_regions@, addr) is Some {
                    Self::looks_behind(named, *final(self), addr, step)
                } else if exists|i: int|
                    0 <= i < old(self).modules@.len() && owns(
                        #[trigger] old(self).modules@[i],
                        addr,
                    ) {
                    &&& *final(self) == named
                    &&& exists|i: int|
                        0 <= i < old(self).modules@.len() && crate::process_reader::is_first(
                            old(self).modules@,
                            i,
                            |m: ModuleInfo| owns(m, addr),
                        ) && step == (FocusStep::Regions {
                            base: (#[trigger] old(self).modules@[i]).base,
                            size: old(self).modules@[i].size,
                        })
                } else {
                    &&& is_partition(final(self).linear_regions@)
                    &&& forall|a: int| #[trigger]
                        covers(final(self).linear_regions@, a) <==> covers(
                            old(self).linear_regions@,
                            a,
                        ) || adhoc_region(addr).has(a)
                    &&& Self::looks_behind(
                        (DisassemblyPanel {
                            linear_regions: final(self).linear_regions,
                            ..named
                        }),
                        *final(self),
                        addr,
                        step,
                    )
                }
            }),
    {
        self.entry_symbol = symbol;
        if self.linear_index_of(addr).is_some() {
            self.finish_focus(addr);
            return FocusStep::Done;
        }
        if self.region_of(addr).is_some() {
            return self.look_behind(addr);
        }
        let mut i: usize = 0;
        while i < self.modules.len()
            invariant
                i <= self.modules@.len(),
                self.wf(),
                *self == (DisassemblyPanel { entry_symbol: symbol, ..*old(self) }),
                listing_row(old(self).linear_insns@, addr) is None,
                region_at(old(self).linear_regions@, addr) is None,
                forall|j: int| 0 <= j < i ==> !owns(#[trigger] self.modules@[j], addr),
            decreases self.modules@.len() - i,
        {
            let m = &self.modules[i];
            if addr >= m.base as u64 && addr - (m.base as u64) < m.size as u64 {
                assert(owns(self.modules@[i as int], addr));
                return FocusStep::Regions { base: m.base, size: m.size };
            }
            i += 1;
        }
        let none: Vec<Region> = Vec::new();
        self.add_regions(none.as_slice(), addr);
        proof {
            assert forall|a: int| !(#[trigger] covers(none@, a)) by {}
        }
        self.look_behind(addr)
    }

    /// Widens the browsable set by `regions`, and by a window round `addr` where
    /// none of them holds it.
    fn add_regions(&mut self, regions: &[Region], addr: u64)
        requires
            old(self).wf(),
        ensures
            final(self).wf(),
            *final(self) == (DisassemblyPanel {
                linear_regions: final(self).linear_regions,
                ..*old(self)
            }),
            forall|a: int| #[trigger]
                covers(final(self).linear_regions@, a) <==> covers(old(self).linear_regions@, a)
                    || covers(regions@, a) || (!covers(regions@, addr as int) && adhoc_region(
                    addr,
                ).has(a)),
    {
        let mut all: Vec<Region> = Vec::new();
        let mut known = false;
        let mut i: usize = 0;
        while i < regions.len()
            invariant
                i <= regions@.len(),
                all@ == regions@.subrange(0, i as int),
                known == covers(regions@.subrange(0, i as int), addr as int),
            decreases regions@.len() - i,
        {
            let r = regions[i];
            let here = addr >= r.start && addr < r.end;
            proof {
                let seen = regions@.subrange(0, i as int);
                let next = regions@.subrange(0, i + 1);
                if covers(seen, addr as int) {
                    let k = choose|k: int|
                        0 <= k < seen.len() && (#[trigger] seen[k]).has(addr as int);
                    assert(next[k].has(addr as int));
                }
                if here {
                    assert(next[i as int].has(addr as int));
                }
                if covers(next, addr as int) {
                    let k = choose|k: int|
                        0 <= k < next.len() && (#[trigger] next[k]).has(addr as int);
                    if k < i {
                        assert(seen[k].has(addr as int));
                    }
                }
            }
            if here {
                known = true;
            }
            all.push(r);
            i += 1;
        }
        assert(regions@.subrange(0, regions@.len() as int) =~= regions@);
        if !known {
            all.push(
                Region {
                    start: addr.saturating_sub(ADHOC_REGION_BACK),
                    end: addr.saturating_add(ADHOC_REGION_FORWARD),
                },
            );
        }
        let ghost added = all@;
        let mut k: usize = 0;
        while k < self.linear_regions.len()
            invariant
                k <= self.linear_regions@.len(),
                *self == *old(self),
                all@ == added + self.linear_regions@.subrange(0, k as int),
            decreases self.linear_regions@.len() - k,
        {
            all.push(self.linear_regions[k]);
            k += 1;
        }
        let ghost whole = all@;
        self.linear_regions = merge_regions(all.as_slice());
        proof {
            let was = old(self).linear_regions@;
            assert(was.subrange(0, was.len() as int) =~= was);
            assert forall|a: int| #[trigger] covers(self.linear_regions@, a) <==> covers(was, a)
                || covers(regions@, a) || (!covers(regions@, addr as int) && adhoc_region(
                addr,
            ).has(a)) by {
                assert(covers(self.linear_regions@, a) <==> covers(whole, a));
                if covers(whole, a) {
                    let j = choose|j: int| 0 <= j < whole.len() && (#[trigger] whole[j]).has(a);
                    if j >= added.len() {
                        assert(was[j - added.len()].has(a));
                    } else if j < regions@.len() {
                        assert(regions@[j].has(a));
                    }
                }
                if covers(was, a) {
                    let j = choose|j: int| 0 <= j < was.len() && (#[trigger] was[j]).has(a);
                    assert(whole[added.len() + j].has(a));
                }
                if covers(regions@, a) {
                    let j = choose|j: int| 0 <= j < regions@.len() && (#[trigger] regions@[j]).has(a);
                    assert(whole[j].has(a));
                }
                if !covers(regions@, addr as int) && adhoc_region(addr).has(a) {
                    assert(whole[added.len() - 1].has(a));
                }
            }
        }
    }

    /// Goes on with a focus that asked for the executable regions of a module.
    pub fn focus_regions(&mut self, addr: u64, regions: &[Region]) -> (step: FocusStep)
        requires
            old(self).wf(),
        ensures
            final(self).wf(),
            forall|a: int| #[trigger]
                covers(final(self).linear_regions@, a) <==> covers(old(self).linear_regions@, a)
                    || covers(regions@, a) || (!covers(regions@, addr as int) && adhoc_region(
                    addr,
                ).has(a)),
            Self::looks_behind(
                (DisassemblyPanel { linear_regions: final(self).linear_regions, ..*old(self) }),
                *final(self),
                addr,
                step,
            ),
    {
        self.add_regions(regions, addr);
        self.look_behind(addr)
    }

    /// Goes on with a focus that asked for a window of `len` bytes in front of
    /// `addr`: `read` bytes of it came, and decoding from `synced` steps onto
    /// `addr`. Without that no code in front of `addr` is shown.
    pub fn focus_window(
        &mut self,
        addr: u64,
        len: usize,
        read: Option<usize>,
        synced: Option<u64>,
    ) -> (step: FocusStep)
        requires
            old(self).wf(),
        ensures
            final(self).wf(),
            Self::restarted(
                *old(self),
                *final(self),
                shown_from(addr, len, read, synced),
                step,
            ),
    {
        let start: u64 = match (read, synced) {
            (Some(n), Some(start)) => if n >= len {
                start
            } else {
                addr
            },
            _ => addr,
        };
        self.restart(addr, start)
    }

    /// A focus on `addr` went on once the chunk at `start` was decoded.
    pub open spec fn took_focus_chunk(
        pre: Self,
        post: Self,
        addr: u64,
        start: u64,
        left: usize,
        result: Result<Vec<Insn>, String>,
        step: FocusStep,
    ) -> bool {
        let insns = match result {
            Ok(v) => pre.linear_insns@ + v@,
            Err(_) => pre.linear_insns@,
        };
        let next = match result {
            Ok(v) => pre.after_chunk(start, v@),
            Err(_) => None,
        };
        let (then, found) = if next is None || listing_row(insns, addr) is Some || left
            == 0 {
            (next, None)
        } else {
            seek(
                pre.linear_regions@,
                insns.len() >= LINEAR_MAX_INSNS,
                next,
                (left - 1) as nat,
            )
        };
        &&& post.linear_insns@ == insns
        &&& result matches Err(e) ==> says(
            post.status_msg,
            "Disassembly failed: "@ + e@,
        )
        &&& result is Ok ==> post.status_msg == pre.status_msg
        &&& step == chunk_step(found)
        &&& post.scroll_to_row == if found is Some {
            pre.scroll_to_row
        } else {
            match listing_row(insns, addr) {
                Some(i) => Some(i as usize),
                None => Some(0usize),
            }
        }
        &&& post.selected_row == if found is Some {
            pre.selected_row
        } else {
            match listing_row(insns, addr) {
                Some(i) => Some(i as usize),
                None => None,
            }
        }
        &&& post == (DisassemblyPanel {
            linear_insns: post.linear_insns,
            linear_next: then,
            status_msg: post.status_msg,
            scroll_to_row: post.scroll_to_row,
            selected_row: post.selected_row,
            ..pre
        })
    }

    /// Goes on with a focus that asked for a chunk to be decoded.
    pub fn focus_chunk(
        &mut self,
        addr: u64,
        start: u64,
        left: usize,
        result: Result<Vec<Insn>, String>,
    ) -> (step: FocusStep)
        requires
            old(self).wf(),
        ensures
            final(self).wf(),
            Self::took_focus_chunk(*old(self), *final(self), addr, start, left, result, step),
    {
        self.apply_chunk(start, result);
        if self.linear_next.is_none() || left == 0 || self.linear_index_of(addr).is_some() {
            self.finish_focus(addr);
            return FocusStep::Done;
        }
        match self.seek_chunk(left - 1) {
            Some((c, l)) => FocusStep::Chunk { start: c.start, len: c.len, left: l },
            None => {
                self.finish_focus(addr);
                FocusStep::Done
            },
        }
    }

    /// The keys of the panel: back, up and down in the listing, and following
    /// the branch of the row that was selected before.
    pub fn handle_keyboard(&mut self, space: bool, backspace: bool, up: bool, down: bool)
        requires
            old(self).wf(),
        ensures
            final(self).wf(),
            exists|mid: Self| #[trigger]
                Self::stepped(*old(self), mid, backspace) && Self::keyed(
                    *old(self),
                    mid,
                    *final(self),
                    space,
                    up,
                    down,
                ),
    {
        let len: usize = self.linear_insns.len();
        let target: Option<u64> = match self.selected_row {
            Some(r) => if r < self.linear_insns.len() {
                self.linear_insns[r].target
            } else {
                None
            },
            None => None,
        };
        let ghost pre = *self;
        if backspace {
            self.go_back();
        }
        assert(Self::stepped(pre, *self, backspace));
        if len > 0 {
            if down {
                let r: usize = match self.selected_row {
                    None => 0,
                    Some(r) => if r < len - 1 {
                        r + 1
                    } else {
                        len - 1
                    },
                };
                self.selected_row = Some(r);
                self.scroll_to_row = Some(r);
            }
            if up {
                let r: usize = match self.selected_row {
                    None => 0,
                    Some(r) => if r > 0 {
                        r - 1
                    } else {
                        0
                    },
                };
                self.selected_row = Some(r);
                self.scroll_to_row = Some(r);
            }
        }
        if space {
            if let Some(t) = target {
                self.pending_navigate = Some(t as usize);
            }
        }
    }

    /// What the empty table of instructions says.
    pub fn empty_listing(&self) -> (e: EmptyListing)
        ensures
            e == if self.linear_regions@.len() == 0 {
                EmptyListing::NothingSelected
            } else if self.linear_next is Some {
                EmptyListing::Decoding
            } else {
                EmptyListing::NoInstructions
            },
    {
        if self.linear_regions.len() == 0 {
            EmptyListing::NothingSelected
        } else if self.linear_next.is_some() {
            EmptyListing::Decoding
        } else {
            EmptyListing::NoInstructions
        }
    }

    /// Takes the row to scroll to: it is handed out once.
    pub fn take_scroll(&mut self) -> (r: Option<usize>)
        ensures
            r == old(self).scroll_to_row,
            *final(self) == (DisassemblyPanel { scroll_to_row: None, ..*old(self) }),
    {
        let r = self.scroll_to_row;
        self.scroll_to_row = None;
        r
    }

    /// Takes in what the user did to the table of instructions.
    pub fn apply_table_actions(&mut self, actions: TableActions)
        ensures
            *final(self) == (DisassemblyPanel {
                selected_row: replaced_by(old(self).selected_row, actions.select),
                pending_navigate: replaced_by(old(self).pending_navigate, actions.navigate),
                pending_action: replaced_by(old(self).pending_action, actions.action),
                ..*old(self)
            }),
    {
        if actions.select.is_some() {
            self.selected_row = actions.select;
        }
        if actions.navigate.is_some() {
            self.pending_navigate = actions.navigate;
        }
        if actions.action.is_some() {
            self.pending_action = actions.action;
        }
    }

    /// Takes in the outcome of writing `len` NOP bytes at `addr`. What was
    /// decoded before is dropped, so that the listing shows the patched code.
    pub fn nop_written(&mut self, addr: usize, len: usize, ok: bool)
        requires
            old(self).wf(),
        ensures
            final(self).wf(),
            ok ==> {
                &&& final(self).linear_insns@.len() == 0
                &&& says(
                    final(self).status_msg,
                    "Wrote "@ + decimal(len as nat) + " NOP byte(s) at "@ + prefixed_hex(
                        addr as nat,
                    ),
                )
                &&& *final(self) == (DisassemblyPanel {
                    status_msg: final(self).status_msg,
                    linear_insns: final(self).linear_insns,
                    linear_next: None,
                    pending_focus: Some(old(self).address),
                    ..*old(self)
                })
            },
            !ok ==> {
                &&& says(
                    final(self).status_msg,
                    "NOP write failed at "@ + prefixed_hex(addr as nat),
                )
                &&& *final(self) == (DisassemblyPanel {
                    status_msg: final(self).status_msg,
                    ..*old(self)
                })
            },
    {
        let at = prefixed_hex_exec(addr as u64);
        if ok {
            let mut m = "Wrote ".to_string();
            let n = string_of(decimal_exec(len as u64).as_slice());
            m.append(n.as_str());
            m.append(" NOP byte(s) at ");
            m.append(at.as_str());
            self.status_msg = Some(m);
            self.linear_insns = Vec::new();
            self.linear_next = None;
            self.pending_focus = Some(self.address);
        } else {
            let mut m = "NOP write failed at ".to_string();
            m.append(at.as_str());
            self.status_msg = Some(m);
        }
    }

    /// The module image that a signature for `addr` is made from, and where
    /// `addr` lies in it. Without such a module the signature says why there is
    /// none.
    pub fn request_signature(&mut self, addr: usize) -> (r: Option<(Span, usize)>)
        ensures
            match r {
                Some((span, offset)) => {
                    &&& *final(self) == *old(self)
                    &&& exists|i: int|
                        0 <= i < old(self).modules@.len() && crate::process_reader::is_first(
                            old(self).modules@,
                            i,
                            |m: ModuleInfo| owns(m, addr as u64),
                        ) && span.base == (#[trigger] old(self).modules@[i]).base && span.size
                            == old(self).modules@[i].size && offset == addr - span.base
                },
                None => {
                    &&& forall|i: int|
                        0 <= i < old(self).modules@.len() ==> !owns(
                            #[trigger] old(self).modules@[i],
                            addr as u64,
                        )
                    &&& final(self).last_signature matches Some(Err(m)) && m@ == prefixed_hex(
                        addr as nat,
                    ) + " not found in any loaded module"@
                    &&& *final(self) == (DisassemblyPanel {
                        last_signature: final(self).last_signature,
                        ..*old(self)
                    })
                },
            },
    {
        let mut i: usize = 0;
        while i < self.modules.len()
            invariant
                i <= self.modules@.len(),
                *self == *old(self),
                forall|j: int| 0 <= j < i ==> !owns(#[trigger] self.modules@[j], addr as u64),
            decreases self.modules@.len() - i,
        {
            let m = &self.modules[i];
            if addr >= m.base && addr - m.base < m.size {
                assert(owns(self.modules@[i as int], addr as u64));
                return Some((Span { base: m.base, size: m.size }, addr - m.base));
            }
            i += 1;
        }
        let mut m = prefixed_hex_exec(addr as u64);
        m.append(" not found in any loaded module");
        self.last_signature = Some(Err(m));
        None
    }

    /// Takes in the signature that was made, or why the image could not be read.
    pub fn signature_made(&mut self, result: Result<Option<String>, String>)
        ensures
            *final(self) == (DisassemblyPanel {
                last_signature: final(self).last_signature,
                ..*old(self)
            }),
            match result {
                Ok(Some(sig)) => final(self).last_signature == Some(Ok::<String, String>(sig)),
                Ok(None) => final(self).last_signature matches Some(Err(m)) && m@
                    == "Not unique within module (try longer max_len)"@,
                Err(e) => final(self).last_signature matches Some(Err(m)) && m@ == "Read failed: "@
                    + e@,
            },
    {
        self.last_signature = Some(
            match result {
                Ok(Some(sig)) => Ok(sig),
                Ok(None) => Err("Not unique within module (try longer max_len)".to_string()),
                Err(e) => {
                    let mut m = "Read failed: ".to_string();
                    m.append(e.as_str());
                    Err(m)
                },
            },
        );
    }

    /// Whether the listing is to be extended: decoding can go on, and the last
    /// visible row is near the end of the `len` rows that were drawn.
    pub fn wants_more(&self, len: usize, last_visible: usize) -> (r: bool)
        ensures
            r == (self.linear_next is Some && (len == 0 || last_visible + LINEAR_EXTEND_ROWS
                >= len)),
    {
        self.linear_next.is_some() && (len == 0 || len <= LINEAR_EXTEND_ROWS || last_visible >= len
            - LINEAR_EXTEND_ROWS)
    }

    /// How many modules are browsed, in words.
    pub fn selection_label(&self) -> (s: String)
        ensures
            s@ == if self.selected_modules@.len() == 0 {
                "No modules selected"@
            } else if self.selected_modules@.len() == 1 {
                "1 module"@
            } else {
                decimal(self.selected_modules@.len()) + " modules"@
            },
    {
        let n: usize = self.selected_modules.len();
        if n == 0 {
            "No modules selected".to_string()
        } else if n == 1 {
            "1 module".to_string()
        } else {
            let mut s = string_of(decimal_exec(n as u64).as_slice());
            s.append(" modules");
            s
        }
    }

    /// How many instructions are decoded, with a `+` while there are more.
    pub fn count_label(&self) -> (s: String)
        ensures
            s@ == decimal(self.linear_insns@.len()) + (if self.linear_next is Some {
                "+"@
            } else {
                ""@
            }) + " instructions"@,
    {
        let mut s = string_of(decimal_exec(self.linear_insns.len() as u64).as_slice());
        if self.linear_next.is_some() {
            s.append("+");
        } else {
            s.append("");
        }
        s.append(" instructions");
        s
    }

    /// The first module whose name holds `part`, or the first one of some size:
    /// what a screenshot of the panel shows.
    pub fn sample_module(&self, part: Option<&str>) -> (r: Option<usize>)
        ensures
            match r {
                Some(i) => i < self.modules@.len() && crate::process_reader::is_first(
                    self.modules@,
                    i as int,
                    |m: ModuleInfo| is_sample(m, part),
                ),
                None => forall|i: int|
                    0 <= i < self.modules@.len() ==> !is_sample(#[trigger] self.modules@[i], part),
            },
    {
        let mut i: usize = 0;
        while i < self.modules.len()
            invariant
                i <= self.modules@.len(),
                forall|j: int| 0 <= j < i ==> !is_sample(#[trigger] self.modules@[j], part),
            decreases self.modules@.len() - i,
        {
            let hit = match part {
                Some(p) => {
                    let hay = crate::text::chars_of(self.modules[i].name.as_str());
                    let needle = crate::text::chars_of(p);
                    crate::text::contains_text_exec(hay.as_slice(), needle.as_slice())
                },
                None => self.modules[i].size > 0x2000,
            };
            if hit {
                return Some(i);
            }
            i += 1;
        }
        None
    }
}

/// A module that a screenshot is taken of.
pub open spec fn is_sample(m: ModuleInfo, part: Option<&str>) -> bool {
    match part {
        Some(p) => crate::text::contains_text(m.name@, p@),
        None => m.size > 0x2000,
    }
}

/// The selected row after the arrow keys, in a listing of `len` rows.
pub open spec fn moved_row(row: Option<usize>, len: int, up: bool, down: bool) -> Option<usize> {
    if len == 0 {
        row
    } else {
        let after_down = if down {
            match row {
                None => Some(0usize),
                Some(r) => if r < len - 1 {
                    Some((r + 1) as usize)
                } else {
                    Some((len - 1) as usize)
                },
            }
        } else {
            row
        };
        if up {
            match after_down {
                None => Some(0usize),
                Some(r) => if r > 0 {
                    Some((r - 1) as usize)
                } else {
                    Some(0usize)
                },
            }
        } else {
            after_down
        }
    }
}

/// Going back returns to the place that a navigation left, and going forward
/// from there to the place that it went to.
pub proof fn back_undoes_navigation(
    start: DisassemblyPanel,
    there: DisassemblyPanel,
    back: DisassemblyPanel,
    again: DisassemblyPanel,
    target: usize,
)
    requires
        target != start.address,
        DisassemblyPanel::navigated(start, there, target),
        DisassemblyPanel::went_back(there, back),
        DisassemblyPanel::went_forward(back, again),
    ensures
        there.address == target,
        back.address == start.address,
        back.address_input@ == address_text(start.address as nat),
        start.back@.len() < HISTORY_CAP ==> back.back@ == start.back@,
        again.address == target,
        again.back@ == there.back@ || start.back@.len() >= HISTORY_CAP,
        again.forward@.len() == 0,
{
    assert(there.back@.last() == start.address);
    assert(back.forward@ =~= seq![target]);
    if start.back@.len() < HISTORY_CAP {
        assert(there.back@.drop_last() =~= start.back@);
    }
}

/// Moving about leaves the listing and the browsed regions alone.
pub proof fn navigation_keeps_the_listing(
    pre: DisassemblyPanel,
    post: DisassemblyPanel,
    target: usize,
)
    requires
        DisassemblyPanel::navigated(pre, post, target) || DisassemblyPanel::went_back(pre, post)
            || DisassemblyPanel::went_forward(pre, post),
    ensures
        post.linear_insns == pre.linear_insns,
        post.linear_regions == pre.linear_regions,
        post.linear_next == pre.linear_next,
{
}

/// The instructions of a chunk lie in its `len` bytes from `start` on, one
/// behind the other.
pub open spec fn chunk_decoded(insns: Seq<Insn>, start: u64, len: usize) -> bool {
    &&& ordered(insns)
    &&& forall|i: int|
        0 <= i < insns.len() ==> start <= (#[trigger] insns[i]).address && insns[i].address
            + insns[i].length <= start + len
}

/// Everything that is decoded lies in front of where decoding goes on.
pub open spec fn behind(insns: Seq<Insn>, next: Option<u64>) -> bool {
    next matches Some(n) ==> forall|i: int|
        0 <= i < insns.len() ==> (#[trigger] insns[i]).address + insns[i].length <= n
}

proof fn lemma_next_start_bound(s: Seq<Region>, addr: u64)
    ensures
        next_start(s, addr) matches Some(n) ==> n >= addr,
    decreases s.len(),
{
    if s.len() > 0 {
        lemma_next_start_bound(s.drop_last(), addr);
    }
}

/// However far the listing is extended, its instructions never overlap and
/// never repeat.
pub proof fn extension_keeps_order(
    panel: DisassemblyPanel,
    start: u64,
    r: Region,
    insns: Seq<Insn>,
)
    requires
        panel.linear_next == Some(start),
        region_at(panel.linear_regions@, start) == Some(r),
        ordered(panel.linear_insns@),
        behind(panel.linear_insns@, panel.linear_next),
        chunk_decoded(insns, start, chunk_at(start, r).len),
    ensures
        ordered(panel.linear_insns@ + insns),
        behind(panel.linear_insns@ + insns, panel.after_chunk(start, insns)),
{
    let was = panel.linear_insns@;
    let all = was + insns;
    lemma_region_at_covers(panel.linear_regions@, start);
    lemma_next_start_bound(panel.linear_regions@, r.end);
    assert forall|i: int, j: int| 0 <= i < j < all.len() implies (#[trigger] all[i]).address
        + all[i].length <= (#[trigger] all[j]).address by {
        if j < was.len() {
            assert(was[i].address + was[i].length <= was[j].address);
        } else if i < was.len() {
            assert(was[i].address + was[i].length <= start);
            assert(start <= insns[j - was.len()].address);
        } else {
            assert(insns[i - was.len()].address + insns[i - was.len()].length <= insns[j
                - was.len()].address);
        }
    }
    if let Some(n) = panel.after_chunk(start, insns) {
        assert forall|i: int| 0 <= i < all.len() implies (#[trigger] all[i]).address
            + all[i].length <= n by {
            if i < was.len() {
                assert(was[i].address + was[i].length <= start);
                if insns.len() > 0 {
                    assert(start <= insns[insns.len() - 1].address);
                }
            } else {
                let k = i - was.len();
                assert(insns[k].address + insns[k].length <= start + chunk_at(start, r).len);
                if k < insns.len() - 1 {
                    assert(insns[k].address + insns[k].length <= insns[insns.len() - 1].address);
                }
            }
        }
    }
}

/// Jumping outside the browsed set widens it: the window round an address holds
/// the address.
pub proof fn adhoc_window_holds_its_address(addr: u64)
    requires
        addr < u64::MAX,
    ensures
        adhoc_region(addr).has(addr as int),
{
}

/// Decoding goes on with the least browsed address at or behind `from`; it is over
/// where there is none.
pub open spec fn resumes_at(regions: Seq<Region>, from: int, next: Option<u64>) -> bool {
    match next {
        Some(n) => {
            &&& from <= n
            &&& covers(regions, n as int)
            &&& forall|a: int| from <= a < n ==> !#[trigger] covers(regions, a)
        },
        None => forall|a: int| from <= a ==> !#[trigger] covers(regions, a),
    }
}

proof fn lemma_next_start(s: Seq<Region>, addr: u64)
    ensures
        match next_start(s, addr) {
            Some(n) => n >= addr && (exists|i: int| 0 <= i < s.len() && (#[trigger] s[i]).start
                == n) && forall|i: int|
                0 <= i < s.len() && (#[trigger] s[i]).start >= addr ==> s[i].start >= n,
            None => forall|i: int| 0 <= i < s.len() ==> (#[trigger] s[i]).start < addr,
        },
    decreases s.len(),
{
    if s.len() > 0 {
        let rest = s.drop_last();
        lemma_next_start(rest, addr);
        assert forall|i: int| 0 <= i < rest.len() implies #[trigger] s[i] == rest[i] by {}
        if next_start(s, addr) == next_start(rest, addr) && next_start(rest, addr) is Some {
            let n = next_start(rest, addr)->0;
            let i = choose|i: int| 0 <= i < rest.len() && (#[trigger] rest[i]).start == n;
            assert(s[i].start == n);
        } else if next_start(s, addr) is Some {
            assert(s[s.len() - 1].start == next_start(s, addr)->0);
        }
    }
}

proof fn lemma_next_region(s: Seq<Region>, from: u64)
    requires
        is_partition(s),
        forall|i: int| 0 <= i < s.len() && (#[trigger] s[i]).start < from ==> s[i].end <= from,
    ensures
        resumes_at(s, from as int, next_start(s, from)),
{
    lemma_next_start(s, from);
    if let Some(n) = next_start(s, from) {
        let i = choose|i: int| 0 <= i < s.len() && (#[trigger] s[i]).start == n;
        assert(s[i].has(n as int));
    }
}

/// The listing leaves no gap: after a chunk decoding goes on right behind the last
/// instruction while any byte of the region is left there. A region is left only when
/// nothing of it remains or nothing could be decoded, and then for the least browsed
/// address behind it.
pub proof fn listing_leaves_no_gap(
    panel: DisassemblyPanel,
    start: u64,
    r: Region,
    insns: Seq<Insn>,
)
    requires
        is_partition(panel.linear_regions@),
        panel.linear_regions@.contains(r),
        r.has(start as int),
        forall|i: int|
            0 <= i < insns.len() ==> start <= (#[trigger] insns[i]).address && insns[i].address
                + insns[i].length <= r.end,
    ensures
        insns.len() > 0 ==> resumes_at(
            panel.linear_regions@,
            insns.last().address + insns.last().length,
            panel.after_chunk(start, insns),
        ),
        insns.len() > 0 && insns.last().address + insns.last().length < r.end ==> (
        panel.after_chunk(start, insns) matches Some(n) && n == insns.last().address
            + insns.last().length),
        insns.len() == 0 ==> resumes_at(
            panel.linear_regions@,
            r.end as int,
            panel.after_chunk(start, insns),
        ),
{
    let s = panel.linear_regions@;
    let j = s.index_of(r);
    lemma_region_is(s, j, start);
    assert forall|i: int| 0 <= i < s.len() && (#[trigger] s[i]).start < r.end implies s[i].end
        <= r.end by {
        if i > j {
            assert(s[j].end < s[i].start);
        } else if i < j {
            assert(s[i].end < s[j].start);
        }
    }
    lemma_next_region(s, r.end);
    if insns.len() > 0 {
        let last = insns[insns.len() - 1];
        assert(start <= last.address && last.address + last.length <= r.end);
        let e = last.address + last.length;
        if e < r.end {
            assert(s[j].has(e));
        }
    }
}

proof fn lemma_region_is(s: Seq<Region>, j: int, addr: u64)
    requires
        is_partition(s),
        0 <= j < s.len(),
        s[j].has(addr as int),
    ensures
        region_at(s, addr) == Some(s[j]),
{
    lemma_region_at_covers(s, addr);
    assert(covers(s, addr as int));
    let k = s.index_of(region_at(s, addr)->0);
    if k < j {
        assert(s[k].end < s[j].start);
    } else if j < k {
        assert(s[j].end < s[k].start);
    }
}

/// The `len` bytes from `start` on are browsed, and no more of them could have been
/// taken at once.
pub open spec fn reads_on(regions: Seq<Region>, start: u64, len: usize) -> bool {
    &&& 0 < len <= LINEAR_CHUNK_BYTES
    &&& forall|a: int| start <= a < start + len ==> #[trigger] covers(regions, a)
    &&& len == LINEAR_CHUNK_BYTES || !covers(regions, start + len)
}

proof fn lemma_chunk(s: Seq<Region>, start: u64)
    requires
        is_partition(s),
        region_at(s, start) is Some,
    ensures
        reads_on(s, start, chunk_at(start, region_at(s, start)->0).len),
{
    lemma_region_at_covers(s, start);
    let r = region_at(s, start)->0;
    let j = s.index_of(r);
    let len = chunk_at(start, r).len;
    assert forall|a: int| start <= a < start + len implies #[trigger] covers(s, a) by {
        assert(s[j].has(a));
    }
    if len < LINEAR_CHUNK_BYTES && covers(s, start + len) {
        let k = choose|k: int| 0 <= k < s.len() && (#[trigger] s[k]).has(start + len);
        if k < j {
            assert(s[k].end < s[j].start);
        } else if j < k {
            assert(s[j].end < s[k].start);
        }
    }
}

proof fn lemma_move_on(s: Seq<Region>, from: u64)
    requires
        is_partition(s),
        region_at(s, from) is None,
    ensures
        resumes_at(s, from as int, next_start(s, from)),
{
    lemma_region_at_covers(s, from);
    assert forall|i: int| 0 <= i < s.len() && (#[trigger] s[i]).start < from implies s[i].end
        <= from by {
        assert(!s[i].has(from as int));
    }
    lemma_next_region(s, from);
}

/// A listing is extended from where decoding stands, by browsed bytes alone; where the
/// place is not browsed, decoding moves to the least browsed address behind it.
pub proof fn extension_reads_on(
    pre: DisassemblyPanel,
    post: DisassemblyPanel,
    chunk: Option<Chunk>,
    from: u64,
)
    requires
        is_partition(pre.linear_regions@),
        pre.linear_next == Some(from),
        pre.linear_insns@.len() < LINEAR_MAX_INSNS,
        DisassemblyPanel::planned(pre, post, chunk),
    ensures
        post.linear_insns == pre.linear_insns,
        post.linear_regions == pre.linear_regions,
        chunk is Some <==> covers(pre.linear_regions@, from as int),
        chunk matches Some(c) ==> c.start == from && post.linear_next == Some(from) && reads_on(
            pre.linear_regions@,
            c.start,
            c.len,
        ),
        chunk is None ==> resumes_at(pre.linear_regions@, from as int, post.linear_next),
{
    let s = pre.linear_regions@;
    lemma_region_at_covers(s, from);
    if region_at(s, from) is Some {
        lemma_chunk(s, from);
    } else {
        lemma_move_on(s, from);
    }
}

proof fn lemma_seek(s: Seq<Region>, from: u64, left: nat)
    requires
        is_partition(s),
        left >= 2 || (left == 1 && covers(s, from as int)),
    ensures
        match seek(s, false, Some(from), left).1 {
            Some((c, l)) => {
                &&& 0 < l <= left
                &&& resumes_at(s, from as int, Some(c.start))
                &&& reads_on(s, c.start, c.len)
                &&& seek(s, false, Some(from), left).0 == Some(c.start)
            },
            None => resumes_at(s, from as int, None),
        },
    decreases left,
{
    lemma_region_at_covers(s, from);
    if region_at(s, from) is Some {
        lemma_chunk(s, from);
    } else {
        lemma_move_on(s, from);
        if let Some(n) = next_start(s, from) {
            lemma_seek(s, n, (left - 1) as nat);
            lemma_region_at_covers(s, n);
        }
    }
}

/// A listing that begins anew begins with the least browsed address at or behind the
/// place that was asked for; there is nothing to decode only where no such address is
/// browsed.
pub proof fn listing_begins_where_asked(
    pre: DisassemblyPanel,
    post: DisassemblyPanel,
    from: u64,
    step: FocusStep,
)
    requires
        is_partition(pre.linear_regions@),
        DisassemblyPanel::restarted(pre, post, from, step),
    ensures
        post.linear_insns@.len() == 0,
        post.linear_regions == pre.linear_regions,
        match step {
            FocusStep::Chunk { start, len, left } => {
                &&& resumes_at(pre.linear_regions@, from as int, Some(start))
                &&& reads_on(pre.linear_regions@, start, len)
                &&& left > 0
                &&& post.linear_next == Some(start)
            },
            FocusStep::Done => resumes_at(pre.linear_regions@, from as int, None),
            _ => false,
        },
{
    let s = pre.linear_regions@;
    lemma_region_at_covers(s, from);
    if region_at(s, from) is Some {
        lemma_seek(s, from, RECENTER_MAX_CHUNKS as nat);
    } else {
        lemma_move_on(s, from);
        if let Some(n) = next_start(s, from) {
            lemma_seek(s, n, RECENTER_MAX_CHUNKS as nat);
            lemma_region_at_covers(s, n);
        }
    }
}

/// The code in front of an address is looked for in the bytes right in front of it, in
/// its own region, and as far back as the listing looks.
pub proof fn window_ends_at_the_address(
    pre: DisassemblyPanel,
    post: DisassemblyPanel,
    addr: u64,
    r: Region,
    step: FocusStep,
)
    requires
        is_partition(pre.linear_regions@),
        pre.linear_regions@.contains(r),
        r.has(addr as int),
        DisassemblyPanel::looks_behind(pre, post, addr, step),
    ensures
        addr > r.start ==> post == pre && (step matches FocusStep::Window { lo, len } && lo + len
            == addr && r.start <= lo && 0 < len <= BACK_CONTEXT_BYTES && (lo == r.start || len
            == BACK_CONTEXT_BYTES)),
        addr == r.start ==> (step matches FocusStep::Chunk { start, len, left } && start == addr),
{
    let s = pre.linear_regions@;
    let j = s.index_of(r);
    lemma_region_is(s, j, addr);
    if addr == r.start {
        listing_begins_where_asked(pre, post, addr, step);
        assert(s[j].has(addr as int));
        assert(covers(s, addr as int));
    }
}

/// Without a whole window in front of it an address is the first that is shown; with
/// one, decoding begins where it steps onto the address.
pub proof fn half_a_window_shows_nothing_in_front(
    addr: u64,
    len: usize,
    read: Option<usize>,
    synced: Option<u64>,
)
    ensures
        shown_from(addr, len, read, synced) != addr ==> (read matches Some(n) && n >= len)
            && synced == Some(shown_from(addr, len, read, synced)),
        read matches Some(n) && n < len ==> shown_from(addr, len, read, synced) == addr,
        read is None || synced is None ==> shown_from(addr, len, read, synced) == addr,
        read == Some(len) && synced is Some ==> Some(shown_from(addr, len, read, synced)) == synced,
{
}

/// A focus ends with the row of its address chosen and in view.
pub proof fn focus_chooses_its_row(
    pre: DisassemblyPanel,
    post: DisassemblyPanel,
    addr: u64,
    i: int,
)
    requires
        ordered(pre.linear_insns@),
        0 <= i < pre.linear_insns@.len() <= usize::MAX,
        pre.linear_insns@[i].address <= addr < pre.linear_insns@[i].address
            + pre.linear_insns@[i].length,
        DisassemblyPanel::row_shown(pre, post, addr),
    ensures
        post.linear_insns == pre.linear_insns,
        post.selected_row matches Some(k) && k == i,
        post.scroll_to_row matches Some(k) && k == i,
{
    listing_row_is_exact(pre.linear_insns@, addr, i);
}

/// A focus decodes on, chunk by chunk, until the row of its address is there; then it
/// chooses the row. What was decoded stays and is followed by what came.
pub proof fn focus_decodes_up_to_its_row(
    pre: DisassemblyPanel,
    post: DisassemblyPanel,
    addr: u64,
    start: u64,
    left: usize,
    got: Vec<Insn>,
    step: FocusStep,
)
    requires
        is_partition(pre.linear_regions@),
        DisassemblyPanel::took_focus_chunk(pre, post, addr, start, left, Ok(got), step),
        ordered(pre.linear_insns@ + got@),
        pre.linear_insns@.len() + got@.len() <= usize::MAX,
    ensures
        post.linear_insns@ == pre.linear_insns@ + got@,
        post.linear_regions == pre.linear_regions,
        forall|i: int|
            0 <= i < post.linear_insns@.len() && (#[trigger] post.linear_insns@[i]).address <= addr
                < post.linear_insns@[i].address + post.linear_insns@[i].length ==> step
                == FocusStep::Done && post.selected_row == Some(i as usize) && post.scroll_to_row
                == Some(i as usize),
        step matches FocusStep::Chunk { start: n, len, left: l } ==> l < left && reads_on(
            pre.linear_regions@,
            n,
            len,
        ) && (pre.after_chunk(start, got@) matches Some(f) && resumes_at(
            pre.linear_regions@,
            f as int,
            Some(n),
        )),
{
    let all = pre.linear_insns@ + got@;
    assert forall|i: int|
        0 <= i < all.len() && (#[trigger] all[i]).address <= addr < all[i].address
            + all[i].length implies listing_row(all, addr) == Some(i) by {
        listing_row_is_exact(all, addr, i);
    }
    if let Some(f) = pre.after_chunk(start, got@) {
        lemma_region_at_covers(pre.linear_regions@, f);
        if left >= 3 || (left == 2 && covers(pre.linear_regions@, f as int)) {
            lemma_seek(pre.linear_regions@, f, (left - 1) as nat);
        } else if left == 2 {
            reveal_with_fuel(seek, 2);
        }
    }
}

/// Each key moves the chosen row by one, keeps it in view and in the listing, and the
/// two undo each other; space follows the instruction of the chosen row.
pub proof fn keys_move_by_a_row(
    pre: DisassemblyPanel,
    low: DisassemblyPanel,
    post: DisassemblyPanel,
    r: usize,
)
    requires
        pre.selected_row == Some(r),
        r + 1 < pre.linear_insns@.len() <= usize::MAX,
        DisassemblyPanel::keyed(pre, pre, low, false, false, true),
        DisassemblyPanel::keyed(low, low, post, false, true, false),
    ensures
        low.selected_row matches Some(k) && k == r + 1,
        low.scroll_to_row == low.selected_row,
        low.linear_insns == pre.linear_insns,
        low.pending_navigate == pre.pending_navigate,
        post.selected_row == pre.selected_row,
        post.scroll_to_row == post.selected_row,
{
}

/// The chosen row never leaves the listing.
pub proof fn chosen_row_stays_in_the_listing(
    row: Option<usize>,
    len: int,
    up: bool,
    down: bool,
)
    requires
        0 < len <= usize::MAX,
        row matches Some(r) ==> r < len,
    ensures
        moved_row(row, len, up, down) matches Some(r) ==> r < len,
        up || down ==> moved_row(row, len, up, down) is Some,
        !up && !down ==> moved_row(row, len, up, down) == row,
        row is None && (up || down) ==> moved_row(row, len, up, down) == Some(0usize),
{
}

/// Space goes where the chosen instruction leads.
pub proof fn space_follows_the_instruction(
    pre: DisassemblyPanel,
    post: DisassemblyPanel,
    r: usize,
    t: u64,
)
    requires
        pre.selected_row == Some(r),
        r < pre.linear_insns@.len(),
        pre.linear_insns@[r as int].target == Some(t),
        t <= usize::MAX,
        DisassemblyPanel::keyed(pre, pre, post, true, false, false),
    ensures
        post.pending_navigate matches Some(a) && a == t,
        post.selected_row == pre.selected_row,
{
}

/// The spans that are browsed are those of the modules that were picked.
pub proof fn picked_modules_are_browsed(modules: Seq<ModuleInfo>, selected: Seq<usize>)
    ensures
        forall|k: int|
            0 <= k < selected.len() && (#[trigger] selected[k]) < modules.len() ==> exists|j: int|
                0 <= j < spans_of(modules, selected).len() && (#[trigger] spans_of(
                    modules,
                    selected,
                )[j]).base == modules[selected[k] as int].base && spans_of(modules, selected)[j].size
                    == modules[selected[k] as int].size,
        forall|j: int|
            0 <= j < spans_of(modules, selected).len() ==> exists|k: int|
                0 <= k < selected.len() && (#[trigger] selected[k]) < modules.len() && (
                #[trigger] spans_of(modules, selected)[j]).base == modules[selected[k] as int].base
                    && spans_of(modules, selected)[j].size == modules[selected[k] as int].size,
        spans_of(modules, selected).len() <= selected.len(),
    decreases selected.len(),
{
    if selected.len() > 0 {
        let rest = selected.drop_last();
        picked_modules_are_browsed(modules, rest);
        let all = spans_of(modules, selected);
        let before = spans_of(modules, rest);
        let n = selected.len() - 1;
        assert forall|k: int|
            0 <= k < selected.len() && (#[trigger] selected[k]) < modules.len() implies exists|j: int|
            0 <= j < all.len() && (#[trigger] all[j]).base == modules[selected[k] as int].base
                && all[j].size == modules[selected[k] as int].size by {
            if k < n {
                assert(rest[k] == selected[k]);
                let j = choose|j: int|
                    0 <= j < before.len() && (#[trigger] before[j]).base
                        == modules[selected[k] as int].base && before[j].size
                        == modules[selected[k] as int].size;
                assert(all[j] == before[j]);
            } else {
                assert(all[all.len() - 1].base == modules[selected[k] as int].base);
            }
        }
        assert forall|j: int| 0 <= j < all.len() implies exists|k: int|
            0 <= k < selected.len() && (#[trigger] selected[k]) < modules.len() && (
            #[trigger] all[j]).base == modules[selected[k] as int].base && all[j].size
                == modules[selected[k] as int].size by {
            if j < before.len() {
                assert(all[j] == before[j]);
                let k = choose|k: int|
                    0 <= k < rest.len() && (#[trigger] rest[k]) < modules.len() && before[j].base
                        == modules[rest[k] as int].base && before[j].size
                        == modules[rest[k] as int].size;
                assert(selected[k] == rest[k]);
            } else {
                assert(selected[n] < modules.len());
            }
        }
    }
}

/// The modules are listed by where they lie, and none is lost.
pub proof fn every_module_is_listed(modules: Seq<ModuleInfo>, out: Seq<ModuleInfo>)
    requires
        modules_by_base(modules, out),
        modules.len() <= usize::MAX,
    ensures
        out.len() == modules.len(),
        bases_ascend(out),
        forall|i: int| 0 <= i < modules.len() ==> out.contains(#[trigger] modules[i]),
{
    let keys = module_slots(modules);
    let slots = choose|slots: Seq<Slot>|
        #![trigger stably_sorted(module_slots(modules), slots)]
        stably_sorted(module_slots(modules), slots) && out.len() == slots.len() && forall|i: int|
            0 <= i < out.len() ==> (#[trigger] slots[i]).index < modules.len() && out[i]
                == modules[slots[i].index as int];
    assert forall|i: int| 0 <= i < slots.len() implies (#[trigger] slots[i]).key
        == out[i].base by {
        crate::sort::lemma_sorted_same_elements(keys, slots, slots[i]);
        assert(slots.contains(slots[i]));
        let j = keys.index_of(slots[i]);
        assert(keys[j] == slots[i]);
    }
    assert forall|i: int, j: int| 0 <= i <= j < out.len() implies (#[trigger] out[i]).base <= (
    #[trigger] out[j]).base by {
        if i < j {
            assert(slots[i].key <= slots[j].key);
        }
    }
    assert forall|i: int| 0 <= i < modules.len() implies out.contains(#[trigger] modules[i]) by {
        assert(keys.contains(keys[i]));
        crate::sort::lemma_sorted_same_elements(keys, slots, keys[i]);
        let j = slots.index_of(keys[i]);
        assert(slots[j].index == i);
        assert(out[j] == modules[i]);
    }
}

/// The comment of an instruction names what it leads to: the symbol there before all
/// else, or the text there. Where nothing is known of a place in memory, its address is
/// given.
pub proof fn comment_names_the_target(
    ins: Insn,
    symbol: Seq<char>,
    previews: Option<Seq<Preview>>,
)
    ensures
        ins.target is Some || ins.mem_target is Some ==> comment_of(ins, Some(symbol), previews)
            == Some(symbol),
        ins.target is None && ins.mem_target is None ==> comment_of(ins, Some(symbol), previews) is None,
        ins.target matches Some(t) ==> (previews matches Some(p) ==> (preview_of(p, t) matches Some(
            x,
        ) ==> comment_of(ins, None, previews) == Some("\""@ + x + "\""@))),
        ins.target is None ==> (ins.mem_target matches Some(m) ==> comment_of(ins, None, None)
            == Some("["@ + prefixed_hex(m as nat) + "]"@)),
{
}

} // verus!

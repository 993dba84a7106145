//! The rows below virtual tables and functions, which are read from the target.
use vstd::prelude::*;

use crate::class_view::{
    find_live, is_live_container, is_live_tag, live_index, DisasmRow, LiveEntry, LiveNode,
    NodeSnapshot, RowView, VtableMethodRow,
};
use crate::disassembly::Insn;
use crate::modules_panel::{has_name, has_name_exec};
use crate::text::{hex_bytes, hex_bytes_exec, same_str};

verus! {

/// How many slots of a virtual table are looked at.
pub const MAX_VTABLE_METHODS: usize = 64;

/// How many instructions of a function are shown inline.
pub const MAX_INLINE_INSNS: usize = 32;

/// How many bytes of a function are decoded for that.
pub const MAX_INLINE_BYTES: usize = 512;

/// Some row has that place in the tree.
pub open spec fn has_row(rows: Seq<NodeSnapshot>, id: Seq<char>) -> bool {
    exists|i: int| 0 <= i < rows.len() && (#[trigger] rows[i]).id_path@ == id
}

fn has_row_exec(rows: &Vec<NodeSnapshot>, id: &str) -> (r: bool)
    ensures
        r == has_row(rows@, id@),
{
    let mut i: usize = 0;
    while i < rows.len()
        invariant
            i <= rows@.len(),
            forall|j: int| 0 <= j < i ==> (#[trigger] rows@[j]).id_path@ != id@,
        decreases rows@.len() - i,
    {
        if same_str(rows[i].id_path.as_str(), id) {
            assert(rows@[i as int].id_path@ == id@);
            return true;
        }
        i += 1;
    }
    false
}

/// Live rows are kept as long as the row above them is there and expanded.
pub open spec fn stays(node: LiveNode, rows: Seq<NodeSnapshot>, collapsed: Seq<String>) -> bool {
    has_row(rows, node.id@) && !has_name(collapsed, node.id@)
}

/// The live rows that are kept.
pub open spec fn pruned(
    cache: Seq<LiveNode>,
    rows: Seq<NodeSnapshot>,
    collapsed: Seq<String>,
) -> Seq<LiveNode>
    decreases cache.len(),
{
    if cache.len() == 0 {
        Seq::empty()
    } else {
        let rest = pruned(cache.subrange(1, cache.len() as int), rows, collapsed);
        if stays(cache[0], rows, collapsed) {
            seq![cache[0]] + rest
        } else {
            rest
        }
    }
}

/// Drops the live rows of rows that are gone or collapsed.
pub fn prune_live(
    cache: Vec<LiveNode>,
    rows: &Vec<NodeSnapshot>,
    collapsed: &Vec<String>,
) -> (out: Vec<LiveNode>)
    ensures
        out@ == pruned(cache@, rows@, collapsed@),
{
    let ghost all = cache@;
    let mut rest = cache;
    let mut out: Vec<LiveNode> = Vec::new();
    assert(out@ + pruned(rest@, rows@, collapsed@) =~= pruned(all, rows@, collapsed@));
    while rest.len() > 0
        invariant
            out@ + pruned(rest@, rows@, collapsed@) == pruned(all, rows@, collapsed@),
        decreases rest@.len(),
    {
        let ghost left = rest@;
        let ghost before = out@;
        let node = rest.remove(0);
        assert(rest@ =~= left.subrange(1, left.len() as int));
        if has_row_exec(rows, node.id.as_str()) && !has_name_exec(collapsed, node.id.as_str()) {
            out.push(node);
        }
        assert(out@ + pruned(rest@, rows@, collapsed@) =~= before + pruned(
            left,
            rows@,
            collapsed@,
        ));
    }
    assert(out@ + Seq::<LiveNode>::empty() =~= out@);
    out
}

/// The row shows live rows that are not known yet.
pub open spec fn wants_live(row: RowView, collapsed: Seq<String>, cache: Seq<LiveNode>) -> bool {
    is_live_tag(row.type_tag) && !has_name(collapsed, row.id_path) && live_index(
        cache,
        row.id_path,
    ) is None
}

fn wants_live_exec(row: &NodeSnapshot, collapsed: &Vec<String>, cache: &Vec<LiveNode>) -> (r: bool)
    ensures
        r == wants_live(row@, collapsed@, cache@),
{
    is_live_container(row.type_tag.as_str()) && !has_name_exec(collapsed, row.id_path.as_str())
        && find_live(cache, row.id_path.as_str()).is_none()
}

/// The live rows once every row that wants some is told that nothing is
/// attached.
pub open spec fn unattached(
    cache: Seq<LiveNode>,
    rows: Seq<NodeSnapshot>,
    collapsed: Seq<String>,
) -> Seq<LiveNode>
    decreases rows.len(),
{
    if rows.len() == 0 {
        cache
    } else {
        let before = unattached(cache, rows.drop_last(), collapsed);
        if wants_live(rows.last()@, collapsed, before) {
            before.push(LiveNode { id: rows.last().id_path, entry: LiveEntry::NotAttached })
        } else {
            before
        }
    }
}

/// Nothing is attached: each row that wants live rows says so.
pub fn mark_unattached(
    cache: &mut Vec<LiveNode>,
    rows: &Vec<NodeSnapshot>,
    collapsed: &Vec<String>,
)
    ensures
        final(cache)@ == unattached(old(cache)@, rows@, collapsed@),
{
    let mut i: usize = 0;
    while i < rows.len()
        invariant
            i <= rows@.len(),
            cache@ == unattached(old(cache)@, rows@.subrange(0, i as int), collapsed@),
        decreases rows@.len() - i,
    {
        assert(rows@.subrange(0, i + 1).drop_last() =~= rows@.subrange(0, i as int));
        if wants_live_exec(&rows[i], collapsed, cache) {
            cache.push(LiveNode { id: rows[i].id_path.clone(), entry: LiveEntry::NotAttached });
        }
        i += 1;
    }
    assert(rows@.subrange(0, rows@.len() as int) =~= rows@);
}

/// What a row shows live rows of.
#[derive(Clone, Copy, Debug, PartialEq, Eq, Structural)]
pub enum LiveKind {
    /// The slots of the table that the field points at.
    Vtable,
    /// The code at the field.
    Function,
    /// The code that the field points at.
    FunctionPtr,
}

/// The kind of live rows of a type.
pub open spec fn live_kind(tag: Seq<char>) -> LiveKind {
    if tag == "VTable"@ {
        LiveKind::Vtable
    } else if tag == "Function"@ {
        LiveKind::Function
    } else {
        LiveKind::FunctionPtr
    }
}

/// A row whose live rows are to be read.
#[derive(Debug)]
pub struct LiveTarget {
    pub id: String,
    pub kind: LiveKind,
    pub address: usize,
}

/// The target is that of the row number `i`.
pub open spec fn is_target_of(t: LiveTarget, rows: Seq<NodeSnapshot>, i: int) -> bool {
    &&& 0 <= i < rows.len()
    &&& t.id@ == rows[i].id_path@
    &&& t.kind == live_kind(rows[i].type_tag@)
    &&& t.address == rows[i].address
}

/// The numbers of the rows whose live rows are to be read.
pub open spec fn live_wanted(
    rows: Seq<NodeSnapshot>,
    collapsed: Seq<String>,
    cache: Seq<LiveNode>,
) -> Seq<int>
    decreases rows.len(),
{
    if rows.len() == 0 {
        Seq::empty()
    } else {
        let before = live_wanted(rows.drop_last(), collapsed, cache);
        if wants_live(rows.last()@, collapsed, cache) {
            before.push(rows.len() - 1)
        } else {
            before
        }
    }
}

/// The targets are those of the rows with the given numbers.
pub open spec fn targets_of(
    out: Seq<LiveTarget>,
    which: Seq<int>,
    rows: Seq<NodeSnapshot>,
) -> bool {
    &&& out.len() == which.len()
    &&& forall|k: int|
        0 <= k < out.len() ==> is_target_of(#[trigger] out[k], rows, which[k])
}

/// The rows whose live rows are to be read, in order.
pub fn live_targets(
    cache: &Vec<LiveNode>,
    rows: &Vec<NodeSnapshot>,
    collapsed: &Vec<String>,
) -> (out: Vec<LiveTarget>)
    ensures
        targets_of(out@, live_wanted(rows@, collapsed@, cache@), rows@),
{
    let mut out: Vec<LiveTarget> = Vec::new();
    let mut i: usize = 0;
    while i < rows.len()
        invariant
            i <= rows@.len(),
            targets_of(
                out@,
                live_wanted(rows@.subrange(0, i as int), collapsed@, cache@),
                rows@,
            ),
        decreases rows@.len() - i,
    {
        assert(rows@.subrange(0, i + 1).drop_last() =~= rows@.subrange(0, i as int));
        let ghost before = out@;
        let ghost which = live_wanted(rows@.subrange(0, i as int), collapsed@, cache@);
        let row = &rows[i];
        if wants_live_exec(row, collapsed, cache) {
            let kind = if same_str(row.type_tag.as_str(), "VTable") {
                LiveKind::Vtable
            } else if same_str(row.type_tag.as_str(), "Function") {
                LiveKind::Function
            } else {
                LiveKind::FunctionPtr
            };
            out.push(LiveTarget { id: row.id_path.clone(), kind, address: row.address });
            assert(is_target_of(out@[before.len() as int], rows@, i as int));
        }
        proof {
            let now = live_wanted(rows@.subrange(0, i + 1), collapsed@, cache@);
            assert(rows@.subrange(0, i + 1).last() == rows@[i as int]);
            assert forall|k: int| 0 <= k < out@.len() implies is_target_of(
                #[trigger] out@[k],
                rows@,
                now[k],
            ) by {
                if k < before.len() {
                    assert(is_target_of(before[k], rows@, which[k]));
                    assert(now[k] == which[k]);
                }
            }
        }
        i += 1;
    }
    assert(rows@.subrange(0, rows@.len() as int) =~= rows@);
    out
}

/// The live rows once those of `id` are known; what is known already stays.
pub open spec fn with_live(cache: Seq<LiveNode>, node: LiveNode) -> Seq<LiveNode> {
    if live_index(cache, node.id@) is None {
        cache.push(node)
    } else {
        cache
    }
}

pub fn store_live(cache: &mut Vec<LiveNode>, node: LiveNode)
    ensures
        final(cache)@ == with_live(old(cache)@, node),
{
    if find_live(cache, node.id.as_str()).is_none() {
        cache.push(node);
    }
}

/// A virtual table that is read slot by slot.
#[derive(Debug)]
pub struct VtableWalk {
    /// Where the table lies.
    pub table: u64,
    pub methods: Vec<VtableMethodRow>,
    /// Whether the table has ended.
    pub ended: bool,
}

/// A slot of the table, and what it holds.
pub open spec fn is_slot(m: VtableMethodRow, slot: int, value: u64, symbol: Option<String>) -> bool {
    m.slot == slot && m.fn_ptr == value && m.symbol == symbol
}

impl VtableWalk {
    /// The methods have the slots from 0 on, none is null, and there are not more
    /// than are looked at.
    pub open spec fn wf(&self) -> bool {
        &&& self.methods@.len() <= MAX_VTABLE_METHODS
        &&& forall|i: int|
            0 <= i < self.methods@.len() ==> (#[trigger] self.methods@[i]).slot == i
                && self.methods@[i].fn_ptr != 0
    }

    /// The address of the next slot, as long as the table goes on.
    pub open spec fn next(&self) -> Option<int> {
        let at = self.table as usize + 8 * self.methods@.len();
        if self.ended || self.methods@.len() >= MAX_VTABLE_METHODS || at > usize::MAX {
            None
        } else {
            Some(at)
        }
    }

    /// Starts with the pointer to the table, where it could be read. A null
    /// pointer leads to no table.
    pub fn begin(pointer: Option<u64>) -> (w: Self)
        ensures
            w.wf(),
            w.methods@.len() == 0,
            match pointer {
                Some(p) => w.table == p && w.ended == (p == 0),
                None => w.ended,
            },
    {
        match pointer {
            Some(p) => VtableWalk { table: p, methods: Vec::new(), ended: p == 0 },
            None => VtableWalk { table: 0, methods: Vec::new(), ended: true },
        }
    }

    /// Where the next slot is to be read; `None` once the table has ended.
    pub fn next_slot(&self) -> (r: Option<usize>)
        requires
            self.wf(),
        ensures
            match r {
                Some(a) => self.next() == Some(a as int),
                None => self.next() is None,
            },
    {
        if self.ended || self.methods.len() >= MAX_VTABLE_METHODS {
            return None;
        }
        let table: usize = self.table as usize;
        table.checked_add(8 * self.methods.len())
    }

    /// What the next slot holds, whether that points at code, and its symbol. A
    /// slot that cannot be read, is null or points at no code ends the table.
    pub fn take_slot(&mut self, value: Option<u64>, code: bool, symbol: Option<String>)
        requires
            old(self).wf(),
            old(self).next() is Some,
        ensures
            final(self).wf(),
            final(self).table == old(self).table,
            if value is Some && value->0 != 0 && code {
                &&& !final(self).ended
                &&& final(self).methods@.len() == old(self).methods@.len() + 1
                &&& final(self).methods@.drop_last() == old(self).methods@
                &&& is_slot(
                    final(self).methods@.last(),
                    old(self).methods@.len() as int,
                    value->0,
                    symbol,
                )
            } else {
                final(self).ended && final(self).methods == old(self).methods
            },
    {
        if let Some(v) = value {
            if v != 0 && code {
                let slot: usize = self.methods.len();
                self.methods.push(VtableMethodRow { slot, fn_ptr: v, symbol });
                assert(self.methods@.drop_last() =~= old(self).methods@);
                return ;
            }
        }
        self.ended = true;
    }
}

/// Where the code of a row lies, given the pointer that was read at it; `None`
/// where there is none.
pub open spec fn code_of(kind: LiveKind, address: usize, pointer: Option<u64>) -> Option<u64> {
    let at = match kind {
        LiveKind::Function => address as u64,
        _ => match pointer {
            Some(p) => p,
            None => 0,
        },
    };
    if at == 0 {
        None
    } else {
        Some(at)
    }
}

pub fn code_address(kind: LiveKind, address: usize, pointer: Option<u64>) -> (r: Option<u64>)
    ensures
        r == code_of(kind, address, pointer),
{
    let at: u64 = match kind {
        LiveKind::Function => address as u64,
        _ => match pointer {
            Some(p) => p,
            None => 0,
        },
    };
    if at == 0 {
        None
    } else {
        Some(at)
    }
}

/// The row shows the instruction.
pub open spec fn shows_insn(row: DisasmRow, ins: Insn) -> bool {
    &&& row.address == ins.address
    &&& row.bytes_hex@ == hex_bytes(ins.data@, " "@, true)
    &&& row.instruction == ins.instruction
    &&& row.target == ins.target
}

/// The inline rows of a function: its first instructions.
pub fn inline_rows(insns: &Vec<Insn>) -> (rows: Vec<DisasmRow>)
    ensures
        rows@.len() == if insns@.len() < MAX_INLINE_INSNS {
            insns@.len()
        } else {
            MAX_INLINE_INSNS as nat
        },
        forall|i: int| 0 <= i < rows@.len() ==> shows_insn(#[trigger] rows@[i], insns@[i]),
{
    let mut rows: Vec<DisasmRow> = Vec::new();
    let mut i: usize = 0;
    while i < insns.len() && i < MAX_INLINE_INSNS
        invariant
            i <= insns@.len(),
            i <= MAX_INLINE_INSNS,
            rows@.len() == i,
            forall|k: int| 0 <= k < i ==> shows_insn(#[trigger] rows@[k], insns@[k]),
        decreases insns@.len() - i,
    {
        let ins = &insns[i];
        rows.push(
            DisasmRow {
                address: ins.address,
                bytes_hex: hex_bytes_exec(ins.data.as_slice(), " ", true),
                instruction: ins.instruction.clone(),
                target: ins.target,
            },
        );
        i += 1;
    }
    rows
}

proof fn lemma_pruned_stays(
    cache: Seq<LiveNode>,
    rows: Seq<NodeSnapshot>,
    collapsed: Seq<String>,
    i: int,
)
    requires
        0 <= i < pruned(cache, rows, collapsed).len(),
    ensures
        stays(pruned(cache, rows, collapsed)[i], rows, collapsed),
    decreases cache.len(),
{
    let rest = cache.subrange(1, cache.len() as int);
    if stays(cache[0], rows, collapsed) {
        if i > 0 {
            lemma_pruned_stays(rest, rows, collapsed, i - 1);
        }
    } else {
        lemma_pruned_stays(rest, rows, collapsed, i);
    }
}

/// No live rows outlive the row above them, or its being expanded.
pub proof fn live_rows_belong_to_expanded_rows(
    cache: Seq<LiveNode>,
    rows: Seq<NodeSnapshot>,
    collapsed: Seq<String>,
)
    ensures
        forall|i: int|
            0 <= i < pruned(cache, rows, collapsed).len() ==> stays(
                #[trigger] pruned(cache, rows, collapsed)[i],
                rows,
                collapsed,
            ),
{
    assert forall|i: int| 0 <= i < pruned(cache, rows, collapsed).len() implies stays(
        #[trigger] pruned(cache, rows, collapsed)[i],
        rows,
        collapsed,
    ) by {
        lemma_pruned_stays(cache, rows, collapsed, i);
    }
}

/// A row is asked for while it is open, shows live data and has none yet, and no other
/// row is.
pub proof fn open_live_rows_are_asked_for(
    rows: Seq<NodeSnapshot>,
    collapsed: Seq<String>,
    cache: Seq<LiveNode>,
    i: int,
)
    ensures
        live_wanted(rows, collapsed, cache).contains(i) <==> 0 <= i < rows.len() && is_live_tag(
            rows[i].type_tag@,
        ) && !has_name(collapsed, rows[i].id_path@) && live_index(cache, rows[i].id_path@) is None,
    decreases rows.len(),
{
    if rows.len() > 0 {
        let rest = rows.drop_last();
        let before = live_wanted(rest, collapsed, cache);
        let all = live_wanted(rows, collapsed, cache);
        open_live_rows_are_asked_for(rest, collapsed, cache, i);
        if before.contains(i) {
            let k = before.index_of(i);
            assert(all[k] == i);
        }
        if i == rows.len() - 1 && wants_live(rows.last()@, collapsed, cache) {
            assert(all[before.len() as int] == i);
        }
        if all.contains(i) {
            let k = all.index_of(i);
            if k < before.len() {
                assert(before[k] == i);
            }
        }
    }
}

/// Live data that was stored is found under its row, and what other rows hold stays as
/// it was.
pub proof fn stored_data_is_found(cache: Seq<LiveNode>, node: LiveNode, other: Seq<char>)
    ensures
        live_index(with_live(cache, node), node.id@) is Some,
        live_index(cache, node.id@) is None ==> live_index(with_live(cache, node), node.id@) == Some(
            cache.len() as int,
        ) && with_live(cache, node).last() == node,
        other != node.id@ ==> live_index(with_live(cache, node), other) == live_index(cache, other),
        live_index(cache, node.id@) is Some ==> with_live(cache, node) == cache,
{
    assert(cache.push(node).drop_last() =~= cache);
}

/// A row that is neither gone nor closed keeps its live data.
pub proof fn open_row_keeps_its_data(
    cache: Seq<LiveNode>,
    rows: Seq<NodeSnapshot>,
    collapsed: Seq<String>,
    n: LiveNode,
)
    requires
        cache.contains(n),
        has_row(rows, n.id@),
        !has_name(collapsed, n.id@),
    ensures
        pruned(cache, rows, collapsed).contains(n),
    decreases cache.len(),
{
    let tail = cache.subrange(1, cache.len() as int);
    let rest = pruned(tail, rows, collapsed);
    let all = pruned(cache, rows, collapsed);
    let i = cache.index_of(n);
    if i == 0 {
        assert(all[0] == n);
    } else {
        assert(tail[i - 1] == n);
        open_row_keeps_its_data(tail, rows, collapsed, n);
        let k = rest.index_of(n);
        if stays(cache[0], rows, collapsed) {
            assert(all[k + 1] == n);
        }
    }
}

/// The slots of a virtual table lie eight bytes apart, the first at the table.
pub proof fn slots_lie_eight_bytes_apart(walk: VtableWalk, then: VtableWalk)
    requires
        walk.next() is Some,
        then.next() is Some,
        then.table == walk.table,
        then.methods@.len() == walk.methods@.len() + 1,
        walk.table <= usize::MAX,
    ensures
        walk.methods@.len() == 0 ==> walk.next() == Some(walk.table as int),
        then.next()->0 == walk.next()->0 + 8,
{
}

/// Code is shown from where the row leads: a function lies at the row itself, all else
/// behind the pointer that the row holds.
pub proof fn code_lies_where_the_row_leads(address: usize, p: u64)
    requires
        address > 0,
        p > 0,
    ensures
        code_of(LiveKind::Function, address, Some(p)) == Some(address as u64),
        code_of(LiveKind::FunctionPtr, address, Some(p)) == Some(p),
        code_of(LiveKind::FunctionPtr, address, None) is None,
{
}

/// Without a process every open row that would show live data says so, and what rows
/// hold already stays.
pub proof fn open_rows_say_that_nothing_is_attached(
    cache: Seq<LiveNode>,
    rows: Seq<NodeSnapshot>,
    collapsed: Seq<String>,
    i: int,
)
    requires
        0 <= i < rows.len(),
        is_live_tag(rows[i].type_tag@),
        !has_name(collapsed, rows[i].id_path@),
    ensures
        live_index(unattached(cache, rows, collapsed), rows[i].id_path@) is Some,
    decreases rows.len(),
{
    let id = rows[i].id_path@;
    let before = unattached(cache, rows.drop_last(), collapsed);
    let last = LiveNode { id: rows.last().id_path, entry: LiveEntry::NotAttached };
    assert(before.push(last).drop_last() =~= before);
    if i < rows.len() - 1 {
        open_rows_say_that_nothing_is_attached(cache, rows.drop_last(), collapsed, i);
    }
}

/// What is behind a row is read as the row says: a table for a virtual table, code at
/// the row for a function and behind the pointer for a pointer to one.
pub proof fn row_is_read_as_its_type_says(t: LiveTarget, rows: Seq<NodeSnapshot>, i: int)
    requires
        is_target_of(t, rows, i),
        is_live_tag(rows[i].type_tag@),
    ensures
        t.kind == LiveKind::Vtable <==> rows[i].type_tag@ == "VTable"@,
        t.kind == LiveKind::Function <==> rows[i].type_tag@ == "Function"@,
        t.kind == LiveKind::FunctionPtr <==> rows[i].type_tag@ == "FunctionPtr"@,
        t.address == rows[i].address,
        t.id@ == rows[i].id_path@,
{
    reveal_strlit("VTable");
    reveal_strlit("Function");
    reveal_strlit("FunctionPtr");
    assert("VTable"@.len() != "Function"@.len());
    assert("VTable"@.len() != "FunctionPtr"@.len());
    assert("Function"@.len() != "FunctionPtr"@.len());
}

} // verus!

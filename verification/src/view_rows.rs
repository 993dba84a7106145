//! Which rows the class view shows, and which memory the cells of a row stand for.
use vstd::prelude::*;

use crate::bytes::{le_bytes, lemma_le_value_bound, lemma_le_write_back, lemma_pow256_small};
use crate::class_actions::{component_place, matrix_layout};
use crate::class_view::{
    augmented, float_components, is_live_tag, lemma_live_index, live_index, live_rows, matrix_rows,
    under_collapsed, visible, LiveEntry, LiveNode, NodeSnapshot, RowView, ViewRow,
};
use crate::model::{FloatWidth, Shape};
use crate::modules_panel::has_name;

verus! {

/// The row `id` stands somewhere below the row `above`.
pub open spec fn lies_below(id: Seq<char>, above: Seq<char>) -> bool {
    id.len() > above.len() && id.subrange(0, above.len() as int) == above && id[above.len() as int]
        == '.'
}

/// Just those rows are listed that stand below no collapsed row, in their order.
pub proof fn uncollapsed_rows_are_listed(rows: Seq<NodeSnapshot>, collapsed: Seq<String>)
    requires
        rows.len() <= usize::MAX,
    ensures
        ({
            let out = visible(rows, collapsed);
            &&& forall|k: int, l: int| 0 <= k < l < out.len() ==> #[trigger] out[k] < #[trigger] out[l]
            &&& forall|i: usize| #[trigger]
                out.contains(i) <==> i < rows.len() && forall|c: int|
                    0 <= c < collapsed.len() ==> !lies_below(
                        rows[i as int].id_path@,
                        (#[trigger] collapsed[c])@,
                    )
        }),
    decreases rows.len(),
{
    let out = visible(rows, collapsed);
    if rows.len() > 0 {
        let rest = rows.drop_last();
        let before = visible(rest, collapsed);
        uncollapsed_rows_are_listed(rest, collapsed);
        let last = (rows.len() - 1) as usize;
        lemma_under(rows.last().id_path@, collapsed);
        assert forall|k: int, l: int| 0 <= k < l < out.len() implies #[trigger] out[k]
            < #[trigger] out[l] by {
            if l == before.len() {
                assert(before.contains(before[k]));
            }
        }
        assert forall|i: usize| #[trigger] out.contains(i) <==> i < rows.len() && forall|c: int|
            0 <= c < collapsed.len() ==> !lies_below(
                rows[i as int].id_path@,
                (#[trigger] collapsed[c])@,
            ) by {
            if i < rest.len() {
                assert(rest[i as int] == rows[i as int]);
                if before.contains(i) {
                    let k = before.index_of(i);
                    assert(out[k] == i);
                }
                if out.contains(i) {
                    let k = out.index_of(i);
                    assert(before[k] == i);
                }
            } else if i == last {
                if !under_collapsed(rows.last().id_path@, collapsed) {
                    assert(out[before.len() as int] == i);
                } else if out.contains(i) {
                    assert(before.contains(i));
                }
            } else if out.contains(i) {
                let k = out.index_of(i);
                assert(before.contains(before[k]));
            }
        }
    }
}

proof fn lemma_under(id: Seq<char>, collapsed: Seq<String>)
    ensures
        under_collapsed(id, collapsed) <==> exists|c: int|
            0 <= c < collapsed.len() && lies_below(id, (#[trigger] collapsed[c])@),
{
    if under_collapsed(id, collapsed) {
        let k = choose|k: int|
            0 <= k < id.len() && #[trigger] id[k] == '.' && has_name(
                collapsed,
                id.subrange(0, k),
            );
        let c = choose|c: int|
            0 <= c < collapsed.len() && (#[trigger] collapsed[c])@ == id.subrange(0, k);
        assert(lies_below(id, collapsed[c]@));
    }
    if exists|c: int| 0 <= c < collapsed.len() && lies_below(id, (#[trigger] collapsed[c])@) {
        let c = choose|c: int|
            0 <= c < collapsed.len() && lies_below(id, (#[trigger] collapsed[c])@);
        let k = collapsed[c]@.len() as int;
        assert(id[k] == '.' && has_name(collapsed, id.subrange(0, k)));
    }
}

/// The row is one that shows more below it, and is not collapsed.
pub open spec fn is_open(row: RowView, collapsed: Seq<String>) -> bool {
    forall|c: int| 0 <= c < collapsed.len() ==> (#[trigger] collapsed[c])@ != row.id_path
}

/// The view row is one that the row number `i` of the tree brings: itself, the rows of
/// an open matrix whose cells were read, and what was read behind an open virtual
/// table or function.
pub open spec fn brought_by(
    v: ViewRow,
    i: usize,
    row: RowView,
    collapsed: Seq<String>,
    cache: Seq<LiveNode>,
) -> bool {
    match v {
        ViewRow::Snap(j) => j == i,
        ViewRow::MatrixRow { snap_idx, row: r } => snap_idx == i && is_open(row, collapsed) && (
        row.shape matches Shape::Matrix { rows, cols, .. } && r < rows && row.components.len()
            == rows * cols),
        ViewRow::VtableMethod { live, index, depth } => is_live_tag(row.type_tag) && is_open(
            row,
            collapsed,
        ) && depth == row.depth && live < cache.len() && cache[live as int].id@ == row.id_path && (
        cache[live as int].entry matches LiveEntry::Vtable(m) && index < m@.len()),
        ViewRow::DisasmInsn { live, index, depth } => is_live_tag(row.type_tag) && is_open(
            row,
            collapsed,
        ) && depth == row.depth && live < cache.len() && cache[live as int].id@ == row.id_path && (
        cache[live as int].entry matches LiveEntry::Disasm(d) && index < d@.len()),
        ViewRow::NotAttached { depth } => is_live_tag(row.type_tag) && is_open(row, collapsed)
            && depth == row.depth && exists|l: int|
            0 <= l < cache.len() && (#[trigger] cache[l]).id@ == row.id_path && cache[l].entry
                == LiveEntry::NotAttached,
    }
}

/// No two live entries are of the same row.
pub open spec fn one_entry_each(cache: Seq<LiveNode>) -> bool {
    forall|k: int, l: int|
        0 <= k < l < cache.len() ==> (#[trigger] cache[k]).id@ != (#[trigger] cache[l]).id@
}

proof fn lemma_brought(
    v: ViewRow,
    i: usize,
    row: RowView,
    collapsed: Seq<String>,
    cache: Seq<LiveNode>,
)
    requires
        one_entry_each(cache),
        cache.len() <= usize::MAX,
        forall|l: int|
            0 <= l < cache.len() ==> match (#[trigger] cache[l]).entry {
                LiveEntry::Vtable(m) => m@.len() <= usize::MAX,
                LiveEntry::Disasm(d) => d@.len() <= usize::MAX,
                LiveEntry::NotAttached => true,
            },
    ensures
        (seq![ViewRow::Snap(i)] + matrix_rows(row, i, collapsed) + live_rows(
            row,
            collapsed,
            cache,
        )).contains(v) <==> brought_by(v, i, row, collapsed, cache),
{
    let head = seq![ViewRow::Snap(i)];
    let mid = matrix_rows(row, i, collapsed);
    let tail = live_rows(row, collapsed, cache);
    let all = head + mid + tail;
    lemma_live_index(cache, row.id_path);
    lemma_open(row, collapsed);
    if all.contains(v) {
        let k = all.index_of(v);
        if k == 0 {
            assert(v == ViewRow::Snap(i));
        } else if k < 1 + mid.len() {
            assert(mid[k - 1] == v);
        } else {
            assert(tail[k - 1 - mid.len()] == v);
        }
    }
    if brought_by(v, i, row, collapsed, cache) {
        match v {
            ViewRow::Snap(_) => {
                assert(all[0] == v);
            },
            ViewRow::MatrixRow { row: r, .. } => {
                assert(mid[r as int] == v);
                assert(all[1 + r] == v);
            },
            ViewRow::VtableMethod { live, index, .. } => {
                assert(live_index(cache, row.id_path) == Some(live as int));
                assert(tail[index as int] == v);
                assert(all[1 + mid.len() + index] == v);
            },
            ViewRow::DisasmInsn { live, index, .. } => {
                assert(live_index(cache, row.id_path) == Some(live as int));
                assert(tail[index as int] == v);
                assert(all[1 + mid.len() + index] == v);
            },
            ViewRow::NotAttached { .. } => {
                let l = choose|l: int|
                    0 <= l < cache.len() && (#[trigger] cache[l]).id@ == row.id_path
                        && cache[l].entry == LiveEntry::NotAttached;
                assert(live_index(cache, row.id_path) == Some(l));
                assert(tail[0] == v);
                assert(all[mid.len() as int + 1] == v);
            },
        }
    }
}

proof fn lemma_open(row: RowView, collapsed: Seq<String>)
    ensures
        is_open(row, collapsed) <==> !has_name(collapsed, row.id_path),
{
    if has_name(collapsed, row.id_path) {
        let c = choose|c: int|
            0 <= c < collapsed.len() && (#[trigger] collapsed[c])@ == row.id_path;
        assert(!is_open(row, collapsed));
    }
}

/// The view shows just what its rows bring: each listed row itself, and below it the
/// rows of an open matrix and what was read behind an open virtual table or function.
pub proof fn view_shows_what_rows_bring(
    rows: Seq<NodeSnapshot>,
    shown: Seq<usize>,
    collapsed: Seq<String>,
    cache: Seq<LiveNode>,
    v: ViewRow,
)
    requires
        one_entry_each(cache),
        cache.len() <= usize::MAX,
        forall|l: int|
            0 <= l < cache.len() ==> match (#[trigger] cache[l]).entry {
                LiveEntry::Vtable(m) => m@.len() <= usize::MAX,
                LiveEntry::Disasm(d) => d@.len() <= usize::MAX,
                LiveEntry::NotAttached => true,
            },
    ensures
        augmented(rows, shown, collapsed, cache).contains(v) <==> exists|k: int|
            0 <= k < shown.len() && brought_by(
                v,
                #[trigger] shown[k],
                rows[shown[k] as int]@,
                collapsed,
                cache,
            ),
    decreases shown.len(),
{
    let all = augmented(rows, shown, collapsed, cache);
    if shown.len() == 0 {
        assert(!all.contains(v));
    } else {
        let rest = shown.drop_last();
        let i = shown.last();
        let row = rows[i as int]@;
        let before = augmented(rows, rest, collapsed, cache);
        let more = seq![ViewRow::Snap(i)] + matrix_rows(row, i, collapsed) + live_rows(
            row,
            collapsed,
            cache,
        );
        view_shows_what_rows_bring(rows, rest, collapsed, cache, v);
        lemma_brought(v, i, row, collapsed, cache);
        if all.contains(v) {
            let k = all.index_of(v);
            if k < before.len() {
                assert(before[k] == v);
                assert(before.contains(v));
                let q = choose|q: int|
                    0 <= q < rest.len() && brought_by(
                        v,
                        #[trigger] rest[q],
                        rows[rest[q] as int]@,
                        collapsed,
                        cache,
                    );
                assert(shown[q] == rest[q]);
            } else {
                assert(more[k - before.len()] == v);
                assert(shown[shown.len() - 1] == i);
            }
        }
        if exists|k: int|
            0 <= k < shown.len() && brought_by(
                v,
                #[trigger] shown[k],
                rows[shown[k] as int]@,
                collapsed,
                cache,
            ) {
            let k = choose|k: int|
                0 <= k < shown.len() && brought_by(
                    v,
                    #[trigger] shown[k],
                    rows[shown[k] as int]@,
                    collapsed,
                    cache,
                );
            if k < rest.len() {
                assert(rest[k] == shown[k]);
                assert(before.contains(v));
                let q = before.index_of(v);
                assert(all[q] == v);
            } else {
                let q = more.index_of(v);
                assert(all[before.len() + q] == v);
            }
        }
    }
}

/// A component of a vector or matrix is shown from the memory that an edit of it
/// writes: its bits are those that lie at its place, in its width.
pub proof fn component_is_shown_from_its_place(
    shape: Shape,
    buf: Seq<u8>,
    base: usize,
    offset: usize,
    i: usize,
    width: FloatWidth,
    count: nat,
)
    requires
        match shape {
            Shape::Scalar => false,
            Shape::Vector { count: n, width: w } => w == width && count == n,
            Shape::Matrix { rows, cols, width: w } => w == width && count == rows * cols,
        },
        i < count,
        offset + count * (if width == FloatWidth::F32 {
            4nat
        } else {
            8nat
        }) <= buf.len(),
        base + buf.len() <= usize::MAX,
    ensures
        ({
            let size = if width == FloatWidth::F32 {
                4nat
            } else {
                8nat
            };
            let parts = float_components(shape, buf, offset);
            let at = component_place((base + offset) as usize, i, width) - base;
            &&& parts.len() == count
            &&& at == offset + i * size
            &&& le_bytes(parts[i as int] as int, size) == buf.subrange(at, at + size)
        }),
{
    let size: nat = if width == FloatWidth::F32 {
        4
    } else {
        8
    };
    assert(i * size + size <= count * size) by (nonlinear_arith)
        requires
            i + 1 <= count,
    ;
    assert(0 <= i * size) by (nonlinear_arith);
    lemma_place((base + offset) as usize, i, width);
    let b = buf.subrange(offset + i * size, offset + i * size + size);
    lemma_pow256_small();
    lemma_le_value_bound(b);
    lemma_le_write_back(b);
}

proof fn lemma_place(address: usize, i: usize, width: FloatWidth)
    requires
        address + i * width.bytes() <= usize::MAX,
    ensures
        component_place(address, i, width) == address + i * width.bytes(),
{
    vstd::arithmetic::div_mod::lemma_small_mod(
        (i * width.bytes()) as nat,
        (usize::MAX + 1) as nat,
    );
}

/// The rows of a matrix lie one behind the other from the matrix on, each with the
/// components of its number.
pub proof fn matrix_rows_lie_behind_each_other(row: RowView, r: usize)
    requires
        row.shape matches Shape::Matrix { rows, .. } && r < rows,
        row.address + 0x10_0000 <= usize::MAX,
        row.offset + 0x10_0000 <= usize::MAX,
    ensures
        row.shape matches Shape::Matrix { rows, cols, width } && (matrix_layout(
            row,
            r,
        ) matches Some(l) && {
            &&& l.cols == cols
            &&& l.width == width
            &&& l.first == r * cols
            &&& l.address == component_place(row.address, l.first, width)
            &&& l.address - row.address == l.offset - row.offset
            &&& r == 0 ==> l.address == row.address && l.first == 0
            &&& matrix_layout(row, (r + 1) as usize) matches Some(n) && n.first == l.first + cols
                && n.address == l.address + cols * (if width == FloatWidth::F32 {
                4int
            } else {
                8int
            })
        }),
{
    if let Shape::Matrix { rows, cols, width } = row.shape {
        let size: int = if width == FloatWidth::F32 {
            4
        } else {
            8
        };
        let a = r * cols;
        assert(a <= 255 * 255 && (r + 1) * cols == a + cols && 0 <= a) by (nonlinear_arith)
            requires
                r <= 255,
                cols <= 255,
                a == r * cols,
        ;
        assert((a + cols) * size == a * size + cols * size) by (nonlinear_arith);
        vstd::arithmetic::div_mod::lemma_small_mod(a as nat, (usize::MAX + 1) as nat);
        vstd::arithmetic::div_mod::lemma_small_mod((a + cols) as nat, (usize::MAX + 1) as nat);
        lemma_place(row.address, a as usize, width);
        vstd::arithmetic::div_mod::lemma_small_mod((a * size) as nat, (usize::MAX + 1) as nat);
        vstd::arithmetic::div_mod::lemma_small_mod(
            ((a + cols) * size) as nat,
            (usize::MAX + 1) as nat,
        );
    }
}

} // verus!

//! How the rows of a class lie over memory: fields one behind the other, opened
//! classes inside the field that opens them.
use vstd::prelude::*;

use crate::class_view::{
    child_id, child_place, class_rows, deeper, deref_index, list_rows, node_row, node_rows,
    offset_at, opened_place, opens, top_place, DerefBuf, Place, RowView,
};
use crate::model::{
    class_index, fields_size, lemma_class_index, lemma_unvisited_drops, node_size, unvisited, ClassNode, Node,
};
use crate::modules_panel::has_name;
use crate::text::decimal;

verus! {

/// The row number `j` is that of the field behind the field of the row number `i`:
/// both stand at the same depth, with only what the first opens between them, and
/// their places in their class follow each other.
pub open spec fn next_field(rows: Seq<RowView>, i: int, j: int) -> bool {
    &&& 0 <= i < j < rows.len()
    &&& rows[j].depth == rows[i].depth
    &&& rows[j].depth < usize::MAX
    &&& forall|k: int| i < k < j ==> (#[trigger] rows[k]).depth > rows[i].depth
    &&& rows[i].local_path.len() > 0
    &&& rows[j].local_path.len() == rows[i].local_path.len()
    &&& rows[j].local_path.drop_last() == rows[i].local_path.drop_last()
    &&& rows[j].local_path.last() == rows[i].local_path.last() + 1
}

/// The row number `j` is the first of what the row number `i` opens, or of its
/// children.
pub open spec fn first_inside(rows: Seq<RowView>, i: int, j: int) -> bool {
    &&& 0 <= i < j < rows.len()
    &&& rows[j].depth == rows[i].depth + 1
    &&& rows[j].depth < usize::MAX
    &&& forall|k: int| i < k < j ==> (#[trigger] rows[k]).depth > rows[i].depth
    &&& rows[j].local_path.len() > 0
    &&& rows[j].local_path.last() == 0
}

/// One field lies right behind the other, in the same class and the same memory.
pub open spec fn follows(a: RowView, b: RowView) -> bool {
    &&& b.offset == a.offset.wrapping_add(a.memory_size)
    &&& b.address == a.address.wrapping_add(a.memory_size)
    &&& b.owner_class == a.owner_class
    &&& b.buffer == a.buffer
}

/// What a row opens starts where the row itself starts, or, behind a pointer, where
/// the pointer points, in the memory that was read there.
pub open spec fn starts_inside(a: RowView, b: RowView, derefs: Seq<DerefBuf>) -> bool {
    if b.buffer == a.buffer {
        b.offset == a.offset && b.address == a.address
    } else {
        &&& b.buffer == Some(a.id_path)
        &&& b.offset == 0
        &&& a.pointer_target == Some(b.owner_class)
        &&& exists|d: int|
            0 <= d < derefs.len() && (#[trigger] derefs[d]).id@ == a.id_path && derefs[d].addr
                == b.address
    }
}

/// The rows lie over memory as their fields do.
pub open spec fn laid_out(rows: Seq<RowView>, derefs: Seq<DerefBuf>) -> bool {
    &&& forall|i: int, j: int| #[trigger] next_field(rows, i, j) ==> follows(rows[i], rows[j])
    &&& forall|i: int, j: int|
        #[trigger] first_inside(rows, i, j) ==> starts_inside(rows[i], rows[j], derefs)
}

proof fn lemma_joined(a: Seq<RowView>, b: Seq<RowView>, derefs: Seq<DerefBuf>)
    requires
        laid_out(a, derefs),
        laid_out(b, derefs),
        b.len() > 0 ==> {
            &&& forall|k: int| 0 <= k < b.len() ==> (#[trigger] b[k]).depth >= b[0].depth
            &&& forall|k: int| 0 <= k < a.len() ==> (#[trigger] a[k]).depth >= b[0].depth
            &&& forall|i: int|
                #[trigger] next_field(a + b, i, a.len() as int) ==> follows((a + b)[i], b[0])
        },
    ensures
        laid_out(a + b, derefs),
{
    let all = a + b;
    let n = a.len() as int;
    assert forall|i: int, j: int| #[trigger] next_field(all, i, j) implies follows(
        all[i],
        all[j],
    ) by {
        if j < n {
            assert forall|k: int| i < k < j implies (#[trigger] a[k]).depth > a[i].depth by {
                assert(all[k] == a[k]);
            }
            assert(next_field(a, i, j));
        } else if i >= n {
            assert forall|k: int| i - n < k < j - n implies (#[trigger] b[k]).depth > b[i - n].depth by {
                assert(all[k + n] == b[k]);
            }
            assert(next_field(b, i - n, j - n));
        } else if j > n {
            assert(all[n] == b[0]);
            assert(all[i] == a[i]);
        }
    }
    assert forall|i: int, j: int| #[trigger] first_inside(all, i, j) implies starts_inside(
        all[i],
        all[j],
        derefs,
    ) by {
        if j < n {
            assert forall|k: int| i < k < j implies (#[trigger] a[k]).depth > a[i].depth by {
                assert(all[k] == a[k]);
            }
            assert(first_inside(a, i, j));
        } else if i >= n {
            assert forall|k: int| i - n < k < j - n implies (#[trigger] b[k]).depth > b[i - n].depth by {
                assert(all[k + n] == b[k]);
            }
            assert(first_inside(b, i - n, j - n));
        } else {
            assert(all[n] == b[0]);
            assert(all[i] == a[i]);
        }
    }
}

proof fn lemma_headed(own: RowView, rest: Seq<RowView>, derefs: Seq<DerefBuf>)
    requires
        laid_out(rest, derefs),
        own.depth < usize::MAX ==> forall|k: int|
            0 <= k < rest.len() ==> (#[trigger] rest[k]).depth > own.depth,
        own.depth == usize::MAX ==> forall|k: int|
            0 <= k < rest.len() ==> (#[trigger] rest[k]).depth == usize::MAX,
        forall|k: int|
            0 <= k < rest.len() && (#[trigger] rest[k]).depth == own.depth + 1 && rest[k].depth
                < usize::MAX && rest[k].local_path.last() == 0 ==> starts_inside(
                own,
                rest[k],
                derefs,
            ),
    ensures
        laid_out(seq![own] + rest, derefs),
{
    let all = seq![own] + rest;
    assert forall|i: int, j: int| #[trigger] next_field(all, i, j) implies follows(
        all[i],
        all[j],
    ) by {
        assert(all[j] == rest[j - 1]);
        if i > 0 {
            assert(all[i] == rest[i - 1]);
            assert forall|k: int| i - 1 < k < j - 1 implies (#[trigger] rest[k]).depth > rest[i
                - 1].depth by {
                assert(all[k + 1] == rest[k]);
            }
            assert(next_field(rest, i - 1, j - 1));
        }
    }
    assert forall|i: int, j: int| #[trigger] first_inside(all, i, j) implies starts_inside(
        all[i],
        all[j],
        derefs,
    ) by {
        assert(all[j] == rest[j - 1]);
        if i > 0 {
            assert(all[i] == rest[i - 1]);
            assert forall|k: int| i - 1 < k < j - 1 implies (#[trigger] rest[k]).depth > rest[i
                - 1].depth by {
                assert(all[k + 1] == rest[k]);
            }
            assert(first_inside(rest, i - 1, j - 1));
        }
    }
}

/// The memory that a run is read from lies further up in the tree.
pub open spec fn reads_from_above(p: Place) -> bool {
    p.buffer matches Some(b) ==> b.len() <= p.parent_id.len()
}

proof fn lemma_child_id_longer(parent: Seq<char>, i: nat)
    ensures
        child_id(parent, i).len() > parent.len(),
{
    assert(decimal(i).len() > 0);
}

/// The rows at the depth of a run are those of its fields, each as it stands at the
/// offset of the field.
spec fn is_run(
    rows: Seq<RowView>,
    classes: Seq<ClassNode>,
    nodes: Seq<Node>,
    n: nat,
    offset: usize,
    p: Place,
) -> bool {
    &&& forall|k: int| 0 <= k < rows.len() ==> (#[trigger] rows[k]).depth >= p.depth
    &&& p.depth < usize::MAX ==> forall|k: int|
        0 <= k < rows.len() && (#[trigger] rows[k]).depth == p.depth ==> is_field(
            rows[k],
            classes,
            nodes,
            n,
            offset,
            p,
        )
    &&& n > 0 && n <= nodes.len() ==> rows.len() > 0 && rows[0] == node_row(
        classes,
        nodes[0],
        0,
        offset,
        p,
    )
    &&& n == 0 ==> rows.len() == 0
}

spec fn is_field(
    row: RowView,
    classes: Seq<ClassNode>,
    nodes: Seq<Node>,
    n: nat,
    offset: usize,
    p: Place,
) -> bool {
    exists|m: nat|
        m < n && row == #[trigger] node_row(
            classes,
            nodes[m as int],
            m,
            offset_at(classes, nodes, m, offset, p.visited),
            p,
        )
}

/// Rows of a run, or none at all.
spec fn run_or_none(
    rows: Seq<RowView>,
    classes: Seq<ClassNode>,
    nodes: Seq<Node>,
    offset: usize,
    p: Place,
) -> bool {
    rows.len() == 0 || (is_run(rows, classes, nodes, nodes.len(), offset, p) && nodes.len() > 0)
}

proof fn lemma_list_laid_out(
    classes: Seq<ClassNode>,
    collapsed: Seq<String>,
    expanded: Seq<String>,
    derefs: Seq<DerefBuf>,
    nodes: Seq<Node>,
    n: nat,
    offset: usize,
    p: Place,
)
    requires
        reads_from_above(p),
        nodes.len() <= usize::MAX,
        n <= nodes.len(),
    ensures
        ({
            let rows = list_rows(classes, collapsed, expanded, derefs, nodes, n, offset, p);
            laid_out(rows, derefs) && is_run(rows, classes, nodes, n, offset, p)
        }),
    decreases unvisited(classes, p.visited), nodes, n,
{
    let rows = list_rows(classes, collapsed, expanded, derefs, nodes, n, offset, p);
    if n > 0 {
        let m = (n - 1) as nat;
        let at = offset_at(classes, nodes, m, offset, p.visited);
        let before = list_rows(classes, collapsed, expanded, derefs, nodes, m, offset, p);
        let more = node_rows(classes, collapsed, expanded, derefs, nodes[n - 1], m, at, p);
        lemma_list_laid_out(classes, collapsed, expanded, derefs, nodes, m, offset, p);
        lemma_node_laid_out(classes, collapsed, expanded, derefs, nodes[n - 1], m, at, p);
        assert(rows == before + more);
        assert forall|k: int| 0 <= k < rows.len() implies (#[trigger] rows[k]).depth >= p.depth by {
            if k < before.len() {
                assert(rows[k] == before[k]);
            } else {
                assert(rows[k] == more[k - before.len()]);
            }
        }
        if p.depth < usize::MAX {
            assert forall|k: int|
                0 <= k < rows.len() && (#[trigger] rows[k]).depth == p.depth implies is_field(
                rows[k],
                classes,
                nodes,
                n,
                offset,
                p,
            ) by {
                if k < before.len() {
                    assert(rows[k] == before[k]);
                    assert(is_field(before[k], classes, nodes, m, offset, p));
                    let q = choose|q: nat|
                        q < m && before[k] == #[trigger] node_row(
                            classes,
                            nodes[q as int],
                            q,
                            offset_at(classes, nodes, q, offset, p.visited),
                            p,
                        );
                    assert(q < n && rows[k] == node_row(
                        classes,
                        nodes[q as int],
                        q,
                        offset_at(classes, nodes, q, offset, p.visited),
                        p,
                    ));
                } else {
                    assert(rows[k] == more[k - before.len()]);
                    assert(k == before.len());
                    assert(rows[k] == node_row(classes, nodes[m as int], m, at, p));
                }
            }
        }
        if m > 0 {
            assert(rows[0] == before[0]);
        } else {
            assert(before.len() == 0);
            assert(rows[0] == more[0]);
        }
        assert forall|i: int| #[trigger] next_field(before + more, i, before.len() as int) implies
            follows((before + more)[i], more[0]) by {
            let all = before + more;
            assert(all[before.len() as int] == more[0]);
            assert(all[i] == before[i]);
            assert(is_field(before[i], classes, nodes, m, offset, p));
            let q = choose|q: nat|
                q < m && before[i] == #[trigger] node_row(
                    classes,
                    nodes[q as int],
                    q,
                    offset_at(classes, nodes, q, offset, p.visited),
                    p,
                );
            assert(before[i].local_path.last() == q as usize);
            assert(more[0].local_path.last() == m as usize);
            assert(q + 1 == m);
            lemma_sum_wraps(
                p.base_addr,
                offset_at(classes, nodes, q, offset, p.visited),
                node_size(classes, nodes[q as int], p.visited),
            );
        }
        lemma_joined(before, more, derefs);
    }
}

proof fn lemma_sum_wraps(a: usize, b: usize, c: usize)
    ensures
        a.wrapping_add(b.wrapping_add(c)) == a.wrapping_add(b).wrapping_add(c),
{
}

proof fn lemma_node_laid_out(
    classes: Seq<ClassNode>,
    collapsed: Seq<String>,
    expanded: Seq<String>,
    derefs: Seq<DerefBuf>,
    node: Node,
    i: nat,
    offset: usize,
    p: Place,
)
    requires
        reads_from_above(p),
        i < usize::MAX,
    ensures
        ({
            let rows = node_rows(classes, collapsed, expanded, derefs, node, i, offset, p);
            &&& laid_out(rows, derefs)
            &&& rows.len() > 0
            &&& rows[0] == node_row(classes, node, i, offset, p)
            &&& forall|k: int| 0 <= k < rows.len() ==> (#[trigger] rows[k]).depth >= p.depth
            &&& p.depth < usize::MAX ==> forall|k: int|
                0 < k < rows.len() ==> (#[trigger] rows[k]).depth > p.depth
        }),
    decreases unvisited(classes, p.visited), node, 0nat,
{
    let id = child_id(p.parent_id, i);
    let own = node_row(classes, node, i, offset, p);
    let below_place = child_place(p, i);
    let kids = node.children.len();
    lemma_child_id_longer(p.parent_id, i);
    let below = list_rows(
        classes,
        collapsed,
        expanded,
        derefs,
        node.children@,
        node.children@.len(),
        offset,
        below_place,
    );
    lemma_list_laid_out(
        classes,
        collapsed,
        expanded,
        derefs,
        node.children@,
        node.children@.len(),
        offset,
        below_place,
    );
    let (embedded, e_nodes, e_place) = match node.instance_target() {
        Some(t) => if opens(classes, p, t) && !has_name(collapsed, id) {
            lemma_unvisited_drops(classes, p.visited, t);
            let c = classes[class_index(classes, t)->0];
            let many = c.children.len();
            lemma_list_laid_out(
                classes,
                collapsed,
                expanded,
                derefs,
                c.children@,
                c.children@.len(),
                offset,
                opened_place(p, i, t),
            );
            (
                list_rows(
                    classes,
                    collapsed,
                    expanded,
                    derefs,
                    c.children@,
                    c.children@.len(),
                    offset,
                    opened_place(p, i, t),
                ),
                c.children@,
                opened_place(p, i, t),
            )
        } else {
            (Seq::empty(), Seq::empty(), p)
        },
        None => (Seq::empty(), Seq::empty(), p),
    };
    let (pointed, q_nodes, q_place) = match node.pointer_target {
        Some(t) => if opens(classes, p, t) && has_name(expanded, id) && deref_index(
            derefs,
            id,
        ) is Some {
            lemma_unvisited_drops(classes, p.visited, t);
            crate::class_view::lemma_deref_index(derefs, id);
            let c = classes[class_index(classes, t)->0];
            let d = derefs[deref_index(derefs, id)->0];
            let many = c.children.len();
            let q = Place {
                base_addr: d.addr,
                buf: d.bytes@,
                buffer: Some(id),
                ..opened_place(p, i, t)
            };
            lemma_list_laid_out(
                classes,
                collapsed,
                expanded,
                derefs,
                c.children@,
                c.children@.len(),
                0,
                q,
            );
            (
                list_rows(
                    classes,
                    collapsed,
                    expanded,
                    derefs,
                    c.children@,
                    c.children@.len(),
                    0,
                    q,
                ),
                c.children@,
                q,
            )
        } else {
            (Seq::empty(), Seq::empty(), p)
        },
        None => (Seq::empty(), Seq::empty(), p),
    };
    let rows = node_rows(classes, collapsed, expanded, derefs, node, i, offset, p);
    assert(rows == seq![own] + below + embedded + pointed);
    let d = deeper(p.depth);
    assert(run_or_none(below, classes, node.children@, offset, below_place));
    assert(embedded.len() > 0 ==> run_or_none(embedded, classes, e_nodes, offset, e_place));
    assert(pointed.len() > 0 ==> run_or_none(pointed, classes, q_nodes, 0, q_place));
    // Children and the embedded class.
    let two = below + embedded;
    if embedded.len() > 0 {
        assert forall|k: int| #[trigger] next_field(two, k, below.len() as int) implies follows(
            two[k],
            embedded[0],
        ) by {
            assert(two[below.len() as int] == embedded[0]);
            assert(two[k] == below[k]);
            assert(embedded[0].local_path.len() == 1);
            assert(is_field(
                below[k],
                classes,
                node.children@,
                node.children@.len(),
                offset,
                below_place,
            ));
            assert(below[k].local_path.len() >= 2);
        }
    }
    lemma_joined(below, embedded, derefs);
    assert forall|k: int| 0 <= k < two.len() implies (#[trigger] two[k]).depth >= d by {
        if k < below.len() {
            assert(two[k] == below[k]);
        } else {
            assert(two[k] == embedded[k - below.len()]);
        }
    }
    // The class behind the pointer.
    let rest = two + pointed;
    if pointed.len() > 0 {
        assert forall|k: int| #[trigger] next_field(rest, k, two.len() as int) implies follows(
            rest[k],
            pointed[0],
        ) by {
            assert(rest[two.len() as int] == pointed[0]);
            assert(pointed[0].local_path.last() == 0);
        }
    }
    lemma_joined(two, pointed, derefs);
    assert forall|k: int| 0 <= k < rest.len() implies (#[trigger] rest[k]).depth >= d by {
        if k < two.len() {
            assert(rest[k] == two[k]);
        } else {
            assert(rest[k] == pointed[k - two.len()]);
        }
    }
    assert forall|k: int|
        0 <= k < rest.len() && (#[trigger] rest[k]).depth == own.depth + 1 && rest[k].depth
            < usize::MAX && rest[k].local_path.last() == 0 implies starts_inside(
        own,
        rest[k],
        derefs,
    ) by {
        if k < below.len() {
            assert(rest[k] == below[k]);
            lemma_first_field(below[k], classes, node.children@, offset, below_place);
        } else if k < two.len() {
            let e = embedded[k - below.len()];
            assert(rest[k] == e);
            lemma_first_field(e, classes, e_nodes, offset, e_place);
        } else {
            let e = pointed[k - two.len()];
            assert(rest[k] == e);
            lemma_first_field(e, classes, q_nodes, 0, q_place);
            assert(q_place.buffer == Some(id));
            assert(p.buffer != Some(id));
            let x = deref_index(derefs, id)->0;
            assert(derefs[x].id@ == own.id_path && derefs[x].addr == e.address);
        }
    }
    lemma_headed(own, rest, derefs);
    assert(seq![own] + rest =~= rows);
    assert forall|k: int| 0 < k < rows.len() implies (#[trigger] rows[k]).depth >= d by {
        assert(rows[k] == rest[k - 1]);
    }
}

proof fn lemma_first_field(
    row: RowView,
    classes: Seq<ClassNode>,
    nodes: Seq<Node>,
    offset: usize,
    p: Place,
)
    requires
        nodes.len() <= usize::MAX,
        is_field(row, classes, nodes, nodes.len(), offset, p),
        row.local_path.last() == 0,
    ensures
        row.offset == offset,
        row.address == p.base_addr.wrapping_add(offset),
        row.buffer == p.buffer,
        row.owner_class == p.owner,
{
    let m = choose|m: nat|
        m < nodes.len() && row == #[trigger] node_row(
            classes,
            nodes[m as int],
            m,
            offset_at(classes, nodes, m, offset, p.visited),
            p,
        );
    assert(row.local_path.last() == m as usize);
    assert(m == 0);
}

/// The rows of a class lie over memory as its fields do. The first field lies at the
/// base of the class. Each field lies right behind the one before it, whatever that
/// one opens. What a row opens starts where the row starts, or, behind a pointer,
/// where the pointer points.
pub proof fn rows_lie_over_memory(
    classes: Seq<ClassNode>,
    collapsed: Seq<String>,
    expanded: Seq<String>,
    derefs: Seq<DerefBuf>,
    id: u128,
    base: usize,
    buf: Seq<u8>,
)
    ensures
        ({
            let rows = class_rows(classes, collapsed, expanded, derefs, id, base, buf);
            &&& laid_out(rows, derefs)
            &&& rows.len() > 0 ==> rows[0].offset == 0 && rows[0].address == base && rows[0].depth
                == 0 && rows[0].owner_class == id && rows[0].buffer is None
        }),
{
    match class_index(classes, id) {
        None => {},
        Some(i) => {
            let many = classes[i].children.len();
            lemma_list_laid_out(
                classes,
                collapsed,
                expanded,
                derefs,
                classes[i].children@,
                classes[i].children@.len(),
                0,
                top_place(id, base, buf),
            );
        },
    }
}

/// The row shows the field: its type, name, comment and what it points at, and the
/// bytes that it takes where it embeds no class.
pub open spec fn shows_field(row: RowView, f: Node) -> bool {
    &&& row.type_tag == f.tag@
    &&& row.name == f.name@
    &&& row.comment == f.comment@
    &&& row.hidden == f.hidden
    &&& row.shape == f.shape
    &&& row.pointer_target == f.pointer_target
    &&& row.has_children == (f.children@.len() > 0 || f.pointer_target is Some || (f.tag@
        == "ClassInstance"@ && f.instance is Some))
    &&& f.tag@ != "ClassInstance"@ ==> row.memory_size == f.memory_size
}

proof fn lemma_field_row(
    classes: Seq<ClassNode>,
    collapsed: Seq<String>,
    expanded: Seq<String>,
    derefs: Seq<DerefBuf>,
    nodes: Seq<Node>,
    n: nat,
    offset: usize,
    p: Place,
    m: nat,
) -> (k: int)
    requires
        m < n <= nodes.len(),
    ensures
        ({
            let rows = list_rows(classes, collapsed, expanded, derefs, nodes, n, offset, p);
            0 <= k < rows.len() && rows[k] == node_row(
                classes,
                nodes[m as int],
                m,
                offset_at(classes, nodes, m, offset, p.visited),
                p,
            )
        }),
    decreases n,
{
    let before = list_rows(
        classes,
        collapsed,
        expanded,
        derefs,
        nodes,
        (n - 1) as nat,
        offset,
        p,
    );
    let at = offset_at(classes, nodes, (n - 1) as nat, offset, p.visited);
    let more = node_rows(
        classes,
        collapsed,
        expanded,
        derefs,
        nodes[n - 1],
        (n - 1) as nat,
        at,
        p,
    );
    let rows = list_rows(classes, collapsed, expanded, derefs, nodes, n, offset, p);
    assert(rows == before + more);
    assert(more[0] == node_row(classes, nodes[n - 1], (n - 1) as nat, at, p));
    if m == n - 1 {
        before.len() as int
    } else {
        lemma_field_row(
            classes,
            collapsed,
            expanded,
            derefs,
            nodes,
            (n - 1) as nat,
            offset,
            p,
            m,
        )
    }
}

proof fn lemma_class_found(classes: Seq<ClassNode>, id: u128, c: int)
    requires
        0 <= c < classes.len(),
        classes[c].id == id,
        forall|j: int| 0 <= j < c ==> (#[trigger] classes[j]).id != id,
    ensures
        class_index(classes, id) == Some(c),
{
    lemma_class_index(classes, id);
}

/// Every field of a class has a row of its own, at the top of the tree under the
/// number of the field.
pub proof fn every_field_has_a_row(
    classes: Seq<ClassNode>,
    collapsed: Seq<String>,
    expanded: Seq<String>,
    derefs: Seq<DerefBuf>,
    id: u128,
    base: usize,
    buf: Seq<u8>,
    c: int,
    k: nat,
) -> (r: int)
    requires
        0 <= c < classes.len(),
        classes[c].id == id,
        forall|j: int| 0 <= j < c ==> (#[trigger] classes[j]).id != id,
        k < classes[c].children@.len(),
    ensures
        ({
            let rows = class_rows(classes, collapsed, expanded, derefs, id, base, buf);
            let row = rows[r];
            &&& 0 <= r < rows.len()
            &&& shows_field(row, classes[c].children@[k as int])
            &&& row.depth == 0
            &&& row.local_path == seq![k as usize]
            &&& row.id_path == decimal(k)
            &&& row.owner_class == id
            &&& row.buffer is None
        }),
{
    lemma_class_found(classes, id, c);
    let rows = class_rows(classes, collapsed, expanded, derefs, id, base, buf);
    let r = lemma_field_row(
        classes,
        collapsed,
        expanded,
        derefs,
        classes[c].children@,
        classes[c].children@.len(),
        0,
        top_place(id, base, buf),
        k,
    );
    assert(rows[r].local_path =~= seq![k as usize]);
    r
}

proof fn lemma_offsets_sum(
    classes: Seq<ClassNode>,
    nodes: Seq<Node>,
    n: nat,
    m: nat,
    offset: usize,
    visited: Seq<u128>,
)
    requires
        m <= n,
        fields_size(classes, nodes, n, visited) < usize::MAX,
        offset + fields_size(classes, nodes, n, visited) <= usize::MAX,
    ensures
        offset_at(classes, nodes, m, offset, visited) == offset + fields_size(
            classes,
            nodes,
            m,
            visited,
        ),
        fields_size(classes, nodes, m, visited) <= fields_size(classes, nodes, n, visited),
    decreases n, m,
{
    if m < n {
        lemma_offsets_sum(classes, nodes, (n - 1) as nat, m, offset, visited);
    } else if m > 0 {
        lemma_offsets_sum(classes, nodes, n, (m - 1) as nat, offset, visited);
    }
}

/// An embedded class that is opened shows each of its fields inside the row that
/// embeds it: the first at the address of that row, each further one behind the bytes
/// of those before it, and the last ends where the embedding row ends.
pub proof fn opened_class_lies_inside(
    classes: Seq<ClassNode>,
    collapsed: Seq<String>,
    expanded: Seq<String>,
    derefs: Seq<DerefBuf>,
    node: Node,
    i: nat,
    offset: usize,
    p: Place,
    t: u128,
    c: int,
    k: nat,
) -> (r: int)
    requires
        node.tag@ == "ClassInstance"@,
        node.instance == Some(t),
        0 <= c < classes.len(),
        classes[c].id == t,
        forall|j: int| 0 <= j < c ==> (#[trigger] classes[j]).id != t,
        !p.visited.contains(t),
        p.budget > 0,
        !has_name(collapsed, child_id(p.parent_id, i)),
        k < classes[c].children@.len(),
        p.depth < usize::MAX,
        node_size(classes, node, p.visited) < usize::MAX,
        offset + node_size(classes, node, p.visited) <= usize::MAX,
        p.base_addr + offset + node_size(classes, node, p.visited) <= usize::MAX,
    ensures
        ({
            let rows = node_rows(classes, collapsed, expanded, derefs, node, i, offset, p);
            let own = rows[0];
            let row = rows[r];
            &&& 0 < r < rows.len()
            &&& shows_field(own, node)
            &&& own.offset == offset
            &&& own.address == p.base_addr + offset
            &&& shows_field(row, classes[c].children@[k as int])
            &&& row.owner_class == t
            &&& row.local_path == seq![k as usize]
            &&& row.depth == own.depth + 1
            &&& row.id_path == own.id_path + "."@ + decimal(k)
            &&& row.buffer == own.buffer
            &&& row.address - own.address == row.offset - own.offset
            &&& own.offset <= row.offset
            &&& row.offset + row.memory_size <= own.offset + own.memory_size
            &&& k == 0 ==> row.offset == own.offset
            &&& k + 1 == classes[c].children@.len() ==> row.offset + row.memory_size == own.offset
                + own.memory_size
        }),
{
    lemma_class_found(classes, t, c);
    lemma_unvisited_drops(classes, p.visited, t);
    lemma_child_id_longer(p.parent_id, i);
    let q = opened_place(p, i, t);
    let fields = classes[c].children@;
    let inner = lemma_field_row(
        classes,
        collapsed,
        expanded,
        derefs,
        fields,
        fields.len(),
        offset,
        q,
        k,
    );
    let below = list_rows(
        classes,
        collapsed,
        expanded,
        derefs,
        node.children@,
        node.children@.len(),
        offset,
        child_place(p, i),
    );
    let embedded = list_rows(
        classes,
        collapsed,
        expanded,
        derefs,
        fields,
        fields.len(),
        offset,
        q,
    );
    let rows = node_rows(classes, collapsed, expanded, derefs, node, i, offset, p);
    let r = 1 + below.len() + inner;
    assert(rows[r] == embedded[inner]);
    assert(rows[0] == node_row(classes, node, i, offset, p));
    assert(rows[r].local_path =~= seq![k as usize]);
    lemma_offsets_sum(classes, fields, fields.len(), k, offset, q.visited);
    lemma_offsets_sum(classes, fields, fields.len(), k + 1, offset, q.visited);
    r
}

/// What is not opened shows its own row alone: a collapsed embedded class, one that is
/// open further up already, and a pointer that is not expanded.
pub proof fn closed_row_stands_alone(
    classes: Seq<ClassNode>,
    collapsed: Seq<String>,
    expanded: Seq<String>,
    derefs: Seq<DerefBuf>,
    node: Node,
    i: nat,
    offset: usize,
    p: Place,
)
    requires
        node.children@.len() == 0,
        node.tag@ != "ClassInstance"@ || node.instance is None || has_name(
            collapsed,
            child_id(p.parent_id, i),
        ) || (node.instance matches Some(t) && p.visited.contains(t)),
        node.pointer_target is None || !has_name(expanded, child_id(p.parent_id, i)) || (
        node.pointer_target matches Some(t) && p.visited.contains(t)),
    ensures
        node_rows(classes, collapsed, expanded, derefs, node, i, offset, p).len() == 1,
{
}

/// A pointer that is expanded and was read shows each field of its class in the
/// memory behind it: the first where the pointer points, each at its offset in the
/// class, under the row of the pointer.
pub proof fn expanded_pointer_shows_its_target(
    classes: Seq<ClassNode>,
    collapsed: Seq<String>,
    expanded: Seq<String>,
    derefs: Seq<DerefBuf>,
    node: Node,
    i: nat,
    offset: usize,
    p: Place,
    t: u128,
    c: int,
    d: int,
    k: nat,
) -> (r: int)
    requires
        node.pointer_target == Some(t),
        0 <= c < classes.len(),
        classes[c].id == t,
        forall|j: int| 0 <= j < c ==> (#[trigger] classes[j]).id != t,
        !p.visited.contains(t),
        p.budget > 0,
        has_name(expanded, child_id(p.parent_id, i)),
        0 <= d < derefs.len(),
        derefs[d].id@ == child_id(p.parent_id, i),
        forall|j: int| 0 <= j < d ==> (#[trigger] derefs[j]).id@ != child_id(p.parent_id, i),
        k < classes[c].children@.len(),
        p.depth < usize::MAX,
    ensures
        ({
            let rows = node_rows(classes, collapsed, expanded, derefs, node, i, offset, p);
            let own = rows[0];
            let row = rows[r];
            &&& 0 < r < rows.len()
            &&& shows_field(own, node)
            &&& shows_field(row, classes[c].children@[k as int])
            &&& row.owner_class == t
            &&& row.local_path == seq![k as usize]
            &&& row.depth == own.depth + 1
            &&& row.id_path == own.id_path + "."@ + decimal(k)
            &&& row.buffer == Some(own.id_path)
            &&& row.address == derefs[d].addr.wrapping_add(row.offset)
            &&& k == 0 ==> row.offset == 0
        }),
{
    lemma_class_found(classes, t, c);
    lemma_unvisited_drops(classes, p.visited, t);
    lemma_child_id_longer(p.parent_id, i);
    let id = child_id(p.parent_id, i);
    crate::class_view::lemma_deref_index(derefs, id);
    assert(deref_index(derefs, id) == Some(d));
    let q = Place {
        base_addr: derefs[d].addr,
        buf: derefs[d].bytes@,
        buffer: Some(id),
        ..opened_place(p, i, t)
    };
    let fields = classes[c].children@;
    let inner = lemma_field_row(
        classes,
        collapsed,
        expanded,
        derefs,
        fields,
        fields.len(),
        0,
        q,
        k,
    );
    let pointed = list_rows(classes, collapsed, expanded, derefs, fields, fields.len(), 0, q);
    let rows = node_rows(classes, collapsed, expanded, derefs, node, i, offset, p);
    let r = rows.len() - pointed.len() + inner;
    assert(rows[r] == pointed[inner]);
    assert(rows[0] == node_row(classes, node, i, offset, p));
    assert(rows[r].local_path =~= seq![k as usize]);
    r
}

/// A field that holds other fields shows each of them below itself, under the path of
/// the field and the number of the one it holds, in the same class and the same memory:
/// the first starts where the field starts.
pub proof fn container_shows_its_fields(
    classes: Seq<ClassNode>,
    collapsed: Seq<String>,
    expanded: Seq<String>,
    derefs: Seq<DerefBuf>,
    node: Node,
    i: nat,
    offset: usize,
    p: Place,
    k: nat,
) -> (r: int)
    requires
        k < node.children@.len(),
        p.depth < usize::MAX,
    ensures
        ({
            let rows = node_rows(classes, collapsed, expanded, derefs, node, i, offset, p);
            let own = rows[0];
            let row = rows[r];
            &&& 0 < r < rows.len()
            &&& shows_field(own, node)
            &&& own.local_path == p.parent_path + seq![i as usize]
            &&& own.depth == p.depth
            &&& own.owner_class == p.owner
            &&& shows_field(row, node.children@[k as int])
            &&& row.owner_class == own.owner_class
            &&& row.local_path == own.local_path + seq![k as usize]
            &&& row.depth == own.depth + 1
            &&& row.id_path == own.id_path + "."@ + decimal(k)
            &&& row.buffer == own.buffer
            &&& k == 0 ==> row.offset == own.offset && row.address == own.address
        }),
{
    lemma_child_id_longer(p.parent_id, i);
    let q = child_place(p, i);
    let inner = lemma_field_row(
        classes,
        collapsed,
        expanded,
        derefs,
        node.children@,
        node.children@.len(),
        offset,
        q,
        k,
    );
    let below = list_rows(
        classes,
        collapsed,
        expanded,
        derefs,
        node.children@,
        node.children@.len(),
        offset,
        q,
    );
    let rows = node_rows(classes, collapsed, expanded, derefs, node, i, offset, p);
    let r = 1 + inner;
    assert(rows[r] == below[inner]);
    assert(rows[0] == node_row(classes, node, i, offset, p));
    assert(rows[r].local_path =~= rows[0].local_path + seq![k as usize]);
    assert(rows[0].local_path =~= p.parent_path + seq![i as usize]);
    r
}

} // verus!

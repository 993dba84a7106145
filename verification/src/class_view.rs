//! The rows of the class view: the node tree laid out flat, and what is drawn
//! between its rows.
use vstd::prelude::*;
use vstd::slice::slice_subrange;
use vstd::string::StringExecFns;

use crate::bytes::{from_le, le_value};
use crate::encoding::{lossy_utf8, utf8_lossy};
use crate::model::{
    class_index, class_instance_target, find_class, has_id, lemma_unvisited_drops, node_size,
    resolved_node_size, unvisited, ClassNode, FloatWidth, Node, Shape,
};
use crate::modules_panel::{has_name, has_name_exec};
use crate::text::{chars_of, decimal, decimal_exec, hex_upper, hex_upper_exec, same_str, string_of};

verus! {

/// One row of the flattened node tree.
#[derive(Debug)]
pub struct NodeSnapshot {
    /// The address in the target.
    pub address: usize,
    /// The offset from the base of the buffer that the row is read from.
    pub offset: usize,
    /// 0 for a field of the class itself, 1 for a field of that field, and so on.
    pub depth: usize,
    /// The place in the shown tree, as in `0.2.1`.
    pub id_path: String,
    pub has_children: bool,
    pub type_tag: String,
    pub name: String,
    pub comment: String,
    pub memory_size: usize,
    pub pointer_target: Option<u128>,
    /// The class that the field belongs to.
    pub owner_class: u128,
    /// The place of the field in that class.
    pub local_path: Vec<usize>,
    /// The bits of the float components; none where the buffer is too short.
    pub components: Vec<u64>,
    pub float_width: Option<FloatWidth>,
    pub shape: Shape,
    pub hidden: bool,
    /// The expanded pointer whose target the row is read from; `None` for the
    /// class itself.
    pub buffer: Option<String>,
}

/// What a [`NodeSnapshot`] holds, as mathematical values.
pub struct RowView {
    pub address: usize,
    pub offset: usize,
    pub depth: usize,
    pub id_path: Seq<char>,
    pub has_children: bool,
    pub type_tag: Seq<char>,
    pub name: Seq<char>,
    pub comment: Seq<char>,
    pub memory_size: usize,
    pub pointer_target: Option<u128>,
    pub owner_class: u128,
    pub local_path: Seq<usize>,
    pub components: Seq<u64>,
    pub float_width: Option<FloatWidth>,
    pub shape: Shape,
    pub hidden: bool,
    pub buffer: Option<Seq<char>>,
}

/// The characters of an optional string.
pub open spec fn text_of(o: Option<String>) -> Option<Seq<char>> {
    match o {
        Some(s) => Some(s@),
        None => None,
    }
}

impl View for NodeSnapshot {
    type V = RowView;

    open spec fn view(&self) -> RowView {
        RowView {
            address: self.address,
            offset: self.offset,
            depth: self.depth,
            id_path: self.id_path@,
            has_children: self.has_children,
            type_tag: self.type_tag@,
            name: self.name@,
            comment: self.comment@,
            memory_size: self.memory_size,
            pointer_target: self.pointer_target,
            owner_class: self.owner_class,
            local_path: self.local_path@,
            components: self.components@,
            float_width: self.float_width,
            shape: self.shape,
            hidden: self.hidden,
            buffer: text_of(self.buffer),
        }
    }
}

/// The rows as mathematical values.
pub open spec fn rows_view(rows: Seq<NodeSnapshot>) -> Seq<RowView> {
    Seq::new(rows.len(), |i: int| rows[i]@)
}

/// What was read behind an expanded pointer.
#[derive(Debug)]
pub struct DerefBuf {
    /// The place of the pointer in the shown tree.
    pub id: String,
    /// Where the pointer points.
    pub addr: usize,
    pub bytes: Vec<u8>,
}

/// The number of the buffer of the pointer at `id`; of several the first.
pub open spec fn deref_index(bufs: Seq<DerefBuf>, id: Seq<char>) -> Option<int>
    decreases bufs.len(),
{
    if bufs.len() == 0 {
        None
    } else {
        match deref_index(bufs.drop_last(), id) {
            Some(i) => Some(i),
            None => if bufs.last().id@ == id {
                Some(bufs.len() - 1)
            } else {
                None
            },
        }
    }
}

/// The bits of the components of a node at `offset` of `buf`. A buffer that does
/// not hold all of them gives none.
pub open spec fn float_components(shape: Shape, buf: Seq<u8>, offset: usize) -> Seq<u64> {
    match shape.width() {
        None => Seq::empty(),
        Some(w) => if offset + shape.count() * w.bytes() > buf.len() {
            Seq::empty()
        } else {
            Seq::new(
                shape.count(),
                |i: int|
                    le_value(
                        buf.subrange(
                            offset + i * w.bytes(),
                            offset + i * w.bytes() + w.bytes(),
                        ),
                    ) as u64,
            )
        },
    }
}

/// Pulls the float components out of a node's part of `buf`: their bits and
/// their precision. Nodes without components have neither.
pub fn read_float_components(shape: Shape, buf: &[u8], offset: usize) -> (r: (
    Vec<u64>,
    Option<FloatWidth>,
))
    ensures
        r.0@ == float_components(shape, buf@, offset),
        r.1 == shape.width(),
{
    let (count, width): (usize, FloatWidth) = match shape {
        Shape::Scalar => {
            return (Vec::new(), None);
        },
        Shape::Vector { count, width } => (count as usize, width),
        Shape::Matrix { rows, cols, width } => {
            assert(rows * cols <= 255 * 255) by (nonlinear_arith)
                requires
                    rows <= 255,
                    cols <= 255,
            ;
            ((rows as u32 * cols as u32) as usize, width)
        },
    };
    let size: usize = width.size();
    assert(count * size <= 65025 * 8) by (nonlinear_arith)
        requires
            count <= 65025,
            size <= 8,
    ;
    let total: usize = count * size;
    assert(count * size == shape.count() * width.bytes());
    if total > buf.len() || offset > buf.len() - total {
        return (Vec::new(), Some(width));
    }
    let mut out: Vec<u64> = Vec::new();
    let mut i: usize = 0;
    while i < count
        invariant
            i <= count,
            size == width.bytes(),
            size == 4 || size == 8,
            total == count * size,
            offset + total <= buf.len(),
            out@.len() == i,
            forall|j: int|
                0 <= j < i ==> #[trigger] out@[j] == le_value(
                    buf@.subrange(
                        offset + j * width.bytes(),
                        offset + j * width.bytes() + width.bytes(),
                    ),
                ) as u64,
        decreases count - i,
    {
        assert(i * size + size <= count * size) by (nonlinear_arith)
            requires
                i + 1 <= count,
        ;
        let start: usize = offset + i * size;
        let v: u64 = from_le(slice_subrange(buf, start, start + size));
        out.push(v);
        i += 1;
    }
    assert(out@ =~= float_components(shape, buf@, offset));
    (out, Some(width))
}

/// What flattening goes by besides the nodes: the classes, the rows that are
/// collapsed, the pointers that are expanded, and what was read behind those.
pub struct FlattenInput<'a> {
    pub classes: &'a Vec<ClassNode>,
    pub collapsed: &'a Vec<String>,
    pub expanded: &'a Vec<String>,
    pub derefs: &'a Vec<DerefBuf>,
}

/// Where in the tree a run of nodes stands.
pub struct Place {
    pub base_addr: usize,
    pub depth: usize,
    pub parent_id: Seq<char>,
    pub owner: u128,
    pub parent_path: Seq<usize>,
    pub visited: Seq<u128>,
    /// How many more classes may be opened one inside the other.
    pub budget: usize,
    pub buf: Seq<u8>,
    pub buffer: Option<Seq<char>>,
}

/// The place of the node number `i` below `parent`.
pub open spec fn child_id(parent: Seq<char>, i: nat) -> Seq<char> {
    if parent.len() == 0 {
        decimal(i)
    } else {
        parent + "."@ + decimal(i)
    }
}

pub open spec fn deeper(depth: usize) -> usize {
    if depth < usize::MAX {
        (depth + 1) as usize
    } else {
        depth
    }
}

pub open spec fn less_one(n: usize) -> usize {
    if n > 0 {
        (n - 1) as usize
    } else {
        0
    }
}

/// The row of the node number `i` of a run, at `offset` of the buffer.
pub open spec fn node_row(
    classes: Seq<ClassNode>,
    node: Node,
    i: nat,
    offset: usize,
    p: Place,
) -> RowView {
    RowView {
        address: p.base_addr.wrapping_add(offset),
        offset,
        depth: p.depth,
        id_path: child_id(p.parent_id, i),
        has_children: node.children@.len() > 0 || node.instance_target() is Some
            || node.pointer_target is Some,
        type_tag: node.tag@,
        name: node.name@,
        comment: node.comment@,
        memory_size: node_size(classes, node, p.visited),
        pointer_target: node.pointer_target,
        owner_class: p.owner,
        local_path: p.parent_path.push(i as usize),
        components: float_components(node.shape, p.buf, offset),
        float_width: node.shape.width(),
        shape: node.shape,
        hidden: node.hidden,
        buffer: p.buffer,
    }
}

/// The offset of the node number `n` of a run that starts at `offset`.
pub open spec fn offset_at(
    classes: Seq<ClassNode>,
    nodes: Seq<Node>,
    n: nat,
    offset: usize,
    visited: Seq<u128>,
) -> usize
    decreases n,
{
    if n == 0 {
        offset
    } else {
        offset_at(classes, nodes, (n - 1) as nat, offset, visited).wrapping_add(
            node_size(classes, nodes[n - 1], visited),
        )
    }
}

/// Where the children of the node number `i` stand.
pub open spec fn child_place(p: Place, i: nat) -> Place {
    Place {
        depth: deeper(p.depth),
        parent_id: child_id(p.parent_id, i),
        parent_path: p.parent_path.push(i as usize),
        budget: less_one(p.budget),
        ..p
    }
}

/// Where the fields of the class `t` stand that the node number `i` opens.
pub open spec fn opened_place(p: Place, i: nat, t: u128) -> Place {
    Place {
        depth: deeper(p.depth),
        parent_id: child_id(p.parent_id, i),
        owner: t,
        parent_path: Seq::empty(),
        visited: p.visited.push(t),
        budget: less_one(p.budget),
        ..p
    }
}

/// The class `t` may be opened here: it exists, is not open already, and the
/// budget allows it.
pub open spec fn opens(classes: Seq<ClassNode>, p: Place, t: u128) -> bool {
    &&& class_index(classes, t) is Some
    &&& !p.visited.contains(t)
    &&& p.budget > 0
}

/// The rows of the node number `i` of a run: its own, those of its children,
/// those of the class that it embeds unless it is collapsed, and those of the
/// class that it points at if it is expanded and was read.
pub open spec fn node_rows(
    classes: Seq<ClassNode>,
    collapsed: Seq<String>,
    expanded: Seq<String>,
    derefs: Seq<DerefBuf>,
    node: Node,
    i: nat,
    offset: usize,
    p: Place,
) -> Seq<RowView>
    decreases unvisited(classes, p.visited), node, 0nat,
{
    let id = child_id(p.parent_id, i);
    let own = seq![node_row(classes, node, i, offset, p)];
    let below = list_rows(
        classes,
        collapsed,
        expanded,
        derefs,
        node.children@,
        node.children@.len(),
        offset,
        child_place(p, i),
    );
    let embedded = match node.instance_target() {
        Some(t) => if opens(classes, p, t) && !has_name(collapsed, id) {
            proof {
                lemma_unvisited_drops(classes, p.visited, t);
            }
            let fields = classes[class_index(classes, t)->0].children@;
            list_rows(
                classes,
                collapsed,
                expanded,
                derefs,
                fields,
                fields.len(),
                offset,
                opened_place(p, i, t),
            )
        } else {
            Seq::empty()
        },
        None => Seq::empty(),
    };
    let pointed = match node.pointer_target {
        Some(t) => if opens(classes, p, t) && has_name(expanded, id) && deref_index(
            derefs,
            id,
        ) is Some {
            proof {
                lemma_unvisited_drops(classes, p.visited, t);
            }
            let fields = classes[class_index(classes, t)->0].children@;
            let d = derefs[deref_index(derefs, id)->0];
            list_rows(
                classes,
                collapsed,
                expanded,
                derefs,
                fields,
                fields.len(),
                0,
                Place {
                    base_addr: d.addr,
                    buf: d.bytes@,
                    buffer: Some(id),
                    ..opened_place(p, i, t)
                },
            )
        } else {
            Seq::empty()
        },
        None => Seq::empty(),
    };
    own + below + embedded + pointed
}

/// The rows of the first `n` nodes of a run that starts at `offset`.
pub open spec fn list_rows(
    classes: Seq<ClassNode>,
    collapsed: Seq<String>,
    expanded: Seq<String>,
    derefs: Seq<DerefBuf>,
    nodes: Seq<Node>,
    n: nat,
    offset: usize,
    p: Place,
) -> Seq<RowView>
    decreases unvisited(classes, p.visited), nodes, n,
{
    if n == 0 || n > nodes.len() {
        Seq::empty()
    } else {
        list_rows(classes, collapsed, expanded, derefs, nodes, (n - 1) as nat, offset, p)
            + node_rows(
            classes,
            collapsed,
            expanded,
            derefs,
            nodes[n - 1],
            (n - 1) as nat,
            offset_at(classes, nodes, (n - 1) as nat, offset, p.visited),
            p,
        )
    }
}

pub proof fn lemma_deref_index(bufs: Seq<DerefBuf>, id: Seq<char>)
    ensures
        match deref_index(bufs, id) {
            Some(i) => 0 <= i < bufs.len() && bufs[i].id@ == id && forall|j: int|
                0 <= j < i ==> (#[trigger] bufs[j]).id@ != id,
            None => forall|j: int| 0 <= j < bufs.len() ==> (#[trigger] bufs[j]).id@ != id,
        },
    decreases bufs.len(),
{
    if bufs.len() > 0 {
        let rest = bufs.drop_last();
        lemma_deref_index(rest, id);
        assert forall|j: int| 0 <= j < rest.len() implies (#[trigger] bufs[j]).id@ == rest[j].id@ by {}
    }
}

fn find_deref(bufs: &Vec<DerefBuf>, id: &str) -> (r: Option<usize>)
    ensures
        match r {
            Some(i) => deref_index(bufs@, id@) == Some(i as int) && i < bufs@.len(),
            None => deref_index(bufs@, id@) is None,
        },
{
    let mut i: usize = 0;
    while i < bufs.len()
        invariant
            i <= bufs@.len(),
            forall|j: int| 0 <= j < i ==> (#[trigger] bufs@[j]).id@ != id@,
        decreases bufs@.len() - i,
    {
        if same_str(bufs[i].id.as_str(), id) {
            proof {
                lemma_deref_index(bufs@, id@);
            }
            return Some(i);
        }
        i += 1;
    }
    proof {
        lemma_deref_index(bufs@, id@);
    }
    None
}

fn child_id_exec(parent: &str, i: usize) -> (id: String)
    ensures
        id@ == child_id(parent@, i as nat),
{
    let number = string_of(decimal_exec(i as u64).as_slice());
    if parent.is_empty() {
        number
    } else {
        let mut id = parent.to_string();
        id.append(".");
        id.append(number.as_str());
        id
    }
}

/// Where in the tree a run of nodes stands, and the buffer that it is read from.
pub struct Cursor<'a> {
    pub base_addr: usize,
    pub depth: usize,
    pub parent_id: &'a str,
    pub owner: u128,
    pub parent_path: &'a Vec<usize>,
    pub budget: usize,
    pub buf: &'a Vec<u8>,
    /// The expanded pointer whose target `buf` is; `None` for the class itself.
    pub buffer: Option<&'a str>,
}

impl<'a> Cursor<'a> {
    pub open spec fn place(&self, visited: Seq<u128>) -> Place {
        Place {
            base_addr: self.base_addr,
            depth: self.depth,
            parent_id: self.parent_id@,
            owner: self.owner,
            parent_path: self.parent_path@,
            visited,
            budget: self.budget,
            buf: self.buf@,
            buffer: match self.buffer {
                Some(b) => Some(b@),
                None => None,
            },
        }
    }
}

fn owned(s: Option<&str>) -> (r: Option<String>)
    ensures
        text_of(r) == match s {
            Some(t) => Some(t@),
            None => None,
        },
{
    match s {
        Some(t) => Some(t.to_string()),
        None => None,
    }
}

fn copy_path(path: &Vec<usize>) -> (out: Vec<usize>)
    ensures
        out@ == path@,
{
    let mut out: Vec<usize> = Vec::new();
    let mut i: usize = 0;
    while i < path.len()
        invariant
            i <= path@.len(),
            out@ == path@.subrange(0, i as int),
        decreases path@.len() - i,
    {
        out.push(path[i]);
        i += 1;
    }
    assert(path@.subrange(0, path@.len() as int) =~= path@);
    out
}

fn flatten_node(
    input: &FlattenInput,
    node: &Node,
    i: usize,
    offset: usize,
    cursor: &Cursor,
    visited: &mut Vec<u128>,
    out: &mut Vec<NodeSnapshot>,
) -> (size: usize)
    ensures
        size == node_size(input.classes@, *node, old(visited)@),
        final(visited)@ == old(visited)@,
        rows_view(final(out)@) == rows_view(old(out)@) + node_rows(
            input.classes@,
            input.collapsed@,
            input.expanded@,
            input.derefs@,
            *node,
            i as nat,
            offset,
            cursor.place(old(visited)@),
        ),
    decreases unvisited(input.classes@, old(visited)@), *node, 0nat,
{
    let ghost p = cursor.place(visited@);
    let ghost rows0 = rows_view(out@);
    let id = child_id_exec(cursor.parent_id, i);
    let mut path = copy_path(cursor.parent_path);
    path.push(i);
    let instance = class_instance_target(node);
    let size: usize = resolved_node_size(input.classes, node, visited);
    let (components, float_width) = read_float_components(
        node.shape,
        cursor.buf.as_slice(),
        offset,
    );
    let row = NodeSnapshot {
        address: cursor.base_addr.wrapping_add(offset),
        offset,
        depth: cursor.depth,
        id_path: id.clone(),
        has_children: node.children.len() > 0 || instance.is_some() || node.pointer_target.is_some(),
        type_tag: node.tag.clone(),
        name: node.name.clone(),
        comment: node.comment.clone(),
        memory_size: size,
        pointer_target: node.pointer_target,
        owner_class: cursor.owner,
        local_path: copy_path(&path),
        components,
        float_width,
        shape: node.shape,
        hidden: node.hidden,
        buffer: owned(cursor.buffer),
    };
    let ghost own = seq![node_row(input.classes@, *node, i as nat, offset, p)];
    assert(row@ == own[0]);
    out.push(row);
    assert(rows_view(out@) =~= rows0 + own);
    let depth: usize = if cursor.depth < usize::MAX {
        cursor.depth + 1
    } else {
        cursor.depth
    };
    let budget: usize = if cursor.budget > 0 {
        cursor.budget - 1
    } else {
        0
    };
    let below = Cursor {
        base_addr: cursor.base_addr,
        depth,
        parent_id: id.as_str(),
        owner: cursor.owner,
        parent_path: &path,
        budget,
        buf: cursor.buf,
        buffer: cursor.buffer,
    };
    assert(below.place(visited@) == child_place(p, i as nat));
    flatten_nodes(input, &node.children, offset, &below, visited, out);
    let ghost rows1 = rows_view(out@);
    let no_path: Vec<usize> = Vec::new();
    assert(no_path@ =~= Seq::<usize>::empty());
    if let Some(t) = instance {
        if !has_name_exec(input.collapsed, id.as_str()) && !has_id(visited, t) && cursor.budget > 0 {
            if let Some(c) = find_class(input.classes, t) {
                proof {
                    lemma_unvisited_drops(input.classes@, visited@, t);
                }
                visited.push(t);
                let inner = Cursor {
                    base_addr: cursor.base_addr,
                    depth,
                    parent_id: id.as_str(),
                    owner: t,
                    parent_path: &no_path,
                    budget,
                    buf: cursor.buf,
                    buffer: cursor.buffer,
                };
                assert(inner.place(visited@) == opened_place(p, i as nat, t));
                flatten_nodes(input, &input.classes[c].children, offset, &inner, visited, out);
                visited.pop();
                assert(visited@ =~= old(visited)@);
            }
        }
    }
    let ghost rows2 = rows_view(out@);
    if let Some(t) = node.pointer_target {
        if has_name_exec(input.expanded, id.as_str()) && !has_id(visited, t) && cursor.budget > 0 {
            if let Some(d) = find_deref(input.derefs, id.as_str()) {
                if let Some(c) = find_class(input.classes, t) {
                    proof {
                        lemma_unvisited_drops(input.classes@, visited@, t);
                    }
                    visited.push(t);
                    let inner = Cursor {
                        base_addr: input.derefs[d].addr,
                        depth,
                        parent_id: id.as_str(),
                        owner: t,
                        parent_path: &no_path,
                        budget,
                        buf: &input.derefs[d].bytes,
                        buffer: Some(id.as_str()),
                    };
                    assert(inner.place(visited@) == (Place {
                        base_addr: input.derefs@[d as int].addr,
                        buf: input.derefs@[d as int].bytes@,
                        buffer: Some(id@),
                        ..opened_place(p, i as nat, t)
                    }));
                    flatten_nodes(input, &input.classes[c].children, 0, &inner, visited, out);
                    visited.pop();
                    assert(visited@ =~= old(visited)@);
                }
            }
        }
    }
    proof {
        let all = node_rows(
            input.classes@,
            input.collapsed@,
            input.expanded@,
            input.derefs@,
            *node,
            i as nat,
            offset,
            p,
        );
        assert(rows_view(out@) =~= rows0 + all);
    }
    size
}

/// Lays the nodes of a class out flat, each at its offset: embedded classes are
/// opened unless collapsed, classes behind pointers where expanded.
pub fn flatten_nodes(
    input: &FlattenInput,
    nodes: &Vec<Node>,
    offset: usize,
    cursor: &Cursor,
    visited: &mut Vec<u128>,
    out: &mut Vec<NodeSnapshot>,
)
    ensures
        final(visited)@ == old(visited)@,
        rows_view(final(out)@) == rows_view(old(out)@) + list_rows(
            input.classes@,
            input.collapsed@,
            input.expanded@,
            input.derefs@,
            nodes@,
            nodes@.len(),
            offset,
            cursor.place(old(visited)@),
        ),
    decreases unvisited(input.classes@, old(visited)@), nodes@, nodes@.len(),
{
    let mut at: usize = offset;
    let mut i: usize = 0;
    let ghost rows0 = rows_view(out@);
    assert(rows0 + Seq::<RowView>::empty() =~= rows0);
    while i < nodes.len()
        invariant
            i <= nodes@.len(),
            visited@ == old(visited)@,
            at == offset_at(input.classes@, nodes@, i as nat, offset, visited@),
            rows_view(out@) == rows0 + list_rows(
                input.classes@,
                input.collapsed@,
                input.expanded@,
                input.derefs@,
                nodes@,
                i as nat,
                offset,
                cursor.place(visited@),
            ),
        decreases nodes@.len() - i,
    {
        let ghost before = rows_view(out@);
        let size = flatten_node(input, &nodes[i], i, at, cursor, visited, out);
        at = at.wrapping_add(size);
        i += 1;
        proof {
            let done = list_rows(
                input.classes@,
                input.collapsed@,
                input.expanded@,
                input.derefs@,
                nodes@,
                i as nat,
                offset,
                cursor.place(visited@),
            );
            assert(rows_view(out@) =~= rows0 + done);
        }
    }
}

/// How many classes may be opened one inside the other.
pub const MAX_DEREF_DEPTH: usize = 8;

/// Where the fields of the class `id` stand that is shown itself.
pub open spec fn top_place(id: u128, base: usize, buf: Seq<u8>) -> Place {
    Place {
        base_addr: base,
        depth: 0,
        parent_id: Seq::empty(),
        owner: id,
        parent_path: Seq::empty(),
        visited: Seq::empty(),
        budget: MAX_DEREF_DEPTH,
        buf,
        buffer: None,
    }
}

/// The rows of the class `id`; none where there is no such class.
pub open spec fn class_rows(
    classes: Seq<ClassNode>,
    collapsed: Seq<String>,
    expanded: Seq<String>,
    derefs: Seq<DerefBuf>,
    id: u128,
    base: usize,
    buf: Seq<u8>,
) -> Seq<RowView> {
    match class_index(classes, id) {
        None => Seq::empty(),
        Some(i) => list_rows(
            classes,
            collapsed,
            expanded,
            derefs,
            classes[i].children@,
            classes[i].children@.len(),
            0,
            top_place(id, base, buf),
        ),
    }
}

/// The rows of a class at `base`, read from `buf`.
pub fn snapshot_rows(input: &FlattenInput, id: u128, base: usize, buf: &Vec<u8>) -> (rows: Vec<
    NodeSnapshot,
>)
    ensures
        rows_view(rows@) == class_rows(
            input.classes@,
            input.collapsed@,
            input.expanded@,
            input.derefs@,
            id,
            base,
            buf@,
        ),
{
    let mut rows: Vec<NodeSnapshot> = Vec::new();
    assert(rows_view(rows@) =~= Seq::<RowView>::empty());
    if let Some(i) = find_class(input.classes, id) {
        let no_path: Vec<usize> = Vec::new();
        let mut visited: Vec<u128> = Vec::new();
        proof {
            reveal_strlit("");
        }
        let cursor = Cursor {
            base_addr: base,
            depth: 0,
            parent_id: "",
            owner: id,
            parent_path: &no_path,
            budget: MAX_DEREF_DEPTH,
            buf,
            buffer: None,
        };
        assert(cursor.place(visited@).parent_id =~= Seq::<char>::empty());
        assert(cursor.place(visited@) == top_place(id, base, buf@));
        flatten_nodes(input, &input.classes[i].children, 0, &cursor, &mut visited, &mut rows);
        proof {
            let all = class_rows(
                input.classes@,
                input.collapsed@,
                input.expanded@,
                input.derefs@,
                id,
                base,
                buf@,
            );
            assert(Seq::<RowView>::empty() + all =~= all);
        }
    }
    rows
}

/// An expanded pointer whose target has still to be read.
#[derive(Debug)]
pub struct NeededDeref {
    pub id: String,
    /// Where the pointer lies.
    pub address: usize,
    /// The class that it points at.
    pub target: u128,
}

/// The row is an expanded pointer that was not read yet.
pub open spec fn needs_deref(row: RowView, expanded: Seq<String>, derefs: Seq<DerefBuf>) -> bool {
    &&& row.type_tag == "Pointer"@
    &&& row.pointer_target is Some
    &&& has_name(expanded, row.id_path)
    &&& deref_index(derefs, row.id_path) is None
}

/// The numbers of the rows that are expanded pointers still to be read.
pub open spec fn deref_rows(
    rows: Seq<NodeSnapshot>,
    expanded: Seq<String>,
    derefs: Seq<DerefBuf>,
) -> Seq<int>
    decreases rows.len(),
{
    if rows.len() == 0 {
        Seq::empty()
    } else if needs_deref(rows.last()@, expanded, derefs) {
        deref_rows(rows.drop_last(), expanded, derefs).push(rows.len() - 1)
    } else {
        deref_rows(rows.drop_last(), expanded, derefs)
    }
}

/// The pointer to be read is that of the row number `i`.
pub open spec fn wants_row(need: NeededDeref, rows: Seq<NodeSnapshot>, i: int) -> bool {
    &&& 0 <= i < rows.len()
    &&& need.id@ == rows[i].id_path@
    &&& need.address == rows[i].address
    &&& Some(need.target) == rows[i].pointer_target
}

/// The pointers to be read are those of the rows with the numbers `which`.
pub open spec fn wants_rows(
    out: Seq<NeededDeref>,
    which: Seq<int>,
    rows: Seq<NodeSnapshot>,
) -> bool {
    &&& out.len() == which.len()
    &&& forall|k: int|
        0 <= k < out.len() ==> wants_row(#[trigger] out[k], rows, which[k])
}

/// The expanded pointers among `rows` whose targets have still to be read.
pub fn needed_derefs(
    rows: &Vec<NodeSnapshot>,
    expanded: &Vec<String>,
    derefs: &Vec<DerefBuf>,
) -> (out: Vec<NeededDeref>)
    ensures
        wants_rows(out@, deref_rows(rows@, expanded@, derefs@), rows@),
{
    let mut out: Vec<NeededDeref> = Vec::new();
    let mut i: usize = 0;
    while i < rows.len()
        invariant
            i <= rows@.len(),
            wants_rows(
                out@,
                deref_rows(rows@.subrange(0, i as int), expanded@, derefs@),
                rows@,
            ),
        decreases rows@.len() - i,
    {
        assert(rows@.subrange(0, i + 1).drop_last() =~= rows@.subrange(0, i as int));
        assert(rows@.subrange(0, i + 1).last() == rows@[i as int]);
        let row = &rows[i];
        let ghost before = out@;
        let ghost which = deref_rows(rows@.subrange(0, i as int), expanded@, derefs@);
        if let Some(t) = row.pointer_target {
            if same_str(row.type_tag.as_str(), "Pointer") && has_name_exec(
                expanded,
                row.id_path.as_str(),
            ) && find_deref(derefs, row.id_path.as_str()).is_none() {
                out.push(NeededDeref { id: row.id_path.clone(), address: row.address, target: t });
                assert(wants_row(out@[before.len() as int], rows@, i as int));
            }
        }
        proof {
            let now = deref_rows(rows@.subrange(0, i + 1), expanded@, derefs@);
            assert forall|k: int| 0 <= k < out@.len() implies wants_row(
                #[trigger] out@[k],
                rows@,
                now[k],
            ) by {
                if k < before.len() {
                    assert(wants_row(before[k], rows@, which[k]));
                    assert(now[k] == which[k]);
                }
            }
        }
        i += 1;
    }
    assert(rows@.subrange(0, rows@.len() as int) =~= rows@);
    out
}

/// The pointer that was read, as far as all of it was read; else none.
pub open spec fn read_pointer(bytes: Seq<u8>) -> usize {
    if bytes.len() >= 8 {
        le_value(bytes.subrange(0, 8)) as usize
    } else {
        0
    }
}

/// The pointer in the bytes that were read at its address; 0 where fewer than
/// eight came.
pub fn pointer_value(bytes: &[u8]) -> (addr: usize)
    ensures
        addr == read_pointer(bytes@),
{
    if bytes.len() >= 8 {
        let v: u64 = from_le(slice_subrange(bytes, 0, 8));
        v as usize
    } else {
        0
    }
}

/// How many bytes to read behind a pointer to the class `target`: none behind a
/// null pointer.
pub fn deref_len(classes: &Vec<ClassNode>, pointer: usize, target: u128) -> (len: usize)
    ensures
        len == if pointer == 0 {
            0
        } else {
            crate::model::class_size(classes@, target)
        },
{
    if pointer == 0 {
        return 0;
    }
    match find_class(classes, target) {
        None => 0,
        Some(i) => {
            let mut visited: Vec<u128> = vec![target];
            assert(visited@ =~= seq![target]);
            crate::model::resolved_class_size(classes, &classes[i], &mut visited)
        },
    }
}

/// Records what was read behind a pointer.
pub fn record_deref(derefs: &mut Vec<DerefBuf>, id: String, addr: usize, bytes: Vec<u8>)
    ensures
        final(derefs)@ == old(derefs)@.push(DerefBuf { id, addr, bytes }),
        deref_index(final(derefs)@, id@) is Some,
        forall|other: Seq<char>|
            #![trigger deref_index(final(derefs)@, other)]
            deref_index(old(derefs)@, other) is Some ==> deref_index(final(derefs)@, other)
                == deref_index(old(derefs)@, other),
{
    derefs.push(DerefBuf { id, addr, bytes });
    assert(derefs@.drop_last() =~= old(derefs)@);
}

/// The text that a string pointer shows.
pub open spec fn string_pointer_text(target: usize, text: Seq<char>) -> Seq<char> {
    if target == 0 {
        "0x0 → (null)"@
    } else {
        "0x"@ + hex_upper(target as nat) + " → \""@ + text + "\""@
    }
}

/// The bytes in front of the first NUL.
pub open spec fn up_to_nul(bytes: Seq<u8>) -> Seq<u8>
    decreases bytes.len(),
{
    if bytes.len() == 0 || bytes[0] == 0 {
        Seq::empty()
    } else {
        seq![bytes[0]] + up_to_nul(bytes.subrange(1, bytes.len() as int))
    }
}

/// The number of bytes in front of the first NUL.
pub fn nul_position(bytes: &[u8]) -> (n: usize)
    ensures
        n <= bytes@.len(),
        bytes@.subrange(0, n as int) == up_to_nul(bytes@),
{
    let mut i: usize = 0;
    assert(bytes@.subrange(0, 0) =~= Seq::<u8>::empty());
    assert(bytes@.subrange(0, bytes@.len() as int) =~= bytes@);
    assert(Seq::<u8>::empty() + up_to_nul(bytes@) =~= up_to_nul(bytes@));
    while i < bytes.len() && bytes[i] != 0
        invariant
            i <= bytes@.len(),
            bytes@.subrange(0, i as int) + up_to_nul(
                bytes@.subrange(i as int, bytes@.len() as int),
            ) == up_to_nul(bytes@),
        decreases bytes@.len() - i,
    {
        proof {
            let rest = bytes@.subrange(i as int, bytes@.len() as int);
            let next = bytes@.subrange(i + 1, bytes@.len() as int);
            assert(rest.subrange(1, rest.len() as int) =~= next);
            assert(bytes@.subrange(0, i + 1) + up_to_nul(next) =~= bytes@.subrange(0, i as int)
                + up_to_nul(rest));
        }
        i += 1;
    }
    assert(bytes@.subrange(0, i as int) + Seq::<u8>::empty() =~= bytes@.subrange(0, i as int));
    i
}

/// How many bytes are read behind a string pointer.
pub const STRING_POINTER_MAX: usize = 256;

/// What a string pointer shows, given what was read behind it.
pub fn string_pointer(target: usize, bytes: &[u8]) -> (shown: String)
    ensures
        shown@ == string_pointer_text(target, lossy_utf8(up_to_nul(bytes@))),
{
    let n: usize = nul_position(bytes);
    let text = utf8_lossy(slice_subrange(bytes, 0, n));
    string_pointer_shown(target, text.as_str())
}

/// What a string pointer to the given text shows.
pub fn string_pointer_shown(target: usize, text: &str) -> (shown: String)
    ensures
        shown@ == string_pointer_text(target, text@),
{
    if target == 0 {
        return "0x0 → (null)".to_string();
    }
    let mut s = "0x".to_string();
    let digits = string_of(hex_upper_exec(target as u64).as_slice());
    s.append(digits.as_str());
    s.append(" → \"");
    s.append(text);
    s.append("\"");
    s
}

/// A row above `id` in the tree is collapsed.
pub open spec fn under_collapsed(id: Seq<char>, collapsed: Seq<String>) -> bool {
    exists|k: int|
        0 <= k < id.len() && #[trigger] id[k] == '.' && has_name(collapsed, id.subrange(0, k))
}

fn under_collapsed_exec(id: &str, collapsed: &Vec<String>) -> (r: bool)
    ensures
        r == under_collapsed(id@, collapsed@),
{
    let chars = chars_of(id);
    let mut k: usize = 0;
    while k < chars.len()
        invariant
            k <= chars@.len(),
            chars@ == id@,
            forall|j: int|
                0 <= j < k ==> !(#[trigger] id@[j] == '.' && has_name(
                    collapsed@,
                    id@.subrange(0, j),
                )),
        decreases chars@.len() - k,
    {
        if chars[k] == '.' {
            let above = string_of(slice_subrange(chars.as_slice(), 0, k));
            if has_name_exec(collapsed, above.as_str()) {
                assert(id@[k as int] == '.');
                return true;
            }
        }
        k += 1;
    }
    false
}

/// The rows with no collapsed row above them.
pub open spec fn visible(rows: Seq<NodeSnapshot>, collapsed: Seq<String>) -> Seq<usize>
    decreases rows.len(),
{
    if rows.len() == 0 {
        Seq::empty()
    } else if under_collapsed(rows.last().id_path@, collapsed) {
        visible(rows.drop_last(), collapsed)
    } else {
        visible(rows.drop_last(), collapsed).push((rows.len() - 1) as usize)
    }
}

/// The rows that are shown: those with no collapsed row above them.
pub fn build_visible_rows(rows: &Vec<NodeSnapshot>, collapsed: &Vec<String>) -> (out: Vec<usize>)
    ensures
        out@ == visible(rows@, collapsed@),
        forall|k: int| 0 <= k < out@.len() ==> #[trigger] out@[k] < rows@.len(),
{
    let mut out: Vec<usize> = Vec::new();
    let mut i: usize = 0;
    while i < rows.len()
        invariant
            i <= rows@.len(),
            out@ == visible(rows@.subrange(0, i as int), collapsed@),
            forall|k: int| 0 <= k < out@.len() ==> #[trigger] out@[k] < i,
        decreases rows@.len() - i,
    {
        assert(rows@.subrange(0, i + 1).drop_last() =~= rows@.subrange(0, i as int));
        assert(rows@.subrange(0, i + 1).last() == rows@[i as int]);
        if !under_collapsed_exec(rows[i].id_path.as_str(), collapsed) {
            out.push(i);
        }
        i += 1;
    }
    assert(rows@.subrange(0, rows@.len() as int) =~= rows@);
    out
}

/// One slot of a virtual table.
#[derive(Debug)]
pub struct VtableMethodRow {
    pub slot: usize,
    pub fn_ptr: u64,
    pub symbol: Option<String>,
}

/// One instruction of a function that is shown inline.
#[derive(Debug)]
pub struct DisasmRow {
    pub address: u64,
    pub bytes_hex: String,
    pub instruction: String,
    pub target: Option<u64>,
}

/// What is shown below a virtual table or a function.
#[derive(Debug)]
pub enum LiveEntry {
    Vtable(Vec<VtableMethodRow>),
    Disasm(Vec<DisasmRow>),
    /// Nothing is attached that could be looked into.
    NotAttached,
}

/// What is shown below the row `id`.
#[derive(Debug)]
pub struct LiveNode {
    pub id: String,
    pub entry: LiveEntry,
}

/// A row of the class view: a row of the tree, a row of a matrix, or one of the
/// live rows below a tree row.
#[derive(Clone, Copy, Debug, PartialEq, Eq, Structural)]
pub enum ViewRow {
    Snap(usize),
    MatrixRow { snap_idx: usize, row: usize },
    /// The slot number `index` of the live rows number `live`.
    VtableMethod { live: usize, index: usize, depth: usize },
    /// The instruction number `index` of the live rows number `live`.
    DisasmInsn { live: usize, index: usize, depth: usize },
    NotAttached { depth: usize },
}

/// The number of the live rows of `id`; of several the first.
pub open spec fn live_index(cache: Seq<LiveNode>, id: Seq<char>) -> Option<int>
    decreases cache.len(),
{
    if cache.len() == 0 {
        None
    } else {
        match live_index(cache.drop_last(), id) {
            Some(i) => Some(i),
            None => if cache.last().id@ == id {
                Some(cache.len() - 1)
            } else {
                None
            },
        }
    }
}

pub proof fn lemma_live_index(cache: Seq<LiveNode>, id: Seq<char>)
    ensures
        match live_index(cache, id) {
            Some(i) => 0 <= i < cache.len() && cache[i].id@ == id && forall|j: int|
                0 <= j < i ==> (#[trigger] cache[j]).id@ != id,
            None => forall|j: int| 0 <= j < cache.len() ==> (#[trigger] cache[j]).id@ != id,
        },
    decreases cache.len(),
{
    if cache.len() > 0 {
        let rest = cache.drop_last();
        lemma_live_index(rest, id);
        assert forall|j: int| 0 <= j < rest.len() implies (#[trigger] cache[j]).id@ == rest[j].id@ by {}
    }
}

pub fn find_live(cache: &Vec<LiveNode>, id: &str) -> (r: Option<usize>)
    ensures
        match r {
            Some(i) => live_index(cache@, id@) == Some(i as int) && i < cache@.len(),
            None => live_index(cache@, id@) is None,
        },
{
    let mut i: usize = 0;
    while i < cache.len()
        invariant
            i <= cache@.len(),
            forall|j: int| 0 <= j < i ==> (#[trigger] cache@[j]).id@ != id@,
        decreases cache@.len() - i,
    {
        if same_str(cache[i].id.as_str(), id) {
            proof {
                lemma_live_index(cache@, id@);
            }
            return Some(i);
        }
        i += 1;
    }
    proof {
        lemma_live_index(cache@, id@);
    }
    None
}

/// The types below which live rows are shown.
pub open spec fn is_live_tag(tag: Seq<char>) -> bool {
    tag == "VTable"@ || tag == "Function"@ || tag == "FunctionPtr"@
}

pub fn is_live_container(tag: &str) -> (r: bool)
    ensures
        r == is_live_tag(tag@),
{
    same_str(tag, "VTable") || same_str(tag, "Function") || same_str(tag, "FunctionPtr")
}

/// The rows of an expanded matrix whose components were all read.
pub open spec fn matrix_rows(row: RowView, snap_idx: usize, collapsed: Seq<String>) -> Seq<ViewRow> {
    match row.shape {
        Shape::Matrix { rows, cols, .. } => if !has_name(collapsed, row.id_path)
            && row.components.len() == rows * cols {
            Seq::new(rows as nat, |k: int| ViewRow::MatrixRow { snap_idx, row: k as usize })
        } else {
            Seq::empty()
        },
        _ => Seq::empty(),
    }
}

/// The live rows below a tree row.
pub open spec fn live_rows(row: RowView, collapsed: Seq<String>, cache: Seq<LiveNode>) -> Seq<
    ViewRow,
> {
    if is_live_tag(row.type_tag) && !has_name(collapsed, row.id_path) {
        match live_index(cache, row.id_path) {
            None => Seq::empty(),
            Some(i) => match cache[i].entry {
                LiveEntry::Vtable(m) => Seq::new(
                    m@.len(),
                    |k: int|
                        ViewRow::VtableMethod {
                            live: i as usize,
                            index: k as usize,
                            depth: row.depth,
                        },
                ),
                LiveEntry::Disasm(d) => Seq::new(
                    d@.len(),
                    |k: int|
                        ViewRow::DisasmInsn {
                            live: i as usize,
                            index: k as usize,
                            depth: row.depth,
                        },
                ),
                LiveEntry::NotAttached => seq![ViewRow::NotAttached { depth: row.depth }],
            },
        }
    } else {
        Seq::empty()
    }
}

/// The view rows of the tree rows with the given numbers.
pub open spec fn augmented(
    rows: Seq<NodeSnapshot>,
    shown: Seq<usize>,
    collapsed: Seq<String>,
    cache: Seq<LiveNode>,
) -> Seq<ViewRow>
    decreases shown.len(),
{
    if shown.len() == 0 {
        Seq::empty()
    } else {
        let i = shown.last();
        let row = rows[i as int]@;
        augmented(rows, shown.drop_last(), collapsed, cache) + (seq![ViewRow::Snap(i)]
            + matrix_rows(row, i, collapsed) + live_rows(row, collapsed, cache))
    }
}

/// The rows of the class view: each shown tree row, followed by the rows of an
/// expanded matrix and by the live rows of an expanded table or function.
pub fn build_augmented_rows(
    rows: &Vec<NodeSnapshot>,
    collapsed: &Vec<String>,
    cache: &Vec<LiveNode>,
) -> (out: Vec<ViewRow>)
    ensures
        out@ == augmented(rows@, visible(rows@, collapsed@), collapsed@, cache@),
{
    let shown = build_visible_rows(rows, collapsed);
    let mut out: Vec<ViewRow> = Vec::new();
    let mut k: usize = 0;
    while k < shown.len()
        invariant
            k <= shown@.len(),
            forall|j: int| 0 <= j < shown@.len() ==> #[trigger] shown@[j] < rows@.len(),
            out@ == augmented(rows@, shown@.subrange(0, k as int), collapsed@, cache@),
        decreases shown@.len() - k,
    {
        assert(shown@.subrange(0, k + 1).drop_last() =~= shown@.subrange(0, k as int));
        assert(shown@.subrange(0, k + 1).last() == shown@[k as int]);
        let ghost before = out@;
        let i: usize = shown[k];
        assert(shown@[k as int] < rows@.len());
        let row = &rows[i];
        out.push(ViewRow::Snap(i));
        push_matrix_rows(row, i, collapsed, &mut out);
        push_live_rows(row, collapsed, cache, &mut out);
        assert(out@ =~= before + (seq![ViewRow::Snap(i)] + matrix_rows(row@, i, collapsed@)
            + live_rows(row@, collapsed@, cache@)));
        k += 1;
    }
    assert(shown@.subrange(0, shown@.len() as int) =~= shown@);
    out
}

fn push_matrix_rows(
    row: &NodeSnapshot,
    snap_idx: usize,
    collapsed: &Vec<String>,
    out: &mut Vec<ViewRow>,
)
    ensures
        final(out)@ == old(out)@ + matrix_rows(row@, snap_idx, collapsed@),
{
    assert(out@ + Seq::<ViewRow>::empty() =~= out@);
    if let Shape::Matrix { rows, cols, .. } = row.shape {
        assert(rows * cols <= 255 * 255) by (nonlinear_arith)
            requires
                rows <= 255,
                cols <= 255,
        ;
        let cells: usize = (rows as u32 * cols as u32) as usize;
        if !has_name_exec(collapsed, row.id_path.as_str()) && row.components.len() == cells {
            let n: usize = rows as usize;
            let mut k: usize = 0;
            let ghost all = Seq::new(
                rows as nat,
                |k: int| ViewRow::MatrixRow { snap_idx, row: k as usize },
            );
            while k < n
                invariant
                    k <= n,
                    n == rows,
                    all == Seq::new(
                        rows as nat,
                        |k: int| ViewRow::MatrixRow { snap_idx, row: k as usize },
                    ),
                    out@ == old(out)@ + all.subrange(0, k as int),
                decreases n - k,
            {
                out.push(ViewRow::MatrixRow { snap_idx, row: k });
                k += 1;
                assert(out@ =~= old(out)@ + all.subrange(0, k as int));
            }
            assert(all.subrange(0, rows as int) =~= all);
        }
    }
}

fn push_live_rows(
    row: &NodeSnapshot,
    collapsed: &Vec<String>,
    cache: &Vec<LiveNode>,
    out: &mut Vec<ViewRow>,
)
    ensures
        final(out)@ == old(out)@ + live_rows(row@, collapsed@, cache@),
{
    assert(out@ + Seq::<ViewRow>::empty() =~= out@);
    if !is_live_container(row.type_tag.as_str()) || has_name_exec(collapsed, row.id_path.as_str()) {
        return;
    }
    let live: usize = match find_live(cache, row.id_path.as_str()) {
        Some(i) => i,
        None => {
            return;
        },
    };
    let depth: usize = row.depth;
    let ghost all = live_rows(row@, collapsed@, cache@);
    match &cache[live].entry {
        LiveEntry::Vtable(m) => {
            let mut k: usize = 0;
            while k < m.len()
                invariant
                    k <= m@.len(),
                    all == Seq::new(
                        m@.len(),
                        |k: int| ViewRow::VtableMethod { live, index: k as usize, depth },
                    ),
                    out@ == old(out)@ + all.subrange(0, k as int),
                decreases m@.len() - k,
            {
                out.push(ViewRow::VtableMethod { live, index: k, depth });
                k += 1;
                assert(out@ =~= old(out)@ + all.subrange(0, k as int));
            }
            assert(all.subrange(0, m@.len() as int) =~= all);
        },
        LiveEntry::Disasm(d) => {
            let mut k: usize = 0;
            while k < d.len()
                invariant
                    k <= d@.len(),
                    all == Seq::new(
                        d@.len(),
                        |k: int| ViewRow::DisasmInsn { live, index: k as usize, depth },
                    ),
                    out@ == old(out)@ + all.subrange(0, k as int),
                decreases d@.len() - k,
            {
                out.push(ViewRow::DisasmInsn { live, index: k, depth });
                k += 1;
                assert(out@ =~= old(out)@ + all.subrange(0, k as int));
            }
            assert(all.subrange(0, d@.len() as int) =~= all);
        },
        LiveEntry::NotAttached => {
            out.push(ViewRow::NotAttached { depth });
            assert(out@ =~= old(out)@ + all);
        },
    }
}

/// A pointer is read as it lies in memory, whatever follows it; fewer bytes than it
/// takes give none.
pub proof fn pointer_is_read_as_it_lies(p: usize, rest: Seq<u8>, short: Seq<u8>)
    requires
        short.len() < 8,
    ensures
        read_pointer(crate::bytes::le_bytes(p as int, 8) + rest) == p,
        read_pointer(short) == 0,
{
    let b = crate::bytes::le_bytes(p as int, 8);
    crate::bytes::lemma_le_bytes_len(p as int, 8);
    crate::bytes::lemma_le_round_trip(p as int, 8);
    crate::bytes::lemma_pow256_small();
    assert((b + rest).subrange(0, 8) =~= b);
    vstd::arithmetic::div_mod::lemma_small_mod(p as nat, crate::bytes::pow256(8));
}

/// What is behind a pointer is read while the pointer is expanded and was not read
/// yet, and behind no other row.
pub proof fn expanded_pointers_are_read(
    rows: Seq<NodeSnapshot>,
    expanded: Seq<String>,
    derefs: Seq<DerefBuf>,
    i: int,
)
    ensures
        deref_rows(rows, expanded, derefs).contains(i) <==> {
            &&& 0 <= i < rows.len()
            &&& rows[i].type_tag@ == "Pointer"@
            &&& rows[i].pointer_target is Some
            &&& has_name(expanded, rows[i].id_path@)
            &&& deref_index(derefs, rows[i].id_path@) is None
        },
    decreases rows.len(),
{
    if rows.len() > 0 {
        let rest = rows.drop_last();
        let before = deref_rows(rest, expanded, derefs);
        let all = deref_rows(rows, expanded, derefs);
        expanded_pointers_are_read(rest, expanded, derefs, i);
        if before.contains(i) {
            let k = before.index_of(i);
            assert(all[k] == i);
        }
        if i == rows.len() - 1 && needs_deref(rows.last()@, expanded, derefs) {
            assert(all[before.len() as int] == i);
        }
        if all.contains(i) {
            let k = all.index_of(i);
            if k < before.len() {
                assert(before[k] == i);
            }
        }
    }
}

} // verus!

//! Copies of nodes, classes and projects.
use vstd::prelude::*;

use crate::model::{ClassNode, EnumDescription, Node, Project};

verus! {

/// The bytes that a node takes where pointers have the given width; as many as
/// before where none is given.
pub open spec fn width_of(n: Node, width: Option<usize>) -> usize {
    match width {
        Some(w) => if n.pointer_sized {
            w
        } else {
            n.memory_size
        },
        None => n.memory_size,
    }
}

/// `b` holds what `a` holds; what is as wide as a pointer has the given width.
pub open spec fn copied(a: Node, b: Node, width: Option<usize>) -> bool
    decreases a,
{
    &&& b.tag@ == a.tag@
    &&& b.name@ == a.name@
    &&& b.comment@ == a.comment@
    &&& b.hidden == a.hidden
    &&& b.memory_size == width_of(a, width)
    &&& b.container == a.container
    &&& b.instance == a.instance
    &&& b.pointer_target == a.pointer_target
    &&& b.takes_target == a.takes_target
    &&& b.pointer_sized == a.pointer_sized
    &&& b.shape == a.shape
    &&& b.children@.len() == a.children@.len()
    &&& forall|i: int|
        0 <= i < a.children@.len() ==> copied(#[trigger] a.children@[i], b.children@[i], width)
}

/// Each of some nodes is copied.
pub open spec fn all_copied(a: Seq<Node>, b: Seq<Node>, width: Option<usize>) -> bool {
    b.len() == a.len() && forall|i: int|
        0 <= i < a.len() ==> copied(#[trigger] a[i], b[i], width)
}

/// Copies a node.
pub fn copy_node(n: &Node, width: Option<usize>) -> (r: Node)
    ensures
        copied(*n, r, width),
    decreases *n,
{
    let memory_size: usize = match width {
        Some(w) => if n.pointer_sized {
            w
        } else {
            n.memory_size
        },
        None => n.memory_size,
    };
    let mut children: Vec<Node> = Vec::new();
    let mut i: usize = 0;
    while i < n.children.len()
        invariant
            i <= n.children@.len(),
            children@.len() == i,
            forall|k: int|
                0 <= k < i ==> copied(#[trigger] n.children@[k], children@[k], width),
        decreases n.children@.len() - i,
    {
        proof {
            assert(decreases_to!(*n => n.children@[i as int]));
        }
        children.push(copy_node(&n.children[i], width));
        i += 1;
    }
    Node {
        tag: n.tag.clone(),
        name: n.name.clone(),
        comment: n.comment.clone(),
        hidden: n.hidden,
        memory_size,
        container: n.container,
        children,
        instance: n.instance,
        pointer_target: n.pointer_target,
        takes_target: n.takes_target,
        pointer_sized: n.pointer_sized,
        shape: n.shape,
    }
}

/// Copies nodes.
pub fn copy_nodes(nodes: &Vec<Node>, width: Option<usize>) -> (r: Vec<Node>)
    ensures
        all_copied(nodes@, r@, width),
{
    let mut out: Vec<Node> = Vec::new();
    for i in 0..nodes.len()
        invariant
            out@.len() == i,
            forall|k: int| 0 <= k < i ==> copied(#[trigger] nodes@[k], out@[k], width),
    {
        out.push(copy_node(&nodes[i], width));
    }
    out
}

/// `b` is the class `a` once more.
pub open spec fn class_copied(a: ClassNode, b: ClassNode, width: Option<usize>) -> bool {
    &&& b.id == a.id
    &&& b.name@ == a.name@
    &&& b.comment@ == a.comment@
    &&& b.address_formula@ == a.address_formula@
    &&& all_copied(a.children@, b.children@, width)
}

/// `b` is the enum `a` once more.
pub open spec fn enum_copied(a: EnumDescription, b: EnumDescription) -> bool {
    &&& b.name@ == a.name@
    &&& b.size == a.size
    &&& b.use_flags == a.use_flags
    &&& b.values@.len() == a.values@.len()
    &&& forall|i: int|
        0 <= i < a.values@.len() ==> b.values@[i].0@ == (#[trigger] a.values@[i]).0@
            && b.values@[i].1 == a.values@[i].1
}

/// `b` is the project `a` once more, with pointers of the given width where one is
/// given.
pub open spec fn project_copied(a: Project, b: Project, width: Option<usize>) -> bool {
    &&& b.name@ == a.name@
    &&& b.pointer_size == match width {
        Some(w) => w,
        None => a.pointer_size,
    }
    &&& b.classes@.len() == a.classes@.len()
    &&& forall|i: int|
        0 <= i < a.classes@.len() ==> class_copied(
            #[trigger] a.classes@[i],
            b.classes@[i],
            width,
        )
    &&& b.enums@.len() == a.enums@.len()
    &&& forall|i: int|
        0 <= i < a.enums@.len() ==> enum_copied(#[trigger] a.enums@[i], b.enums@[i])
}

fn copy_enum(e: &EnumDescription) -> (r: EnumDescription)
    ensures
        enum_copied(*e, r),
{
    let mut values: Vec<(String, i64)> = Vec::new();
    for i in 0..e.values.len()
        invariant
            values@.len() == i,
            forall|k: int|
                0 <= k < i ==> values@[k].0@ == (#[trigger] e.values@[k]).0@ && values@[k].1
                    == e.values@[k].1,
    {
        let name = e.values[i].0.clone();
        let value: i64 = e.values[i].1;
        values.push((name, value));
    }
    EnumDescription { name: e.name.clone(), size: e.size, use_flags: e.use_flags, values }
}

/// Copies a project.
pub fn copy_project(p: &Project, width: Option<usize>) -> (r: Project)
    ensures
        project_copied(*p, r, width),
{
    let mut classes: Vec<ClassNode> = Vec::new();
    for i in 0..p.classes.len()
        invariant
            classes@.len() == i,
            forall|k: int|
                0 <= k < i ==> class_copied(#[trigger] p.classes@[k], classes@[k], width),
    {
        let c = &p.classes[i];
        classes.push(
            ClassNode {
                id: c.id,
                name: c.name.clone(),
                comment: c.comment.clone(),
                address_formula: c.address_formula.clone(),
                children: copy_nodes(&c.children, width),
            },
        );
    }
    let mut enums: Vec<EnumDescription> = Vec::new();
    for i in 0..p.enums.len()
        invariant
            enums@.len() == i,
            forall|k: int| 0 <= k < i ==> enum_copied(#[trigger] p.enums@[k], enums@[k]),
    {
        enums.push(copy_enum(&p.enums[i]));
    }
    let pointer_size: usize = match width {
        Some(w) => w,
        None => p.pointer_size,
    };
    Project { name: p.name.clone(), classes, enums, pointer_size }
}

/// A copy has every field in the place where it was copied, however deep, with its type, its
/// name and what it embeds or points to. Its size is the same too, but for fields that
/// are as wide as a pointer where the width of pointers is changed.
pub proof fn copy_keeps_every_field(
    a: Seq<Node>,
    b: Seq<Node>,
    width: Option<usize>,
    path: Seq<usize>,
)
    requires
        all_copied(a, b, width),
    ensures
        crate::node_path::node_at(a, path) is Some <==> crate::node_path::node_at(b, path) is Some,
        crate::node_path::node_at(a, path) matches Some(n) ==> {
            let m = crate::node_path::node_at(b, path)->0;
            &&& m.tag@ == n.tag@
            &&& m.name@ == n.name@
            &&& m.comment@ == n.comment@
            &&& m.hidden == n.hidden
            &&& m.instance == n.instance
            &&& m.pointer_target == n.pointer_target
            &&& m.children@.len() == n.children@.len()
            &&& width is None || !n.pointer_sized ==> m.memory_size == n.memory_size
            &&& width matches Some(w) ==> n.pointer_sized ==> m.memory_size == w
        },
    decreases path.len(),
{
    if path.len() > 0 && path[0] < a.len() {
        let i = path[0] as int;
        assert(copied(a[i], b[i], width));
        if path.len() > 1 && a[i].container {
            copy_keeps_every_field(
                a[i].children@,
                b[i].children@,
                width,
                path.subrange(1, path.len() as int),
            );
        }
    }
}

} // verus!

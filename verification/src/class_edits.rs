//! What the edits of a class do to its fields.
use vstd::prelude::*;

use crate::class_actions::NodeEditOp;
use crate::host_classes::{kind_tagged, pads, same_but_fields, NodeKind};
use crate::model::{
    class_index, greedy_sizes, lemma_class_index, padding_fills_the_gap, total, Node, Project,
};
use crate::node_edit::{edit_refusal, edit_step, extracted, fields_edited, is_run_from};
use crate::node_path::{change_is_read_back, node_at, siblings_at, spliced_at};
use crate::text::ascii_lower;

verus! {

/// How many bytes some fields take together, where none embeds a class.
pub open spec fn bytes_taken(nodes: Seq<Node>) -> nat
    decreases nodes.len(),
{
    if nodes.len() == 0 {
        0
    } else {
        nodes[0].memory_size as nat + bytes_taken(nodes.subrange(1, nodes.len() as int))
    }
}

/// Fields that hold nothing but their bytes: without name, comment, target or
/// children.
pub open spec fn plain_fields(nodes: Seq<Node>) -> bool {
    forall|i: int|
        0 <= i < nodes.len() ==> {
            &&& (#[trigger] nodes[i]).name@.len() == 0
            &&& nodes[i].comment@.len() == 0
            &&& !nodes[i].hidden
            &&& nodes[i].children@.len() == 0
            &&& nodes[i].instance is None
            &&& nodes[i].pointer_target is None
            &&& nodes[i].tag@ != "ClassInstance"@
        }
}

proof fn lemma_padding(nodes: Seq<Node>, gap: nat)
    requires
        pads(nodes, gap),
        gap <= usize::MAX,
    ensures
        bytes_taken(nodes) == gap,
        plain_fields(nodes),
{
    padding_fills_the_gap(gap);
    lemma_padding_bytes(nodes, greedy_sizes(gap), gap);
    reveal_strlit("ClassInstance");
    reveal_strlit("Hex64");
    reveal_strlit("Hex32");
    reveal_strlit("Hex16");
    reveal_strlit("Hex8");
    assert forall|i: int| 0 <= i < nodes.len() implies (#[trigger] nodes[i]).tag@
        != "ClassInstance"@ by {
        assert(nodes[i].tag@.len() <= 5);
    }
}

proof fn lemma_padding_bytes(nodes: Seq<Node>, sizes: Seq<nat>, bound: nat)
    requires
        nodes.len() == sizes.len(),
        total(sizes) <= bound,
        bound <= usize::MAX,
        forall|i: int| 0 <= i < nodes.len() ==> (#[trigger] nodes[i]).memory_size == sizes[i] as usize,
    ensures
        bytes_taken(nodes) == total(sizes),
    decreases nodes.len(),
{
    if nodes.len() > 0 {
        let n = nodes.subrange(1, nodes.len() as int);
        let s = sizes.subrange(1, sizes.len() as int);
        assert(total(sizes) == sizes[0] + total(s));
        assert forall|i: int| 0 <= i < n.len() implies (#[trigger] n[i]).memory_size == s[i] as usize by {
            assert(n[i] == nodes[i + 1]);
        }
        lemma_padding_bytes(n, s, bound);
        assert(nodes[0].memory_size == sizes[0] as usize);
    }
}

proof fn lemma_siblings_spliced(
    was: Seq<Node>,
    now: Seq<Node>,
    path: Seq<usize>,
    behind: bool,
    count: nat,
    nodes: Seq<Node>,
)
    requires
        node_at(was, path) is Some,
        spliced_at(was, now, path, behind, count, nodes),
    ensures
        ({
            let a = siblings_at(was, path);
            let b = siblings_at(now, path);
            let start = if behind {
                path.last() + 1
            } else {
                path.last() as int
            };
            let end = if start + count <= a.len() {
                start + count
            } else {
                a.len() as int
            };
            &&& path.last() < a.len()
            &&& b == a.subrange(0, start) + nodes + a.subrange(end, a.len() as int)
            &&& node_at(was, path) == Some(a[path.last() as int])
        }),
    decreases path.len(),
{
    if path.len() > 1 {
        let i = path[0] as int;
        let rest = path.subrange(1, path.len() as int);
        assert(rest.last() == path.last());
        lemma_siblings_spliced(was[i].children@, now[i].children@, rest, behind, count, nodes);
    }
}

/// Bytes that are added lie behind the chosen field, bytes that are inserted in front
/// of it: the fields on either side stay as they are and in their order, and what is
/// new takes just so many bytes.
pub proof fn added_bytes_lie_where_asked(
    op: NodeEditOp,
    was: Seq<Node>,
    now: Seq<Node>,
    kinds: Seq<NodeKind>,
    width: usize,
    path: Seq<usize>,
    bytes: usize,
    behind: bool,
) -> (pad: Seq<Node>)
    requires
        fields_edited(op, was, now, kinds, width),
        if behind {
            op matches NodeEditOp::AddBytes { path: p, count, .. } && p@ == path && count == bytes
        } else {
            op matches NodeEditOp::InsertBytes { path: p, count, .. } && p@ == path && count
                == bytes
        },
        node_at(was, path) is Some,
    ensures
        ({
            let a = siblings_at(was, path);
            let b = siblings_at(now, path);
            let at = if behind {
                path.last() + 1
            } else {
                path.last() as int
            };
            &&& b == a.subrange(0, at) + pad + a.subrange(at, a.len() as int)
            &&& bytes_taken(pad) == bytes
            &&& plain_fields(pad)
        }),
{
    let pad = choose|pad: Seq<Node>|
        #[trigger] spliced_at(was, now, path, behind, 0, pad) && pads(pad, bytes as nat);
    assert(spliced_at(was, now, path, behind, 0, pad));
    lemma_siblings_spliced(was, now, path, behind, 0, pad);
    lemma_padding(pad, bytes as nat);
    pad
}

/// Bytes that are appended lie behind all fields of the class.
pub proof fn appended_bytes_lie_at_the_end(
    op: NodeEditOp,
    was: Seq<Node>,
    now: Seq<Node>,
    kinds: Seq<NodeKind>,
    width: usize,
    bytes: usize,
)
    requires
        fields_edited(op, was, now, kinds, width),
        op matches NodeEditOp::AppendBytes { count, .. } && count == bytes,
    ensures
        now.len() >= was.len(),
        now.subrange(0, was.len() as int) == was,
        bytes_taken(now.subrange(was.len() as int, now.len() as int)) == bytes,
        plain_fields(now.subrange(was.len() as int, now.len() as int)),
{
    lemma_padding(now.subrange(was.len() as int, now.len() as int), bytes as nat);
}

/// Deleting takes out the chosen field and those behind it, so many as asked for or
/// as there are, and leaves the others in their order.
pub proof fn deleted_range_is_gone(
    op: NodeEditOp,
    was: Seq<Node>,
    now: Seq<Node>,
    kinds: Seq<NodeKind>,
    width: usize,
    path: Seq<usize>,
    n: usize,
)
    requires
        fields_edited(op, was, now, kinds, width),
        op matches NodeEditOp::DeleteRange { path: p, count, .. } && p@ == path && count == n,
        node_at(was, path) is Some,
    ensures
        ({
            let a = siblings_at(was, path);
            let b = siblings_at(now, path);
            let i = path.last() as int;
            &&& b.len() == a.len() - (if i + n <= a.len() {
                n as int
            } else {
                a.len() - i
            })
            &&& forall|k: int| 0 <= k < i ==> #[trigger] b[k] == a[k]
            &&& forall|k: int| i <= k < b.len() ==> #[trigger] b[k] == a[k + n]
        }),
{
    lemma_siblings_spliced(was, now, path, false, n as nat, Seq::empty());
}

/// Deleting what was inserted restores the fields.
pub proof fn deletion_undoes_insertion(
    insert: NodeEditOp,
    delete: NodeEditOp,
    was: Seq<Node>,
    mid: Seq<Node>,
    now: Seq<Node>,
    kinds: Seq<NodeKind>,
    width: usize,
    path: Seq<usize>,
)
    requires
        fields_edited(insert, was, mid, kinds, width),
        insert matches NodeEditOp::InsertBytes { path: p, .. } && p@ == path,
        node_at(was, path) is Some,
        fields_edited(delete, mid, now, kinds, width),
        delete matches NodeEditOp::DeleteRange { path: p, count, .. } && p@ == path && count
            == siblings_at(mid, path).len() - siblings_at(was, path).len(),
        node_at(mid, path) is Some,
    ensures
        siblings_at(now, path) == siblings_at(was, path),
{
    let bytes = insert->InsertBytes_count;
    let pad = added_bytes_lie_where_asked(
        insert,
        was,
        mid,
        kinds,
        width,
        path,
        bytes,
        false,
    );
    lemma_siblings_spliced(
        was,
        mid,
        path,
        false,
        0,
        choose|pad: Seq<Node>|
            #[trigger] spliced_at(was, mid, path, false, 0, pad) && pads(pad, bytes as nat),
    );
    lemma_siblings_spliced(mid, now, path, false, pad.len(), Seq::empty());
    assert(siblings_at(now, path) =~= siblings_at(was, path));
}

/// A field that is given another type stays where it is and keeps its name and its
/// comment; its neighbours stay as they are.
pub proof fn retyped_field_keeps_its_place(
    op: NodeEditOp,
    was: Seq<Node>,
    now: Seq<Node>,
    kinds: Seq<NodeKind>,
    width: usize,
    path: Seq<usize>,
    tag: Seq<char>,
)
    requires
        fields_edited(op, was, now, kinds, width),
        op matches NodeEditOp::ChangeType { path: p, new_tag, .. } && p@ == path && new_tag@ == tag,
        node_at(was, path) is Some,
        kind_tagged(kinds, tag) is Some,
    ensures
        ({
            let a = siblings_at(was, path);
            let b = siblings_at(now, path);
            let i = path.last() as int;
            &&& b.len() == a.len()
            &&& forall|k: int| 0 <= k < a.len() && k != i ==> #[trigger] b[k] == a[k]
            &&& b[i].tag@ == tag
            &&& b[i].name@ == a[i].name@
            &&& b[i].comment@ == a[i].comment@
            &&& b[i].instance is None
            &&& b[i].pointer_target is None
            &&& exists|j: int|
                0 <= j < kinds.len() && (#[trigger] kinds[j]).tag@ == tag && b[i].memory_size == (
                if kinds[j].pointer_sized {
                    width
                } else {
                    kinds[j].memory_size
                })
        }),
{
    let n = choose|n: Node|
        #[trigger] spliced_at(was, now, path, false, 1, seq![n]) && crate::node_edit::made(
            n,
            kind_tagged(kinds, tag)->0,
            node_at(was, path)->0.name@,
            node_at(was, path)->0.comment@,
            width,
            None,
        );
    assert(spliced_at(was, now, path, false, 1, seq![n]));
    lemma_siblings_spliced(was, now, path, false, 1, seq![n]);
    lemma_kind_tagged(kinds, tag);
}

proof fn lemma_kind_tagged(kinds: Seq<NodeKind>, tag: Seq<char>)
    ensures
        kind_tagged(kinds, tag) matches Some(k) ==> k.tag@ == tag && exists|j: int|
            0 <= j < kinds.len() && #[trigger] kinds[j] == k,
        kind_tagged(kinds, tag) is None ==> forall|j: int|
            0 <= j < kinds.len() ==> (#[trigger] kinds[j]).tag@ != tag,
    decreases kinds.len(),
{
    if kinds.len() > 0 {
        let rest = kinds.subrange(1, kinds.len() as int);
        lemma_kind_tagged(rest, tag);
        assert forall|j: int| 0 < j < kinds.len() implies #[trigger] kinds[j] == rest[j - 1] by {}
        if kinds[0].tag@ != tag && kind_tagged(rest, tag) is Some {
            let j = choose|j: int| 0 <= j < rest.len() && #[trigger] rest[j] == kind_tagged(
                rest,
                tag,
            )->0;
            assert(kinds[j + 1] == rest[j]);
        }
    }
}

/// What is set on a field is found there again, and nothing else about it changes.
pub proof fn set_property_is_found(
    op: NodeEditOp,
    was: Seq<Node>,
    now: Seq<Node>,
    kinds: Seq<NodeKind>,
    width: usize,
    path: Seq<usize>,
)
    requires
        fields_edited(op, was, now, kinds, width),
        node_at(was, path) is Some,
        match op {
            NodeEditOp::SetName { path: p, .. } => p@ == path,
            NodeEditOp::SetComment { path: p, .. } => p@ == path,
            NodeEditOp::SetHidden { path: p, .. } => p@ == path,
            NodeEditOp::SetPtrTarget { path: p, .. } => p@ == path,
            _ => false,
        },
    ensures
        node_at(now, path) matches Some(n) && {
            let o = node_at(was, path)->0;
            &&& match op {
                NodeEditOp::SetName { name, .. } => n.name@ == name@,
                _ => n.name == o.name,
            }
            &&& match op {
                NodeEditOp::SetComment { comment, .. } => n.comment@ == comment@,
                _ => n.comment == o.comment,
            }
            &&& match op {
                NodeEditOp::SetHidden { hidden, .. } => n.hidden == hidden,
                _ => n.hidden == o.hidden,
            }
            &&& match op {
                NodeEditOp::SetPtrTarget { target, .. } => n.pointer_target == target,
                _ => n.pointer_target == o.pointer_target,
            }
            &&& n.tag == o.tag
            &&& n.memory_size == o.memory_size
            &&& n.children == o.children
            &&& n.instance == o.instance
            &&& n.shape == o.shape
        },
{
    let o = node_at(was, path)->0;
    match op {
        NodeEditOp::SetName { name, .. } => {
            change_is_read_back(was, now, path, Node { name, ..o });
        },
        NodeEditOp::SetComment { comment, .. } => {
            change_is_read_back(was, now, path, Node { comment, ..o });
        },
        NodeEditOp::SetHidden { hidden, .. } => {
            change_is_read_back(was, now, path, Node { hidden, ..o });
        },
        NodeEditOp::SetPtrTarget { target, .. } => {
            change_is_read_back(was, now, path, Node { pointer_target: target, ..o });
        },
        _ => {},
    }
}

/// A class that is made out of fields holds just those fields, in their order. In
/// their place stands one field that embeds the class, and the others stay.
pub proof fn extracted_class_holds_the_fields(
    was: Seq<Node>,
    now: Seq<Node>,
    taken: Seq<Node>,
    paths: Seq<Vec<usize>>,
    name: Seq<char>,
    kinds: Seq<NodeKind>,
    width: usize,
    fresh: u128,
    first: Seq<usize>,
)
    requires
        kind_tagged(kinds, "ClassInstance"@) is Some,
        is_run_from(paths, first),
        node_at(was, first) is Some,
        first.last() + paths.len() <= siblings_at(was, first).len(),
        extracted(
            was,
            now,
            taken,
            paths,
            name,
            kind_tagged(kinds, "ClassInstance"@)->0,
            width,
            fresh,
        ),
    ensures
        ({
            let a = siblings_at(was, first);
            let b = siblings_at(now, first);
            let i = first.last() as int;
            let n = paths.len() as int;
            &&& taken == a.subrange(i, i + n)
            &&& b.len() == a.len() - n + 1
            &&& forall|k: int| 0 <= k < i ==> #[trigger] b[k] == a[k]
            &&& forall|k: int| i < k < b.len() ==> #[trigger] b[k] == a[k + n - 1]
            &&& b[i].tag@ == "ClassInstance"@
            &&& b[i].instance == Some(fresh)
            &&& b[i].name@ == ascii_lower(name)
        }),
{
    let kind = kind_tagged(kinds, "ClassInstance"@)->0;
    let (f, n) = choose|f: Seq<usize>, n: Node|
        {
            &&& is_run_from(paths, f)
            &&& #[trigger] spliced_at(was, now, f, false, paths.len(), seq![n])
            &&& crate::node_edit::made(
                n,
                kind,
                ascii_lower(name),
                Seq::empty(),
                width,
                Some(fresh),
            )
            &&& taken == siblings_at(was, f).subrange(f.last() as int, f.last() + paths.len())
        };
    assert(spliced_at(was, now, f, false, paths.len(), seq![n]));
    crate::node_edit::run_has_one_start(paths, f, first);
    assert(f == first);
    lemma_siblings_spliced(was, now, first, false, paths.len(), seq![n]);
    lemma_kind_tagged(kinds, "ClassInstance"@);
}

/// An edit touches the fields of the class that it names, and nothing else: no other
/// class, no name, no address and no order of classes changes. Making a class out of
/// fields adds that class at the end. An edit that is refused changes nothing.
pub proof fn edit_stays_in_its_class(
    op: NodeEditOp,
    was: Project,
    now: Project,
    kinds: Seq<NodeKind>,
    fresh: u128,
    owner: u128,
    j: int,
)
    requires
        edit_step(was, op, now, kinds, fresh),
        owner == (match op {
            NodeEditOp::SetName { owner, .. } => owner,
            NodeEditOp::SetComment { owner, .. } => owner,
            NodeEditOp::ChangeType { owner, .. } => owner,
            NodeEditOp::AddBytes { owner, .. } => owner,
            NodeEditOp::AppendBytes { owner, .. } => owner,
            NodeEditOp::InsertBytes { owner, .. } => owner,
            NodeEditOp::DeleteRange { owner, .. } => owner,
            NodeEditOp::SetHidden { owner, .. } => owner,
            NodeEditOp::SetPtrTarget { owner, .. } => owner,
            NodeEditOp::SetInstance { owner, .. } => owner,
            NodeEditOp::ExtractClass { owner, .. } => owner,
        }),
        0 <= j < was.classes@.len(),
    ensures
        edit_refusal(op, was, kinds) is Some ==> now == was,
        now.name == was.name,
        now.enums == was.enums,
        now.pointer_size == was.pointer_size,
        now.classes@.len() == was.classes@.len() + (if op is ExtractClass && edit_refusal(
            op,
            was,
            kinds,
        ) is None {
            1int
        } else {
            0
        }),
        now.classes@[j].id == was.classes@[j].id,
        now.classes@[j].name == was.classes@[j].name,
        now.classes@[j].comment == was.classes@[j].comment,
        now.classes@[j].address_formula == was.classes@[j].address_formula,
        was.classes@[j].id != owner ==> now.classes@[j] == was.classes@[j],
{
    reveal(edit_step);
    reveal(edit_refusal);
    lemma_class_index(was.classes@, owner);
    if edit_refusal(op, was, kinds) is None {
        let i = class_index(was.classes@, owner)->0;
        if op is ExtractClass {
            let kept = now.classes@.drop_last();
            assert(kept[j] == now.classes@[j]);
            assert(same_but_fields(was.classes@, kept, i));
        } else {
            assert(same_but_fields(was.classes@, now.classes@, i));
        }
    }
}

/// A field that is made to embed a class embeds that class from then on, in its old
/// place and under its old name; its neighbours stay as they are.
pub proof fn embedded_class_is_found(
    op: NodeEditOp,
    was: Seq<Node>,
    now: Seq<Node>,
    kinds: Seq<NodeKind>,
    width: usize,
    path: Seq<usize>,
    class: u128,
)
    requires
        fields_edited(op, was, now, kinds, width),
        op matches NodeEditOp::SetInstance { path: p, target, .. } && p@ == path && target == class,
        node_at(was, path) is Some,
        kind_tagged(kinds, "ClassInstance"@) is Some,
    ensures
        ({
            let a = siblings_at(was, path);
            let b = siblings_at(now, path);
            let i = path.last() as int;
            &&& b.len() == a.len()
            &&& forall|k: int| 0 <= k < a.len() && k != i ==> #[trigger] b[k] == a[k]
            &&& b[i].instance_target() == Some(class)
            &&& b[i].name@ == a[i].name@
            &&& b[i].comment@ == a[i].comment@
        }),
{
    let n = choose|n: Node|
        #[trigger] spliced_at(was, now, path, false, 1, seq![n]) && crate::node_edit::made(
            n,
            kind_tagged(kinds, "ClassInstance"@)->0,
            node_at(was, path)->0.name@,
            node_at(was, path)->0.comment@,
            width,
            Some(class),
        );
    assert(spliced_at(was, now, path, false, 1, seq![n]));
    lemma_siblings_spliced(was, now, path, false, 1, seq![n]);
    lemma_kind_tagged(kinds, "ClassInstance"@);
}

} // verus!

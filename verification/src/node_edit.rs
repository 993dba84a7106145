//! Changes to the fields of a project, and undoing them.
use vstd::prelude::*;

use crate::class_actions::{copy_path, NodeEditOp};
use crate::host_classes::{
    construct, kind_tagged, lemma_same_index, pads, same_but_fields, NodeKind,
};
use crate::model::{
    class_index, hex_fill, lemma_class_index, ClassNode, Node, Project,
};
use crate::node_copy::{copy_project, project_copied};
use crate::node_path::{
    change_node, changed, find_node, has_node, node_at, replaced_at, siblings_at, splice_nodes, spliced_at,
    NodeChange,
};
use crate::text::{ascii_lower, ascii_lower_exec, chars_of, same_str, string_of};

verus! {

/// Why a change is refused.
#[derive(Clone, Copy, Debug, PartialEq, Eq, Structural)]
pub enum EditRefusal {
    /// There is no such field.
    NoRow,
    /// There is no such type.
    NoType,
    /// The field cannot point at a class.
    NoTarget,
    /// The fields do not lie side by side.
    NotContiguous,
}

impl EditRefusal {
    pub open spec fn text(self) -> Seq<char> {
        match self {
            EditRefusal::NoRow => "The field no longer exists."@,
            EditRefusal::NoType => "There is no such type."@,
            EditRefusal::NoTarget => "The field cannot point at a class."@,
            EditRefusal::NotContiguous => "Only contiguous fields can be moved into a new class."@,
        }
    }

    pub fn message(self) -> (s: &'static str)
        ensures
            s@ == self.text(),
    {
        match self {
            EditRefusal::NoRow => "The field no longer exists.",
            EditRefusal::NoType => "There is no such type.",
            EditRefusal::NoTarget => "The field cannot point at a class.",
            EditRefusal::NotContiguous => "Only contiguous fields can be moved into a new class.",
        }
    }
}

/// The class that a change is about.
pub open spec fn op_owner(op: NodeEditOp) -> u128 {
    match op {
        NodeEditOp::SetName { owner, .. } => owner,
        NodeEditOp::SetComment { owner, .. } => owner,
        NodeEditOp::ChangeType { owner, .. } => owner,
        NodeEditOp::AddBytes { owner, .. } => owner,
        NodeEditOp::AppendBytes { owner, .. } => owner,
        NodeEditOp::InsertBytes { owner, .. } => owner,
        NodeEditOp::DeleteRange { owner, .. } => owner,
        NodeEditOp::SetHidden { owner, .. } => owner,
        NodeEditOp::SetPtrTarget { owner, .. } => owner,
        NodeEditOp::SetInstance { owner, .. } => owner,
        NodeEditOp::ExtractClass { owner, .. } => owner,
    }
}

fn op_owner_exec(op: &NodeEditOp) -> (owner: u128)
    ensures
        owner == op_owner(*op),
{
    match op {
        NodeEditOp::SetName { owner, .. } => *owner,
        NodeEditOp::SetComment { owner, .. } => *owner,
        NodeEditOp::ChangeType { owner, .. } => *owner,
        NodeEditOp::AddBytes { owner, .. } => *owner,
        NodeEditOp::AppendBytes { owner, .. } => *owner,
        NodeEditOp::InsertBytes { owner, .. } => *owner,
        NodeEditOp::DeleteRange { owner, .. } => *owner,
        NodeEditOp::SetHidden { owner, .. } => *owner,
        NodeEditOp::SetPtrTarget { owner, .. } => *owner,
        NodeEditOp::SetInstance { owner, .. } => *owner,
        NodeEditOp::ExtractClass { owner, .. } => *owner,
    }
}

/// Some path ends in the child `v`.
pub open spec fn ends_in(paths: Seq<Vec<usize>>, v: int) -> bool {
    exists|j: int| 0 <= j < paths.len() && (#[trigger] paths[j])@.last() == v
}

/// The paths lead to fields that lie side by side, the first of them at `first`:
/// they share all levels but the last, and there they take as many children in a
/// row as there are paths, in any order.
pub open spec fn is_run_from(paths: Seq<Vec<usize>>, first: Seq<usize>) -> bool {
    &&& paths.len() > 0
    &&& first.len() > 0
    &&& forall|j: int|
        0 <= j < paths.len() ==> {
            let p = (#[trigger] paths[j])@;
            &&& p.len() == first.len()
            &&& p.drop_last() == first.drop_last()
            &&& first.last() <= p.last() < first.last() + paths.len()
        }
    &&& forall|k: int| 0 <= k < paths.len() ==> #[trigger] ends_in(paths, first.last() + k)
}

/// The paths lead to fields that lie side by side.
pub open spec fn contiguous(paths: Seq<Vec<usize>>) -> bool {
    exists|first: Seq<usize>| is_run_from(paths, first)
}

/// Fields that lie side by side start at one place only.
pub proof fn run_has_one_start(paths: Seq<Vec<usize>>, a: Seq<usize>, b: Seq<usize>)
    requires
        is_run_from(paths, a),
        is_run_from(paths, b),
    ensures
        a == b,
{
    assert(ends_in(paths, a.last() + 0));
    assert(ends_in(paths, b.last() + 0));
    let p = paths[0]@;
    assert(p.len() == a.len() && p.drop_last() == a.drop_last());
    assert(p.len() == b.len() && p.drop_last() == b.drop_last());
    assert(a =~= a.drop_last().push(a.last()));
    assert(b =~= b.drop_last().push(b.last()));
}

fn same_parent(a: &Vec<usize>, b: &Vec<usize>) -> (r: bool)
    requires
        a@.len() > 0,
    ensures
        r == (a@.len() == b@.len() && a@.drop_last() == b@.drop_last()),
{
    if a.len() != b.len() {
        return false;
    }
    let n: usize = a.len() - 1;
    let mut i: usize = 0;
    while i < n
        invariant
            i <= n,
            n == a@.len() - 1,
            a@.len() == b@.len(),
            forall|k: int| 0 <= k < i ==> a@[k] == b@[k],
        decreases n - i,
    {
        if a[i] != b[i] {
            proof {
                assert(a@.drop_last()[i as int] != b@.drop_last()[i as int]);
            }
            return false;
        }
        i += 1;
    }
    assert(a@.drop_last() =~= b@.drop_last());
    true
}

/// Where the fields at the paths start, where they lie side by side.
pub fn run_start(paths: &Vec<Vec<usize>>) -> (r: Option<Vec<usize>>)
    ensures
        match r {
            Some(first) => is_run_from(paths@, first@),
            None => !contiguous(paths@),
        },
{
    let n: usize = paths.len();
    if n == 0 {
        assert(forall|f: Seq<usize>| !is_run_from(paths@, f));
        return None;
    }
    let mut m: usize = 0;
    let mut i: usize = 0;
    while i < n
        invariant
            n == paths@.len(),
            i <= n,
            m < n,
            forall|j: int|
                0 <= j < i ==> {
                    let p = (#[trigger] paths@[j])@;
                    &&& p.len() > 0
                    &&& p.len() == paths@[0]@.len()
                    &&& p.drop_last() == paths@[0]@.drop_last()
                    &&& paths@[m as int]@.last() <= p.last()
                },
            i > 0 ==> m < i,
            i == 0 ==> m == 0,
        decreases n - i,
    {
        if paths[i].len() == 0 || !same_parent(&paths[i], &paths[0]) {
            proof {
                assert forall|f: Seq<usize>| !is_run_from(paths@, f) by {
                    if is_run_from(paths@, f) {
                        assert(paths@[i as int]@.len() == f.len());
                        assert(paths@[0]@.drop_last() == f.drop_last());
                    }
                }
            }
            return None;
        }
        let last: usize = paths[i][paths[i].len() - 1];
        if last < paths[m][paths[m].len() - 1] {
            m = i;
        }
        i += 1;
    }
    let first = copy_path(&paths[m]);
    let lo: usize = first[first.len() - 1];
    proof {
        assert forall|f: Seq<usize>| #[trigger] is_run_from(paths@, f) implies f == first@ by {
            assert(ends_in(paths@, f.last() + 0));
            let j = choose|j: int|
                0 <= j < paths@.len() && (#[trigger] paths@[j])@.last() == f.last() + 0;
            assert(paths@[m as int]@.last() <= paths@[j]@.last());
            assert(f.last() <= paths@[m as int]@.last());
            assert(f =~= f.drop_last().push(f.last()));
            assert(first@ =~= first@.drop_last().push(first@.last()));
        }
    }
    let mut k: usize = 0;
    while k < n
        invariant
            n == paths@.len(),
            k <= n,
            lo == first@.last(),
            first@.len() > 0,
            forall|j: int| 0 <= j < n ==> lo <= (#[trigger] paths@[j])@.last(),
            forall|j: int|
                0 <= j < n ==> (#[trigger] paths@[j])@.len() == first@.len() && paths@[j]@.drop_last()
                    == first@.drop_last(),
            forall|j: int| 0 <= j < k ==> (#[trigger] paths@[j])@.last() < lo + n,
            forall|v: int| 0 <= v < k ==> #[trigger] ends_in(paths@, lo + v),
            forall|f: Seq<usize>| #[trigger] is_run_from(paths@, f) ==> f == first@,
        decreases n - k,
    {
        let end: usize = paths[k][paths[k].len() - 1];
        let mut found = false;
        let mut j: usize = 0;
        while j < n && !found
            invariant
                n == paths@.len(),
                j <= n,
                forall|i: int| 0 <= i < n ==> (#[trigger] paths@[i])@.len() > 0,
                forall|i: int| 0 <= i < n ==> lo <= (#[trigger] paths@[i])@.last(),
                found ==> ends_in(paths@, lo + k),
                !found ==> forall|i: int|
                    0 <= i < j ==> (#[trigger] paths@[i])@.last() != lo + k,
            decreases n - j,
        {
            if paths[j][paths[j].len() - 1] - lo == k {
                found = true;
                assert(paths@[j as int]@.last() == lo + k);
            }
            j += 1;
        }
        if end - lo >= n || !found {
            proof {
                if is_run_from(paths@, first@) {
                    assert(paths@[k as int]@.last() < first@.last() + n);
                    assert(ends_in(paths@, first@.last() + k));
                }
                assert(!contiguous(paths@));
            }
            return None;
        }
        k += 1;
    }
    assert(is_run_from(paths@, first@));
    Some(first)
}

/// The bytes of a node of a kind in a project whose pointers have that width.
pub open spec fn kind_width(kind: NodeKind, width: usize) -> usize {
    if kind.pointer_sized {
        width
    } else {
        kind.memory_size
    }
}

/// `n` is a fresh node of a kind with a name and a comment, as wide as the
/// project's pointers where it is as wide as a pointer.
pub open spec fn made(
    n: Node,
    kind: NodeKind,
    name: Seq<char>,
    comment: Seq<char>,
    width: usize,
    instance: Option<u128>,
) -> bool {
    &&& n.tag@ == kind.tag@
    &&& n.name@ == name
    &&& n.comment@ == comment
    &&& !n.hidden
    &&& n.memory_size == kind_width(kind, width)
    &&& n.container == kind.container
    &&& n.children@.len() == 0
    &&& n.instance == instance
    &&& n.pointer_target is None
    &&& n.takes_target == kind.takes_target
    &&& n.pointer_sized == kind.pointer_sized
    &&& n.shape == kind.shape
}

/// Makes a node of the kind with that tag.
fn make(
    kinds: &Vec<NodeKind>,
    tag: &str,
    name: String,
    comment: String,
    width: usize,
    instance: Option<u128>,
) -> (r: Option<Node>)
    ensures
        match r {
            Some(n) => kind_tagged(kinds@, tag@) matches Some(k) && made(
                n,
                k,
                name@,
                comment@,
                width,
                instance,
            ),
            None => kind_tagged(kinds@, tag@) is None,
        },
{
    match construct(kinds, tag, Some(name), Some(comment)) {
        Some(n) => {
            let mut n = n;
            if n.pointer_sized {
                n.memory_size = width;
            }
            n.instance = instance;
            Some(n)
        },
        None => None,
    }
}

/// Why a change to the fields of a class is refused, if it is.
pub open spec fn fields_refusal(
    op: NodeEditOp,
    was: Seq<Node>,
    kinds: Seq<NodeKind>,
) -> Option<EditRefusal> {
    match op {
        NodeEditOp::SetName { path, .. } => missing(was, path@),
        NodeEditOp::SetComment { path, .. } => missing(was, path@),
        NodeEditOp::SetHidden { path, .. } => missing(was, path@),
        NodeEditOp::AddBytes { path, .. } => missing(was, path@),
        NodeEditOp::InsertBytes { path, .. } => missing(was, path@),
        NodeEditOp::DeleteRange { path, .. } => missing(was, path@),
        NodeEditOp::AppendBytes { .. } => None,
        NodeEditOp::ChangeType { path, new_tag, .. } => if node_at(was, path@) is None {
            Some(EditRefusal::NoRow)
        } else if kind_tagged(kinds, new_tag@) is None {
            Some(EditRefusal::NoType)
        } else {
            None
        },
        NodeEditOp::SetPtrTarget { path, .. } => match node_at(was, path@) {
            None => Some(EditRefusal::NoRow),
            Some(n) => if n.takes_target {
                None
            } else {
                Some(EditRefusal::NoTarget)
            },
        },
        NodeEditOp::SetInstance { path, .. } => if node_at(was, path@) is None {
            Some(EditRefusal::NoRow)
        } else if kind_tagged(kinds, "ClassInstance"@) is None {
            Some(EditRefusal::NoType)
        } else {
            None
        },
        NodeEditOp::ExtractClass { paths, .. } => if !contiguous(paths@) {
            Some(EditRefusal::NotContiguous)
        } else if exists|j: int|
            0 <= j < paths@.len() && node_at(was, (#[trigger] paths@[j])@) is None {
            Some(EditRefusal::NoRow)
        } else if kind_tagged(kinds, "ClassInstance"@) is None {
            Some(EditRefusal::NoType)
        } else {
            None
        },
    }
}

/// A change to a field that is missing is refused.
pub open spec fn missing(was: Seq<Node>, path: Seq<usize>) -> Option<EditRefusal> {
    if node_at(was, path) is None {
        Some(EditRefusal::NoRow)
    } else {
        None
    }
}

/// `now` are the fields `was` after a change that is not refused and makes no
/// class. A field of another type keeps its name and comment.
pub open spec fn fields_edited(
    op: NodeEditOp,
    was: Seq<Node>,
    now: Seq<Node>,
    kinds: Seq<NodeKind>,
    width: usize,
) -> bool {
    match op {
        NodeEditOp::SetName { path, name, .. } => replaced_at(
            was,
            now,
            path@,
            changed(node_at(was, path@)->0, NodeChange::Name(name)),
        ),
        NodeEditOp::SetComment { path, comment, .. } => replaced_at(
            was,
            now,
            path@,
            changed(node_at(was, path@)->0, NodeChange::Comment(comment)),
        ),
        NodeEditOp::SetHidden { path, hidden, .. } => replaced_at(
            was,
            now,
            path@,
            changed(node_at(was, path@)->0, NodeChange::Hidden(hidden)),
        ),
        NodeEditOp::SetPtrTarget { path, target, .. } => replaced_at(
            was,
            now,
            path@,
            Node { pointer_target: target, ..node_at(was, path@)->0 },
        ),
        NodeEditOp::ChangeType { path, new_tag, .. } => retyped(
            was,
            now,
            path@,
            kind_tagged(kinds, new_tag@)->0,
            width,
            None,
        ),
        NodeEditOp::SetInstance { path, target, .. } => retyped(
            was,
            now,
            path@,
            kind_tagged(kinds, "ClassInstance"@)->0,
            width,
            Some(target),
        ),
        NodeEditOp::AddBytes { path, count, .. } => exists|pad: Seq<Node>|
            #[trigger] spliced_at(was, now, path@, true, 0, pad) && pads(pad, count as nat),
        NodeEditOp::InsertBytes { path, count, .. } => exists|pad: Seq<Node>|
            #[trigger] spliced_at(was, now, path@, false, 0, pad) && pads(pad, count as nat),
        NodeEditOp::AppendBytes { count, .. } => {
            &&& now.len() >= was.len()
            &&& now.subrange(0, was.len() as int) == was
            &&& pads(now.subrange(was.len() as int, now.len() as int), count as nat)
        },
        NodeEditOp::DeleteRange { path, count, .. } => spliced_at(
            was,
            now,
            path@,
            false,
            count as nat,
            Seq::empty(),
        ),
        NodeEditOp::ExtractClass { .. } => false,
    }
}

/// The field at a path is now one of another kind with the same name and comment.
pub open spec fn retyped(
    was: Seq<Node>,
    now: Seq<Node>,
    path: Seq<usize>,
    kind: NodeKind,
    width: usize,
    instance: Option<u128>,
) -> bool {
    exists|n: Node|
        #[trigger] spliced_at(was, now, path, false, 1, seq![n]) && made(
            n,
            kind,
            node_at(was, path)->0.name@,
            node_at(was, path)->0.comment@,
            width,
            instance,
        )
}

/// Whether there is a kind with that tag.
fn has_kind(kinds: &Vec<NodeKind>, tag: &str) -> (r: bool)
    ensures
        r == (kind_tagged(kinds@, tag@) is Some),
{
    let mut i: usize = 0;
    assert(kinds@.subrange(0, kinds@.len() as int) =~= kinds@);
    while i < kinds.len()
        invariant
            i <= kinds@.len(),
            kind_tagged(kinds@, tag@) == kind_tagged(
                kinds@.subrange(i as int, kinds@.len() as int),
                tag@,
            ),
        decreases kinds@.len() - i,
    {
        proof {
            let rest = kinds@.subrange(i as int, kinds@.len() as int);
            assert(rest.subrange(1, rest.len() as int) =~= kinds@.subrange(
                i + 1,
                kinds@.len() as int,
            ));
        }
        if same_str(kinds[i].tag.as_str(), tag) {
            return true;
        }
        i += 1;
    }
    false
}

fn missing_exec(children: &Vec<Node>, path: &Vec<usize>) -> (r: Option<EditRefusal>)
    ensures
        r == missing(children@, path@),
{
    if has_node(children, path.as_slice()) {
        None
    } else {
        Some(EditRefusal::NoRow)
    }
}

fn retype_refusal(
    children: &Vec<Node>,
    path: &Vec<usize>,
    tag: &str,
    kinds: &Vec<NodeKind>,
) -> (r: Option<EditRefusal>)
    ensures
        r == if node_at(children@, path@) is None {
            Some(EditRefusal::NoRow)
        } else if kind_tagged(kinds@, tag@) is None {
            Some(EditRefusal::NoType)
        } else {
            None
        },
{
    if !has_node(children, path.as_slice()) {
        Some(EditRefusal::NoRow)
    } else if !has_kind(kinds, tag) {
        Some(EditRefusal::NoType)
    } else {
        None
    }
}

fn extract_refusal(children: &Vec<Node>, paths: &Vec<Vec<usize>>, kinds: &Vec<NodeKind>) -> (r:
    Option<EditRefusal>)
    ensures
        r == if !contiguous(paths@) {
            Some(EditRefusal::NotContiguous)
        } else if exists|j: int|
            0 <= j < paths@.len() && node_at(children@, (#[trigger] paths@[j])@) is None {
            Some(EditRefusal::NoRow)
        } else if kind_tagged(kinds@, "ClassInstance"@) is None {
            Some(EditRefusal::NoType)
        } else {
            None
        },
{
    match run_start(paths) {
        Some(first) => {
            assert(is_run_from(paths@, first@));
        },
        None => {
            return Some(EditRefusal::NotContiguous);
        },
    }
    let mut i: usize = 0;
    while i < paths.len()
        invariant
            i <= paths@.len(),
            contiguous(paths@),
            forall|j: int| 0 <= j < i ==> node_at(children@, (#[trigger] paths@[j])@) is Some,
        decreases paths@.len() - i,
    {
        if !has_node(children, paths[i].as_slice()) {
            assert(node_at(children@, paths@[i as int]@) is None);
            return Some(EditRefusal::NoRow);
        }
        i += 1;
    }
    if has_kind(kinds, "ClassInstance") {
        None
    } else {
        Some(EditRefusal::NoType)
    }
}

fn fields_refusal_exec(op: &NodeEditOp, children: &Vec<Node>, kinds: &Vec<NodeKind>) -> (r: Option<
    EditRefusal,
>)
    ensures
        r == fields_refusal(*op, children@, kinds@),
{
    match op {
        NodeEditOp::SetName { path, .. } => missing_exec(children, path),
        NodeEditOp::SetComment { path, .. } => missing_exec(children, path),
        NodeEditOp::SetHidden { path, .. } => missing_exec(children, path),
        NodeEditOp::AddBytes { path, .. } => missing_exec(children, path),
        NodeEditOp::InsertBytes { path, .. } => missing_exec(children, path),
        NodeEditOp::DeleteRange { path, .. } => missing_exec(children, path),
        NodeEditOp::AppendBytes { .. } => None,
        NodeEditOp::ChangeType { path, new_tag, .. } => retype_refusal(
            children,
            path,
            new_tag.as_str(),
            kinds,
        ),
        NodeEditOp::SetInstance { path, .. } => retype_refusal(
            children,
            path,
            "ClassInstance",
            kinds,
        ),
        NodeEditOp::SetPtrTarget { path, .. } => match find_node(children, path.as_slice()) {
            None => Some(EditRefusal::NoRow),
            Some(n) => if n.takes_target {
                None
            } else {
                Some(EditRefusal::NoTarget)
            },
        },
        NodeEditOp::ExtractClass { paths, .. } => extract_refusal(children, paths, kinds),
    }
}

/// Changes one field, or puts padding next to it.
fn edit_fields(children: &mut Vec<Node>, op: &NodeEditOp, kinds: &Vec<NodeKind>, width: usize)
    requires
        op !is ExtractClass,
        fields_refusal(*op, old(children)@, kinds@) is None,
    ensures
        fields_edited(*op, old(children)@, final(children)@, kinds@, width),
{
    let ghost was = children@;
    match op {
        NodeEditOp::SetName { path, name, .. } => {
            change_node(children, path.as_slice(), NodeChange::Name(name.clone()));
        },
        NodeEditOp::SetComment { path, comment, .. } => {
            change_node(children, path.as_slice(), NodeChange::Comment(comment.clone()));
        },
        NodeEditOp::SetHidden { path, hidden, .. } => {
            change_node(children, path.as_slice(), NodeChange::Hidden(*hidden));
        },
        NodeEditOp::SetPtrTarget { path, target, .. } => {
            let change = match target {
                Some(t) => NodeChange::Target(*t),
                None => NodeChange::NoTarget,
            };
            change_node(children, path.as_slice(), change);
        },
        NodeEditOp::ChangeType { path, new_tag, .. } => {
            retype(children, path, new_tag.as_str(), kinds, width, None);
        },
        NodeEditOp::SetInstance { path, target, .. } => {
            retype(children, path, "ClassInstance", kinds, width, Some(*target));
        },
        NodeEditOp::AddBytes { path, count, .. } => {
            splice_nodes(children, path.as_slice(), true, 0, hex_fill(*count));
        },
        NodeEditOp::InsertBytes { path, count, .. } => {
            splice_nodes(children, path.as_slice(), false, 0, hex_fill(*count));
        },
        NodeEditOp::AppendBytes { count, .. } => {
            let mut pad = hex_fill(*count);
            let ghost fill = pad@;
            children.append(&mut pad);
            proof {
                assert(children@.subrange(0, was.len() as int) =~= was);
                assert(children@.subrange(was.len() as int, children@.len() as int) =~= fill);
            }
        },
        NodeEditOp::DeleteRange { path, count, .. } => {
            let none: Vec<Node> = Vec::new();
            assert(none@ =~= Seq::<Node>::empty());
            splice_nodes(children, path.as_slice(), false, *count, none);
        },
        NodeEditOp::ExtractClass { .. } => {},
    }
}

fn retype(
    children: &mut Vec<Node>,
    path: &Vec<usize>,
    tag: &str,
    kinds: &Vec<NodeKind>,
    width: usize,
    instance: Option<u128>,
)
    requires
        node_at(old(children)@, path@) is Some,
        kind_tagged(kinds@, tag@) is Some,
    ensures
        retyped(
            old(children)@,
            final(children)@,
            path@,
            kind_tagged(kinds@, tag@)->0,
            width,
            instance,
        ),
{
    if let Some(n) = find_node(children, path.as_slice()) {
        let name = n.name.clone();
        let comment = n.comment.clone();
        if let Some(n) = make(kinds, tag, name, comment, width, instance) {
            let nodes: Vec<Node> = vec![n];
            assert(nodes@ =~= seq![n]);
            splice_nodes(children, path.as_slice(), false, 1, nodes);
        }
    }
}

/// `now` are the fields `was` after those at the paths became one that embeds the
/// class `fresh`. It is named like the class, in lower case. `taken` are the
/// fields that were there.
pub open spec fn extracted(
    was: Seq<Node>,
    now: Seq<Node>,
    taken: Seq<Node>,
    paths: Seq<Vec<usize>>,
    name: Seq<char>,
    kind: NodeKind,
    width: usize,
    fresh: u128,
) -> bool {
    exists|first: Seq<usize>, n: Node|
        {
            &&& is_run_from(paths, first)
            &&& #[trigger] spliced_at(was, now, first, false, paths.len(), seq![n])
            &&& made(n, kind, ascii_lower(name), Seq::empty(), width, Some(fresh))
            &&& taken == siblings_at(was, first).subrange(
                first.last() as int,
                first.last() + paths.len(),
            )
        }
}

/// Paths that differ in the last level only have the same siblings, and a path
/// that leads to a field ends among them.
proof fn lemma_siblings(children: Seq<Node>, a: Seq<usize>, b: Seq<usize>)
    requires
        a.len() > 0,
        a.len() == b.len(),
        a.drop_last() == b.drop_last(),
        node_at(children, a) is Some,
    ensures
        siblings_at(children, a) == siblings_at(children, b),
        a.last() < siblings_at(children, a).len(),
    decreases a.len(),
{
    if a.len() > 1 {
        assert(a.drop_last()[0] == b.drop_last()[0]);
        assert(a.drop_last()[0] == a[0] && b.drop_last()[0] == b[0]);
        let x = a.subrange(1, a.len() as int);
        let y = b.subrange(1, b.len() as int);
        assert(x.drop_last() =~= a.drop_last().subrange(1, a.len() - 1));
        assert(y.drop_last() =~= b.drop_last().subrange(1, b.len() - 1));
        lemma_siblings(children[a[0] as int].children@, x, y);
    }
}

/// Takes the fields at the paths out and puts one in their place that embeds the
/// class `fresh`.
fn extract_fields(
    children: &mut Vec<Node>,
    paths: &Vec<Vec<usize>>,
    name: &String,
    kinds: &Vec<NodeKind>,
    width: usize,
    fresh: u128,
) -> (taken: Vec<Node>)
    requires
        contiguous(paths@),
        forall|j: int|
            0 <= j < paths@.len() ==> node_at(old(children)@, (#[trigger] paths@[j])@) is Some,
        kind_tagged(kinds@, "ClassInstance"@) is Some,
    ensures
        extracted(
            old(children)@,
            final(children)@,
            taken@,
            paths@,
            name@,
            kind_tagged(kinds@, "ClassInstance"@)->0,
            width,
            fresh,
        ),
{
    let ghost was = children@;
    let n: usize = paths.len();
    let field = string_of(ascii_lower_exec(chars_of(name.as_str()).as_slice()).as_slice());
    let comment = String::new();
    if let (Some(first), Some(node)) = (
        run_start(paths),
        make(kinds, "ClassInstance", field, comment, width, Some(fresh)),
    ) {
        proof {
            assert(ends_in(paths@, first@.last() + 0));
            let j = choose|j: int|
                0 <= j < paths@.len() && (#[trigger] paths@[j])@.last() == first@.last() + 0;
            assert(first@ =~= first@.drop_last().push(first@.last()));
            assert(paths@[j]@ =~= paths@[j]@.drop_last().push(paths@[j]@.last()));
            assert(node_at(was, first@) is Some);
            assert(ends_in(paths@, first@.last() + (n - 1)));
            let k = choose|k: int|
                0 <= k < paths@.len() && (#[trigger] paths@[k])@.last() == first@.last() + (n - 1);
            lemma_siblings(was, paths@[k]@, first@);
        }
        let nodes: Vec<Node> = vec![node];
        assert(nodes@ =~= seq![node]);
        if let Some(taken) = splice_nodes(children, first.as_slice(), false, n, nodes) {
            assert(spliced_at(was, children@, first@, false, paths@.len(), seq![node]));
            return taken;
        }
    }
    Vec::new()
}

/// Why a change to a project is refused, if it is.
#[verifier::opaque]
pub open spec fn edit_refusal(op: NodeEditOp, project: Project, kinds: Seq<NodeKind>) -> Option<
    EditRefusal,
> {
    match class_index(project.classes@, op_owner(op)) {
        None => Some(EditRefusal::NoRow),
        Some(i) => fields_refusal(op, project.classes@[i].children@, kinds),
    }
}

/// `now` is the project `was` after a change that is not refused: nothing but the
/// fields of one class change, and moving fields into a new class adds that class
/// at the end, with the id `fresh`.
pub open spec fn project_edited(
    op: NodeEditOp,
    was: Project,
    now: Project,
    kinds: Seq<NodeKind>,
    fresh: u128,
) -> bool {
    let i = class_index(was.classes@, op_owner(op))->0;
    &&& now == (Project { classes: now.classes, ..was })
    &&& match op {
        NodeEditOp::ExtractClass { paths, name, .. } => {
            let class = now.classes@.last();
            &&& now.classes@.len() == was.classes@.len() + 1
            &&& same_but_fields(was.classes@, now.classes@.drop_last(), i)
            &&& class.id == fresh
            &&& class.name == name
            &&& class.comment@.len() == 0
            &&& class.address_formula@.len() == 0
            &&& extracted(
                was.classes@[i].children@,
                now.classes@[i].children@,
                class.children@,
                paths@,
                name@,
                kind_tagged(kinds, "ClassInstance"@)->0,
                was.pointer_size,
                fresh,
            )
        },
        _ => {
            &&& same_but_fields(was.classes@, now.classes@, i)
            &&& fields_edited(
                op,
                was.classes@[i].children@,
                now.classes@[i].children@,
                kinds,
                was.pointer_size,
            )
        },
    }
}

fn edit_refusal_exec(op: &NodeEditOp, project: &Project, kinds: &Vec<NodeKind>) -> (r: Option<
    EditRefusal,
>)
    ensures
        r == edit_refusal(*op, *project, kinds@),
{
    proof {
        reveal(edit_refusal);
    }
    match project.index_of(op_owner_exec(op)) {
        None => Some(EditRefusal::NoRow),
        Some(i) => fields_refusal_exec(op, &project.classes[i].children, kinds),
    }
}

/// Makes a change, or says why it is refused. `fresh` is an id that no class has.
pub fn apply_edit(
    project: &mut Project,
    op: &NodeEditOp,
    kinds: &Vec<NodeKind>,
    fresh: u128,
) -> (r: Result<(), EditRefusal>)
    ensures
        match r {
            Ok(_) => edit_refusal(*op, *old(project), kinds@) is None && project_edited(
                *op,
                *old(project),
                *final(project),
                kinds@,
                fresh,
            ),
            Err(e) => edit_refusal(*op, *old(project), kinds@) == Some(e) && *final(project)
                == *old(project),
        },
{
    if let Some(e) = edit_refusal_exec(op, project, kinds) {
        return Err(e);
    }
    let owner: u128 = op_owner_exec(op);
    let ghost was = *project;
    proof {
        reveal(edit_refusal);
        lemma_class_index(project.classes@, owner);
    }
    let width: usize = project.pointer_size;
    if let Some(i) = project.index_of(owner) {
        match op {
            NodeEditOp::ExtractClass { paths, name, .. } => {
                let class = &mut project.classes[i];
                let children = extract_fields(
                    &mut class.children,
                    paths,
                    name,
                    kinds,
                    width,
                    fresh,
                );
                let ghost mid = project.classes@;
                assert(mid =~= was.classes@.update(i as int, mid[i as int]));
                project.classes.push(
                    ClassNode {
                        id: fresh,
                        name: name.clone(),
                        comment: String::new(),
                        address_formula: String::new(),
                        children,
                    },
                );
                assert(project.classes@.drop_last() =~= mid);
            },
            _ => {
                let class = &mut project.classes[i];
                edit_fields(&mut class.children, op, kinds, width);
                assert(project.classes@ =~= was.classes@.update(
                    i as int,
                    project.classes@[i as int],
                ));
            },
        }
    }
    Ok(())
}

/// A change among others: where it is refused the project stays as it is.
#[verifier::opaque]
pub open spec fn edit_step(
    was: Project,
    op: NodeEditOp,
    now: Project,
    kinds: Seq<NodeKind>,
    fresh: u128,
) -> bool {
    match edit_refusal(op, was, kinds) {
        None => project_edited(op, was, now, kinds, fresh),
        Some(_) => now == was,
    }
}

/// The project goes through `states` while the changes are made in their order.
pub open spec fn edits_run(
    states: Seq<Project>,
    ops: Seq<NodeEditOp>,
    kinds: Seq<NodeKind>,
    fresh: u128,
) -> bool {
    &&& states.len() == ops.len() + 1
    &&& forall|k: int|
        0 <= k < ops.len() ==> edit_step(#[trigger] states[k], ops[k], states[k + 1], kinds, fresh)
}

/// Some of the first `n` changes went through.
pub open spec fn any_made(
    states: Seq<Project>,
    ops: Seq<NodeEditOp>,
    kinds: Seq<NodeKind>,
    n: int,
) -> bool {
    exists|k: int| 0 <= k < n && edit_refusal(ops[k], #[trigger] states[k], kinds) is None
}

/// Why the last of the first `n` changes that was refused was.
pub open spec fn last_refusal(
    states: Seq<Project>,
    ops: Seq<NodeEditOp>,
    kinds: Seq<NodeKind>,
    n: int,
) -> Option<EditRefusal>
    decreases n,
{
    if n <= 0 {
        None
    } else {
        match edit_refusal(ops[n - 1], states[n - 1], kinds) {
            Some(e) => Some(e),
            None => last_refusal(states, ops, kinds, n - 1),
        }
    }
}

/// What came of several changes.
#[derive(Clone, Copy, Debug, PartialEq, Eq, Structural)]
pub struct EditsOutcome {
    /// Some went through.
    pub changed: bool,
    /// Why the last that was refused was.
    pub refused: Option<EditRefusal>,
}

/// `now` is the project `was` after several changes, and `out` what came of them.
pub open spec fn edits_done(
    was: Project,
    now: Project,
    ops: Seq<NodeEditOp>,
    kinds: Seq<NodeKind>,
    fresh: u128,
    out: EditsOutcome,
) -> bool {
    exists|states: Seq<Project>|
        {
            &&& #[trigger] edits_run(states, ops, kinds, fresh)
            &&& states[0] == was
            &&& states.last() == now
            &&& out.changed == any_made(states, ops, kinds, ops.len() as int)
            &&& out.refused == last_refusal(states, ops, kinds, ops.len() as int)
        }
}

proof fn lemma_states_grow(
    a: Seq<Project>,
    b: Seq<Project>,
    ops: Seq<NodeEditOp>,
    kinds: Seq<NodeKind>,
    n: int,
)
    requires
        n <= a.len(),
        b.len() >= a.len(),
        forall|k: int| 0 <= k < a.len() ==> b[k] == #[trigger] a[k],
    ensures
        any_made(a, ops, kinds, n) == any_made(b, ops, kinds, n),
        last_refusal(a, ops, kinds, n) == last_refusal(b, ops, kinds, n),
    decreases n,
{
    if n > 0 {
        lemma_states_grow(a, b, ops, kinds, n - 1);
        assert(b[n - 1] == a[n - 1]);
    }
    if any_made(a, ops, kinds, n) {
        let k = choose|k: int|
            0 <= k < n && edit_refusal(ops[k], #[trigger] a[k], kinds) is None;
        assert(edit_refusal(ops[k], b[k], kinds) is None);
    }
    if any_made(b, ops, kinds, n) {
        let k = choose|k: int|
            0 <= k < n && edit_refusal(ops[k], #[trigger] b[k], kinds) is None;
        assert(b[k] == a[k]);
        assert(edit_refusal(ops[k], a[k], kinds) is None);
    }
}

/// The project went through `states` while the first `n` changes were made, and
/// `out` came of them.
pub open spec fn edits_so_far(
    states: Seq<Project>,
    ops: Seq<NodeEditOp>,
    kinds: Seq<NodeKind>,
    fresh: u128,
    n: int,
    out: EditsOutcome,
) -> bool {
    &&& 0 <= n <= ops.len()
    &&& states.len() == n + 1
    &&& forall|k: int|
        0 <= k < n ==> edit_step(#[trigger] states[k], ops[k], states[k + 1], kinds, fresh)
    &&& out.changed == any_made(states, ops, kinds, n)
    &&& out.refused == last_refusal(states, ops, kinds, n)
}

proof fn lemma_one_more(
    before: Seq<Project>,
    ops: Seq<NodeEditOp>,
    kinds: Seq<NodeKind>,
    fresh: u128,
    n: int,
    out: EditsOutcome,
    now: Project,
)
    requires
        edits_so_far(before, ops, kinds, fresh, n, out),
        n < ops.len(),
        edit_step(before[n], ops[n], now, kinds, fresh),
    ensures
        edits_so_far(
            before.push(now),
            ops,
            kinds,
            fresh,
            n + 1,
            match edit_refusal(ops[n], before[n], kinds) {
                None => EditsOutcome { changed: true, ..out },
                Some(e) => EditsOutcome { refused: Some(e), ..out },
            },
        ),
{
    let states = before.push(now);
    lemma_states_grow(before, states, ops, kinds, n);
    assert(states[n] == before[n]);
    assert forall|k: int| 0 <= k < n + 1 implies edit_step(
        #[trigger] states[k],
        ops[k],
        states[k + 1],
        kinds,
        fresh,
    ) by {
        if k < n {
            assert(states[k] == before[k] && states[k + 1] == before[k + 1]);
        }
    }
    if any_made(states, ops, kinds, n) {
        let k = choose|k: int|
            0 <= k < n && edit_refusal(ops[k], #[trigger] states[k], kinds) is None;
        assert(edit_refusal(ops[k], states[k], kinds) is None);
        assert(any_made(states, ops, kinds, n + 1));
    }
    if edit_refusal(ops[n], states[n], kinds) is None {
        assert(any_made(states, ops, kinds, n + 1));
    } else if any_made(states, ops, kinds, n + 1) {
        let k = choose|k: int|
            0 <= k < n + 1 && edit_refusal(ops[k], #[trigger] states[k], kinds) is None;
        assert(k < n);
        assert(any_made(states, ops, kinds, n));
    }
}

/// Makes changes in their order. One that is refused is passed over.
pub fn apply_edits(
    project: &mut Project,
    ops: &Vec<NodeEditOp>,
    kinds: &Vec<NodeKind>,
    fresh: u128,
) -> (out: EditsOutcome)
    ensures
        edits_done(*old(project), *final(project), ops@, kinds@, fresh, out),
{
    let mut out = EditsOutcome { changed: false, refused: None };
    let ghost mut states: Seq<Project> = seq![*project];
    let mut i: usize = 0;
    while i < ops.len()
        invariant
            i <= ops@.len(),
            states.len() == i + 1,
            states[0] == *old(project),
            states[i as int] == *project,
            edits_so_far(states, ops@, kinds@, fresh, i as int, out),
        decreases ops@.len() - i,
    {
        let ghost before = out;
        let made = step_edit(project, &ops[i], kinds, fresh);
        match made {
            None => {
                out.changed = true;
            },
            Some(e) => {
                out.refused = Some(e);
            },
        }
        proof {
            lemma_one_more(states, ops@, kinds@, fresh, i as int, before, *project);
            states = states.push(*project);
        }
        i += 1;
    }
    assert(edits_run(states, ops@, kinds@, fresh));
    out
}

fn step_edit(project: &mut Project, op: &NodeEditOp, kinds: &Vec<NodeKind>, fresh: u128) -> (r:
    Option<EditRefusal>)
    ensures
        r == edit_refusal(*op, *old(project), kinds@),
        edit_step(*old(project), *op, *final(project), kinds@, fresh),
{
    proof {
        reveal(edit_step);
    }
    match apply_edit(project, op, kinds, fresh) {
        Ok(_) => None,
        Err(e) => Some(e),
    }
}

/// What is left of `was` where those at the given places are taken out.
pub open spec fn kept(was: Seq<Node>, gone: Seq<usize>) -> Seq<Node>
    decreases was.len(),
{
    if was.len() == 0 {
        was
    } else {
        let rest = kept(was.drop_last(), gone);
        if gone.contains((was.len() - 1) as usize) {
            rest
        } else {
            rest.push(was.last())
        }
    }
}

/// `was` after those at the given places were taken out one after the other.
spec fn taken_out(was: Seq<Node>, gone: Seq<usize>) -> Seq<Node>
    decreases gone.len(),
{
    if gone.len() == 0 {
        was
    } else {
        taken_out(was.remove(gone[0] as int), gone.subrange(1, gone.len() as int))
    }
}

/// Each number is greater than the next, and all are less than `n`.
pub open spec fn falls_below(gone: Seq<usize>, n: int) -> bool {
    &&& forall|i: int| 0 <= i < gone.len() ==> (#[trigger] gone[i]) < n
    &&& forall|i: int, j: int|
        0 <= i < j < gone.len() ==> (#[trigger] gone[j]) < (#[trigger] gone[i])
}

proof fn lemma_kept_same(was: Seq<Node>, a: Seq<usize>, b: Seq<usize>)
    requires
        was.len() <= usize::MAX,
        forall|i: int|
            0 <= i < was.len() ==> (#[trigger] a.contains(i as usize) <==> b.contains(
                i as usize,
            )),
    ensures
        kept(was, a) == kept(was, b),
    decreases was.len(),
{
    if was.len() > 0 {
        lemma_kept_same(was.drop_last(), a, b);
        let i = was.len() - 1;
        assert(a.contains(i as usize) <==> b.contains(i as usize));
    }
}

proof fn lemma_taken_below(s: Seq<Node>, x: Node, gone: Seq<usize>)
    requires
        falls_below(gone, s.len() as int),
    ensures
        taken_out(s.push(x), gone) == taken_out(s, gone).push(x),
    decreases gone.len(),
{
    if gone.len() > 0 {
        let j = gone[0] as int;
        let rest = gone.subrange(1, gone.len() as int);
        assert(s.push(x).remove(j) =~= s.remove(j).push(x));
        assert forall|i: int| 0 <= i < rest.len() implies (#[trigger] rest[i]) < s.len() - 1 by {
            assert(gone[i + 1] < gone[0]);
        }
        lemma_taken_below(s.remove(j), x, rest);
    }
}

proof fn lemma_taken_is_kept(was: Seq<Node>, gone: Seq<usize>)
    requires
        was.len() <= usize::MAX,
        falls_below(gone, was.len() as int),
    ensures
        taken_out(was, gone) == kept(was, gone),
    decreases was.len(),
{
    if was.len() == 0 {
        if gone.len() > 0 {
            assert(gone[0] < 0);
        }
    } else {
        let s = was.drop_last();
        let last = (was.len() - 1) as usize;
        assert(was =~= s.push(was.last()));
        if gone.len() > 0 && gone[0] == last {
            let rest = gone.subrange(1, gone.len() as int);
            assert(was.remove(last as int) =~= s);
            assert forall|i: int| 0 <= i < rest.len() implies (#[trigger] rest[i]) < s.len() by {
                assert(gone[i + 1] < gone[0]);
            }
            lemma_taken_is_kept(s, rest);
            assert forall|i: int| 0 <= i < s.len() implies (#[trigger] rest.contains(i as usize)
                <==> gone.contains(i as usize)) by {
                if rest.contains(i as usize) {
                    let k = rest.index_of(i as usize);
                    assert(gone[k + 1] == i as usize);
                }
                if gone.contains(i as usize) {
                    let k = gone.index_of(i as usize);
                    assert(k > 0);
                    assert(rest[k - 1] == i as usize);
                }
            }
            lemma_kept_same(s, rest, gone);
            assert(gone.contains(last));
        } else {
            assert forall|i: int| 0 <= i < gone.len() implies (#[trigger] gone[i]) < s.len() by {
                if i > 0 {
                    assert(gone[i] < gone[0]);
                }
            }
            assert(!gone.contains(last));
            lemma_taken_below(s, was.last(), gone);
            lemma_taken_is_kept(s, gone);
        }
    }
}

/// `op` takes one field out of a class.
pub open spec fn deletes_field(op: NodeEditOp, owner: u128, i: usize) -> bool {
    op matches NodeEditOp::DeleteRange { owner: o, path, count } && o == owner && path@ == seq![i]
        && count == 1
}

proof fn lemma_delete_step(
    was: Project,
    op: NodeEditOp,
    now: Project,
    kinds: Seq<NodeKind>,
    fresh: u128,
    owner: u128,
    c: int,
    i: usize,
)
    requires
        edit_step(was, op, now, kinds, fresh),
        deletes_field(op, owner, i),
        class_index(was.classes@, owner) == Some(c),
        0 <= c < was.classes@.len(),
        i < was.classes@[c].children@.len(),
    ensures
        now == (Project { classes: now.classes, ..was }),
        same_but_fields(was.classes@, now.classes@, c),
        now.classes@[c].children@ == was.classes@[c].children@.remove(i as int),
        class_index(now.classes@, owner) == Some(c),
{
    reveal(edit_step);
    reveal(edit_refusal);
    let path = seq![i];
    let s = was.classes@[c].children@;
    assert(node_at(s, path) is Some);
    assert(path[0] == i);
    assert(now.classes@[c].children@ =~= s.remove(i as int));
    lemma_same_index(was.classes@, now.classes@, c, owner);
}

/// Deleting fields of a class from the last to the first removes exactly those
/// fields: the others stay, in their order, and so do the other classes.
pub proof fn deletion_removes_exactly_the_chosen(
    states: Seq<Project>,
    ops: Seq<NodeEditOp>,
    kinds: Seq<NodeKind>,
    fresh: u128,
    owner: u128,
    c: int,
    gone: Seq<usize>,
)
    requires
        edits_run(states, ops, kinds, fresh),
        class_index(states[0].classes@, owner) == Some(c),
        0 <= c < states[0].classes@.len(),
        states[0].classes@[c].children@.len() <= usize::MAX,
        gone.len() == ops.len(),
        falls_below(gone, states[0].classes@[c].children@.len() as int),
        forall|k: int| 0 <= k < ops.len() ==> deletes_field(#[trigger] ops[k], owner, gone[k]),
    ensures
        states.last().classes@[c].children@ == kept(states[0].classes@[c].children@, gone),
        same_but_fields(states[0].classes@, states.last().classes@, c),
{
    lemma_deletions(states, ops, kinds, fresh, owner, c, gone);
    lemma_taken_is_kept(states[0].classes@[c].children@, gone);
}

proof fn lemma_deletions(
    states: Seq<Project>,
    ops: Seq<NodeEditOp>,
    kinds: Seq<NodeKind>,
    fresh: u128,
    owner: u128,
    c: int,
    gone: Seq<usize>,
)
    requires
        edits_run(states, ops, kinds, fresh),
        class_index(states[0].classes@, owner) == Some(c),
        0 <= c < states[0].classes@.len(),
        gone.len() == ops.len(),
        falls_below(gone, states[0].classes@[c].children@.len() as int),
        forall|k: int| 0 <= k < ops.len() ==> deletes_field(#[trigger] ops[k], owner, gone[k]),
    ensures
        states.last().classes@[c].children@ == taken_out(
            states[0].classes@[c].children@,
            gone,
        ),
        same_but_fields(states[0].classes@, states.last().classes@, c),
    decreases ops.len(),
{
    let was = states[0].classes@;
    if ops.len() == 0 {
        assert(was =~= was.update(c, was[c]));
    } else {
        assert(edit_step(states[0], ops[0], states[1], kinds, fresh));
        assert(deletes_field(ops[0], owner, gone[0]));
        assert(gone[0] < was[c].children@.len());
        lemma_delete_step(states[0], ops[0], states[1], kinds, fresh, owner, c, gone[0]);
        let rest_states = states.subrange(1, states.len() as int);
        let rest_ops = ops.subrange(1, ops.len() as int);
        let rest = gone.subrange(1, gone.len() as int);
        assert forall|k: int| 0 <= k < rest_ops.len() implies edit_step(
            #[trigger] rest_states[k],
            rest_ops[k],
            rest_states[k + 1],
            kinds,
            fresh,
        ) by {
            assert(edit_step(states[k + 1], ops[k + 1], states[k + 2], kinds, fresh));
        }
        assert forall|k: int| 0 <= k < rest_ops.len() implies deletes_field(
            #[trigger] rest_ops[k],
            owner,
            rest[k],
        ) by {
            assert(deletes_field(ops[k + 1], owner, gone[k + 1]));
        }
        assert forall|i: int| 0 <= i < rest.len() implies (#[trigger] rest[i])
            < rest_states[0].classes@[c].children@.len() by {
            assert(gone[i + 1] < gone[0]);
        }
        lemma_deletions(rest_states, rest_ops, kinds, fresh, owner, c, rest);
        let mid = states[1].classes@;
        let now = states.last().classes@;
        assert(rest_states.last() == states.last());
        assert(now =~= was.update(c, now[c]));
    }
}

/// Whole projects, as they were before each change and, of changes that were
/// undone, after it.
#[derive(Debug)]
pub struct EditHistory {
    pub undo: Vec<Project>,
    pub redo: Vec<Project>,
}

/// `post` is `pre` with the project remembered. What was undone before cannot be
/// done again.
pub open spec fn remembers(pre: EditHistory, post: EditHistory, project: Project) -> bool {
    &&& post.undo@.len() == pre.undo@.len() + 1
    &&& post.undo@.drop_last() == pre.undo@
    &&& project_copied(project, post.undo@.last(), None)
    &&& post.redo@.len() == 0
}

/// The last change is undone: the project is what was remembered before it.
pub open spec fn undoes(
    pre: EditHistory,
    post: EditHistory,
    was: Project,
    now: Project,
) -> bool {
    &&& pre.undo@.len() > 0
    &&& now == pre.undo@.last()
    &&& post.undo@ == pre.undo@.drop_last()
    &&& post.redo@ == pre.redo@.push(was)
}

/// The change that was undone last is made again.
pub open spec fn redoes(
    pre: EditHistory,
    post: EditHistory,
    was: Project,
    now: Project,
) -> bool {
    &&& pre.redo@.len() > 0
    &&& now == pre.redo@.last()
    &&& post.redo@ == pre.redo@.drop_last()
    &&& post.undo@ == pre.undo@.push(was)
}

impl EditHistory {
    pub fn new() -> (h: Self)
        ensures
            h.undo@.len() == 0,
            h.redo@.len() == 0,
    {
        EditHistory { undo: Vec::new(), redo: Vec::new() }
    }

    pub fn clear(&mut self)
        ensures
            final(self).undo@.len() == 0,
            final(self).redo@.len() == 0,
    {
        self.undo = Vec::new();
        self.redo = Vec::new();
    }

    pub fn can_undo(&self) -> (r: bool)
        ensures
            r == (self.undo@.len() > 0),
    {
        self.undo.len() > 0
    }

    pub fn can_redo(&self) -> (r: bool)
        ensures
            r == (self.redo@.len() > 0),
    {
        self.redo.len() > 0
    }

    /// Remembers the project, so that the change that follows can be undone.
    pub fn record(&mut self, project: &Project)
        ensures
            remembers(*old(self), *final(self), *project),
    {
        self.keep(copy_project(project, None));
    }

    /// Remembers a copy that was made before a change.
    pub(crate) fn keep(&mut self, copy: Project)
        ensures
            final(self).undo@ == old(self).undo@.push(copy),
            final(self).redo@.len() == 0,
            final(self).undo@.drop_last() == old(self).undo@,
    {
        self.undo.push(copy);
        self.redo = Vec::new();
        assert(self.undo@.drop_last() =~= old(self).undo@);
    }

    /// Undoes the last change. Says whether there was one.
    pub fn undo(&mut self, project: &mut Project) -> (r: bool)
        ensures
            r == (old(self).undo@.len() > 0),
            if r {
                undoes(*old(self), *final(self), *old(project), *final(project))
            } else {
                *final(self) == *old(self) && *final(project) == *old(project)
            },
    {
        if self.undo.len() == 0 {
            return false;
        }
        match self.undo.pop() {
            Some(p) => {
                let mut p = p;
                std::mem::swap(project, &mut p);
                self.redo.push(p);
                true
            },
            None => false,
        }
    }

    /// Makes the change again that was undone last. Says whether there was one.
    pub fn redo(&mut self, project: &mut Project) -> (r: bool)
        ensures
            r == (old(self).redo@.len() > 0),
            if r {
                redoes(*old(self), *final(self), *old(project), *final(project))
            } else {
                *final(self) == *old(self) && *final(project) == *old(project)
            },
    {
        if self.redo.len() == 0 {
            return false;
        }
        match self.redo.pop() {
            Some(p) => {
                let mut p = p;
                std::mem::swap(project, &mut p);
                self.undo.push(p);
                true
            },
            None => false,
        }
    }
}

/// Undoing a change brings back the project that was remembered before it, and
/// doing it again brings back the changed one.
pub proof fn undo_restores_and_redo_repeats(
    before: EditHistory,
    recorded: EditHistory,
    undone: EditHistory,
    redone: EditHistory,
    was: Project,
    edited: Project,
    restored: Project,
    repeated: Project,
)
    requires
        remembers(before, recorded, was),
        undoes(recorded, undone, edited, restored),
        redoes(undone, redone, restored, repeated),
    ensures
        project_copied(was, restored, None),
        repeated == edited,
        undone.undo@ == before.undo@,
        redone.undo@.len() == recorded.undo@.len(),
        redone.redo@ == recorded.redo@,
{
    assert(undone.redo@.drop_last() =~= recorded.redo@);
}

/// The message after a run of changes is that of the last one that was refused, and
/// there is none only where none was.
pub proof fn last_refusal_is_told(
    states: Seq<Project>,
    ops: Seq<NodeEditOp>,
    kinds: Seq<NodeKind>,
    n: int,
)
    ensures
        match last_refusal(states, ops, kinds, n) {
            Some(e) => exists|k: int|
                {
                    &&& 0 <= k < n
                    &&& edit_refusal(ops[k], #[trigger] states[k], kinds) == Some(e)
                    &&& forall|j: int|
                        k < j < n ==> edit_refusal(ops[j], #[trigger] states[j], kinds) is None
                },
            None => forall|j: int|
                0 <= j < n ==> edit_refusal(ops[j], #[trigger] states[j], kinds) is None,
        },
    decreases n,
{
    if n > 0 {
        last_refusal_is_told(states, ops, kinds, n - 1);
        if let Some(e) = edit_refusal(ops[n - 1], states[n - 1], kinds) {
            assert(edit_refusal(ops[n - 1], states[n - 1], kinds) == Some(e));
        }
    }
}

} // verus!

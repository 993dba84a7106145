//! Nodes by their place in a class: walking to them, changing, removing and
//! replacing them.
use vstd::prelude::*;
use vstd::slice::slice_subrange;

use crate::model::Node;

verus! {

/// What is changed of a node.
#[derive(Debug)]
pub enum NodeChange {
    Name(String),
    Comment(String),
    /// The class that the node points at.
    Target(u128),
    /// The node points at no class.
    NoTarget,
    Hidden(bool),
}

/// The node after a change. A node that cannot point at a class stays as it is.
pub open spec fn changed(n: Node, c: NodeChange) -> Node {
    match c {
        NodeChange::Name(t) => Node { name: t, ..n },
        NodeChange::Comment(t) => Node { comment: t, ..n },
        NodeChange::Target(id) => if n.takes_target {
            Node { pointer_target: Some(id), ..n }
        } else {
            n
        },
        NodeChange::NoTarget => if n.takes_target {
            Node { pointer_target: None, ..n }
        } else {
            n
        },
        NodeChange::Hidden(hidden) => Node { hidden, ..n },
    }
}

/// Whether a node takes a change.
pub open spec fn takes(n: Node, c: NodeChange) -> bool {
    c is Target || c is NoTarget ==> n.takes_target
}

/// The node at a path: an index into the children at each level. An empty path
/// leads nowhere, and so does one through a node that holds no children.
pub open spec fn node_at(children: Seq<Node>, path: Seq<usize>) -> Option<Node>
    decreases path.len(),
{
    if path.len() == 0 || path[0] >= children.len() {
        None
    } else {
        let n = children[path[0] as int];
        if path.len() == 1 {
            Some(n)
        } else if n.container {
            node_at(n.children@, path.subrange(1, path.len() as int))
        } else {
            None
        }
    }
}

/// `new` is `old` with the node at the path replaced by `node`.
pub open spec fn replaced_at(
    old_children: Seq<Node>,
    new_children: Seq<Node>,
    path: Seq<usize>,
    node: Node,
) -> bool
    decreases path.len(),
{
    if path.len() == 0 || path[0] >= old_children.len() {
        false
    } else {
        let i = path[0] as int;
        let o = old_children[i];
        let n = new_children[i];
        &&& new_children == old_children.update(i, n)
        &&& if path.len() == 1 {
            n == node
        } else {
            n == Node { children: n.children, ..o } && replaced_at(
                o.children@,
                n.children@,
                path.subrange(1, path.len() as int),
                node,
            )
        }
    }
}

/// Whether a path leads to a node.
pub fn has_node(children: &Vec<Node>, path: &[usize]) -> (r: bool)
    ensures
        r == (node_at(children@, path@) is Some),
    decreases path@.len(),
{
    if path.len() == 0 {
        return false;
    }
    let i: usize = path[0];
    if i >= children.len() {
        return false;
    }
    if path.len() == 1 {
        return true;
    }
    children[i].container && has_node(&children[i].children, slice_subrange(path, 1, path.len()))
}

/// The node at a path.
pub fn find_node<'a>(children: &'a Vec<Node>, path: &[usize]) -> (r: Option<&'a Node>)
    ensures
        match r {
            Some(n) => node_at(children@, path@) == Some(*n),
            None => node_at(children@, path@) is None,
        },
    decreases path@.len(),
{
    if path.len() == 0 {
        return None;
    }
    let i: usize = path[0];
    if i >= children.len() {
        return None;
    }
    if path.len() == 1 {
        return Some(&children[i]);
    }
    if children[i].container {
        find_node(&children[i].children, slice_subrange(path, 1, path.len()))
    } else {
        None
    }
}

fn change_found(children: &mut Vec<Node>, path: &[usize], change: NodeChange) -> (r: bool)
    requires
        node_at(old(children)@, path@) is Some,
    ensures
        ({
            let n = node_at(old(children)@, path@)->0;
            r == takes(n, change) && replaced_at(
                old(children)@,
                final(children)@,
                path@,
                changed(n, change),
            )
        }),
    decreases path@.len(),
{
    let i: usize = path[0];
    let node = &mut children[i];
    if path.len() == 1 {
        match change {
            NodeChange::Name(t) => {
                node.name = t;
                true
            },
            NodeChange::Comment(t) => {
                node.comment = t;
                true
            },
            NodeChange::Target(id) => {
                if node.takes_target {
                    node.pointer_target = Some(id);
                    true
                } else {
                    false
                }
            },
            NodeChange::NoTarget => {
                if node.takes_target {
                    node.pointer_target = None;
                    true
                } else {
                    false
                }
            },
            NodeChange::Hidden(hidden) => {
                node.hidden = hidden;
                true
            },
        }
    } else {
        change_found(&mut node.children, slice_subrange(path, 1, path.len()), change)
    }
}

/// Changes the node at a path. Says whether there is one and it takes the change.
pub fn change_node(children: &mut Vec<Node>, path: &[usize], change: NodeChange) -> (r: bool)
    ensures
        match node_at(old(children)@, path@) {
            None => !r && *final(children) == *old(children),
            Some(n) => r == takes(n, change) && replaced_at(
                old(children)@,
                final(children)@,
                path@,
                changed(n, change),
            ),
        },
{
    if has_node(children, path) {
        change_found(children, path, change)
    } else {
        false
    }
}

/// `new` is `old` without the node at the path.
pub open spec fn removed_at(
    old_children: Seq<Node>,
    new_children: Seq<Node>,
    path: Seq<usize>,
) -> bool
    decreases path.len(),
{
    if path.len() == 0 || path[0] >= old_children.len() {
        false
    } else {
        let i = path[0] as int;
        if path.len() == 1 {
            new_children == old_children.remove(i)
        } else {
            let o = old_children[i];
            let n = new_children[i];
            &&& new_children == old_children.update(i, n)
            &&& n == Node { children: n.children, ..o }
            &&& removed_at(o.children@, n.children@, path.subrange(1, path.len() as int))
        }
    }
}

fn remove_found(children: &mut Vec<Node>, path: &[usize])
    requires
        node_at(old(children)@, path@) is Some,
    ensures
        removed_at(old(children)@, final(children)@, path@),
    decreases path@.len(),
{
    let i: usize = path[0];
    if path.len() == 1 {
        children.remove(i);
    } else {
        let node = &mut children[i];
        remove_found(&mut node.children, slice_subrange(path, 1, path.len()));
    }
}

/// Removes the node at a path. Says whether there was one.
pub fn remove_node(children: &mut Vec<Node>, path: &[usize]) -> (r: bool)
    ensures
        r == (node_at(old(children)@, path@) is Some),
        if r {
            removed_at(old(children)@, final(children)@, path@)
        } else {
            *final(children) == *old(children)
        },
{
    if has_node(children, path) {
        remove_found(children, path);
        true
    } else {
        false
    }
}

/// A changed node is found where it was: walking the same path again gives the
/// node as it was changed.
pub proof fn change_is_read_back(
    was: Seq<Node>,
    now: Seq<Node>,
    path: Seq<usize>,
    node: Node,
)
    requires
        node_at(was, path) is Some,
        replaced_at(was, now, path, node),
    ensures
        node_at(now, path) == Some(node),
    decreases path.len(),
{
    let i = path[0] as int;
    if path.len() > 1 {
        change_is_read_back(
            was[i].children@,
            now[i].children@,
            path.subrange(1, path.len() as int),
            node,
        );
    }
}

/// Two paths part: at some level they take different children.
pub open spec fn parts(a: Seq<usize>, b: Seq<usize>) -> bool
    decreases a.len(),
{
    a.len() > 0 && b.len() > 0 && (a[0] != b[0] || parts(
        a.subrange(1, a.len() as int),
        b.subrange(1, b.len() as int),
    ))
}

/// A change stays where it was made: a path that parts from the changed one leads
/// to the same node as before.
pub proof fn change_leaves_others(
    was: Seq<Node>,
    now: Seq<Node>,
    path: Seq<usize>,
    other: Seq<usize>,
    node: Node,
)
    requires
        node_at(was, path) is Some,
        replaced_at(was, now, path, node),
        parts(path, other),
    ensures
        node_at(now, other) == node_at(was, other),
    decreases path.len(),
{
    if path[0] == other[0] {
        let i = path[0] as int;
        let p = path.subrange(1, path.len() as int);
        let o = other.subrange(1, other.len() as int);
        assert(parts(p, o));
        assert(path.len() > 1 && other.len() > 1);
        change_leaves_others(was[i].children@, now[i].children@, p, o, node);
    }
}

/// How many nodes are taken out of `n` from `i` on where `count` are asked for:
/// no more than there are.
pub open spec fn clamped(n: nat, i: int, count: nat) -> nat {
    if i + count <= n {
        count
    } else if i <= n {
        (n - i) as nat
    } else {
        0
    }
}

/// Where the nodes next to the node number `i` begin to be replaced: at it, or
/// behind it.
pub open spec fn splice_start(i: usize, behind: bool) -> int {
    if behind {
        i + 1
    } else {
        i as int
    }
}

/// `new` is `old` with up to `count` nodes replaced by `nodes`, from the node at
/// the path on, or from behind it.
pub open spec fn spliced_at(
    old_children: Seq<Node>,
    new_children: Seq<Node>,
    path: Seq<usize>,
    behind: bool,
    count: nat,
    nodes: Seq<Node>,
) -> bool
    decreases path.len(),
{
    if path.len() == 0 || path[0] >= old_children.len() {
        false
    } else {
        let i = path[0] as int;
        if path.len() == 1 {
            let start = splice_start(path[0], behind);
            let end = start + clamped(old_children.len(), start, count);
            new_children == old_children.subrange(0, start) + nodes + old_children.subrange(
                end,
                old_children.len() as int,
            )
        } else {
            let o = old_children[i];
            let n = new_children[i];
            &&& new_children == old_children.update(i, n)
            &&& n == Node { children: n.children, ..o }
            &&& spliced_at(
                o.children@,
                n.children@,
                path.subrange(1, path.len() as int),
                behind,
                count,
                nodes,
            )
        }
    }
}

/// The siblings of the node at a path, it among them.
pub open spec fn siblings_at(children: Seq<Node>, path: Seq<usize>) -> Seq<Node>
    decreases path.len(),
{
    if path.len() <= 1 || path[0] >= children.len() {
        children
    } else {
        siblings_at(children[path[0] as int].children@, path.subrange(1, path.len() as int))
    }
}

/// Takes up to `count` nodes out from `start` on and puts `nodes` there.
fn splice(list: &mut Vec<Node>, start: usize, count: usize, nodes: Vec<Node>) -> (taken: Vec<Node>)
    requires
        start <= old(list)@.len(),
    ensures
        ({
            let n = clamped(old(list)@.len(), start as int, count as nat);
            &&& taken@ == old(list)@.subrange(start as int, start + n)
            &&& final(list)@ == old(list)@.subrange(0, start as int) + nodes@ + old(list)@.subrange(start + n, old(list)@.len() as int)
        }),
{
    let ghost was = list@;
    let n: usize = if count <= list.len() - start {
        count
    } else {
        list.len() - start
    };
    let mut tail = list.split_off(start);
    let mut rest = tail.split_off(n);
    let mut nodes = nodes;
    list.append(&mut nodes);
    list.append(&mut rest);
    assert(tail@ =~= was.subrange(start as int, start + n));
    tail
}

fn splice_found(
    children: &mut Vec<Node>,
    path: &[usize],
    behind: bool,
    count: usize,
    nodes: Vec<Node>,
) -> (taken: Vec<Node>)
    requires
        node_at(old(children)@, path@) is Some,
    ensures
        spliced_at(old(children)@, final(children)@, path@, behind, count as nat, nodes@),
        ({
            let siblings = siblings_at(old(children)@, path@);
            let start = splice_start(path@.last(), behind);
            taken@ == siblings.subrange(
                start,
                start + clamped(siblings.len(), start, count as nat),
            )
        }),
    decreases path@.len(),
{
    let i: usize = path[0];
    if path.len() == 1 {
        let n: usize = children.len();
        assert(i < n);
        let start: usize = if behind {
            i + 1
        } else {
            i
        };
        splice(children, start, count, nodes)
    } else {
        let node = &mut children[i];
        let rest = slice_subrange(path, 1, path.len());
        assert(rest@.last() == path@.last());
        splice_found(&mut node.children, rest, behind, count, nodes)
    }
}

/// Replaces up to `count` nodes by `nodes`, from the node at the path on, or from
/// behind it, and gives what was there; `None` where the path leads nowhere.
pub fn splice_nodes(
    children: &mut Vec<Node>,
    path: &[usize],
    behind: bool,
    count: usize,
    nodes: Vec<Node>,
) -> (taken: Option<Vec<Node>>)
    ensures
        (taken is Some) == (node_at(old(children)@, path@) is Some),
        match taken {
            None => *final(children) == *old(children),
            Some(t) => {
                let siblings = siblings_at(old(children)@, path@);
                let start = splice_start(path@.last(), behind);
                &&& spliced_at(
                    old(children)@,
                    final(children)@,
                    path@,
                    behind,
                    count as nat,
                    nodes@,
                )
                &&& t@ == siblings.subrange(
                    start,
                    start + clamped(siblings.len(), start, count as nat),
                )
            },
        },
{
    if has_node(children, path) {
        Some(splice_found(children, path, behind, count, nodes))
    } else {
        None
    }
}

/// A field that is removed is gone from its siblings, which close up, and nothing else
/// changes beside it.
pub proof fn removed_field_is_gone(was: Seq<Node>, now: Seq<Node>, path: Seq<usize>)
    requires
        node_at(was, path) is Some,
        removed_at(was, now, path),
    ensures
        siblings_at(now, path).len() == siblings_at(was, path).len() - 1,
        forall|k: int|
            0 <= k < path.last() ==> #[trigger] siblings_at(now, path)[k] == siblings_at(was, path)[k],
        forall|k: int|
            path.last() <= k < siblings_at(now, path).len() ==> #[trigger] siblings_at(now, path)[k]
                == siblings_at(was, path)[k + 1],
        path.len() > 1 ==> now.len() == was.len() && forall|k: int|
            0 <= k < was.len() && k != path[0] ==> #[trigger] now[k] == was[k],
    decreases path.len(),
{
    if path.len() > 1 {
        let i = path[0] as int;
        let rest = path.subrange(1, path.len() as int);
        removed_field_is_gone(was[i].children@, now[i].children@, rest);
        assert(rest.last() == path.last());
    }
}

} // verus!

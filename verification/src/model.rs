//! The project as the user interface sees it: classes made of nodes, and enums.
use vstd::prelude::*;

use crate::text::same_str;

verus! {

/// The precision of the components of a vector or matrix.
#[derive(Clone, Copy, Debug, PartialEq, Eq, Structural)]
pub enum FloatWidth {
    F32,
    F64,
}

impl FloatWidth {
    pub open spec fn bytes(self) -> nat {
        match self {
            FloatWidth::F32 => 4,
            FloatWidth::F64 => 8,
        }
    }

    /// The bytes of one component.
    pub fn size(self) -> (n: usize)
        ensures
            n == self.bytes(),
    {
        match self {
            FloatWidth::F32 => 4,
            FloatWidth::F64 => 8,
        }
    }
}

/// The float components of a node.
#[derive(Clone, Copy, Debug, PartialEq, Eq, Structural)]
pub enum Shape {
    Scalar,
    Vector { count: u8, width: FloatWidth },
    Matrix { rows: u8, cols: u8, width: FloatWidth },
}

impl Shape {
    /// How many components there are.
    pub open spec fn count(self) -> nat {
        match self {
            Shape::Scalar => 0,
            Shape::Vector { count, .. } => count as nat,
            Shape::Matrix { rows, cols, .. } => (rows * cols) as nat,
        }
    }

    pub open spec fn width(self) -> Option<FloatWidth> {
        match self {
            Shape::Scalar => None,
            Shape::Vector { width, .. } => Some(width),
            Shape::Matrix { width, .. } => Some(width),
        }
    }
}

/// A field of a class.
#[derive(Debug)]
pub struct Node {
    pub tag: String,
    pub name: String,
    pub comment: String,
    pub hidden: bool,
    /// The bytes that the node takes; 0 for an embedded class, whose size the
    /// project knows.
    pub memory_size: usize,
    /// Whether the node can hold children.
    pub container: bool,
    pub children: Vec<Node>,
    /// The class that a `ClassInstance` embeds.
    pub instance: Option<u128>,
    /// The class that a pointer points at.
    pub pointer_target: Option<u128>,
    /// Whether a class can be set as what the node points at.
    pub takes_target: bool,
    /// Whether the node is as wide as a pointer of the target.
    pub pointer_sized: bool,
    pub shape: Shape,
}

/// A class: a name, where it lies, and its fields.
#[derive(Debug)]
pub struct ClassNode {
    pub id: u128,
    pub name: String,
    pub comment: String,
    pub address_formula: String,
    pub children: Vec<Node>,
}

/// An enum: its width in bytes, whether its values are flags, and its values.
#[derive(Debug)]
pub struct EnumDescription {
    pub name: String,
    pub size: u8,
    pub use_flags: bool,
    pub values: Vec<(String, i64)>,
}

impl EnumDescription {
    /// An enum of four bytes without values.
    pub fn new(name: String) -> (e: Self)
        ensures
            e.name == name,
            e.size == 4,
            !e.use_flags,
            e.values@.len() == 0,
    {
        EnumDescription { name, size: 4, use_flags: false, values: Vec::new() }
    }
}

/// A project. Classes are in the order in which they are listed.
#[derive(Debug)]
pub struct Project {
    pub name: String,
    pub classes: Vec<ClassNode>,
    pub enums: Vec<EnumDescription>,
    /// The bytes of a pointer of the target.
    pub pointer_size: usize,
}

impl Node {
    /// The class that the node embeds.
    pub open spec fn instance_target(self) -> Option<u128> {
        if self.tag@ == "ClassInstance"@ {
            self.instance
        } else {
            None
        }
    }
}

/// The class that a node embeds.
pub fn class_instance_target(node: &Node) -> (r: Option<u128>)
    ensures
        r == node.instance_target(),
{
    if same_str(node.tag.as_str(), "ClassInstance") {
        node.instance
    } else {
        None
    }
}

/// The place of the class with the given id.
pub open spec fn class_index(classes: Seq<ClassNode>, id: u128) -> Option<int>
    decreases classes.len(),
{
    if classes.len() == 0 {
        None
    } else {
        match class_index(classes.drop_last(), id) {
            Some(i) => Some(i),
            None => if classes.last().id == id {
                Some(classes.len() - 1)
            } else {
                None
            },
        }
    }
}

pub proof fn lemma_class_index(classes: Seq<ClassNode>, id: u128)
    ensures
        match class_index(classes, id) {
            Some(i) => 0 <= i < classes.len() && classes[i].id == id && forall|j: int|
                0 <= j < i ==> (#[trigger] classes[j]).id != id,
            None => forall|j: int| 0 <= j < classes.len() ==> (#[trigger] classes[j]).id != id,
        },
    decreases classes.len(),
{
    if classes.len() > 0 {
        lemma_class_index(classes.drop_last(), id);
        let rest = classes.drop_last();
        assert forall|j: int| 0 <= j < rest.len() implies (#[trigger] classes[j]).id == rest[j].id by {}
    }
}

/// No two classes have the same id.
pub open spec fn distinct_ids(classes: Seq<ClassNode>) -> bool {
    forall|i: int, j: int|
        0 <= i < j < classes.len() ==> (#[trigger] classes[i]).id != (#[trigger] classes[j]).id
}

/// How many classes are not in `visited`.
pub open spec fn unvisited(classes: Seq<ClassNode>, visited: Seq<u128>) -> nat
    decreases classes.len(),
{
    if classes.len() == 0 {
        0
    } else {
        unvisited(classes.drop_last(), visited) + (if visited.contains(classes.last().id) {
            0nat
        } else {
            1nat
        })
    }
}

pub proof fn lemma_unvisited_drops(classes: Seq<ClassNode>, visited: Seq<u128>, id: u128)
    ensures
        unvisited(classes, visited.push(id)) <= unvisited(classes, visited),
        class_index(classes, id) is Some && !visited.contains(id) ==> unvisited(
            classes,
            visited.push(id),
        ) < unvisited(classes, visited),
    decreases classes.len(),
{
    if classes.len() > 0 {
        lemma_unvisited_drops(classes.drop_last(), visited, id);
        let x = classes.last().id;
        let more = visited.push(id);
        if visited.contains(x) {
            let i = visited.index_of(x);
            assert(more[i] == x);
        }
        if x == id {
            assert(more[visited.len() as int] == x);
        }
    }
}

/// The sum, or the greatest size where it is greater.
pub open spec fn saturated(a: int, b: int) -> usize {
    if a + b > usize::MAX {
        usize::MAX
    } else {
        (a + b) as usize
    }
}

/// The bytes that a node takes. An embedded class takes what its fields take;
/// one that is missing, or that is embedded in itself, takes none.
pub open spec fn node_size(classes: Seq<ClassNode>, node: Node, visited: Seq<u128>) -> usize
    decreases unvisited(classes, visited), 1nat, 0nat,
{
    if node.tag@ == "ClassInstance"@ {
        match node.instance_target() {
            None => 0,
            Some(t) => match class_index(classes, t) {
                None => 0,
                Some(i) => if visited.contains(t) {
                    0
                } else {
                    proof {
                        lemma_unvisited_drops(classes, visited, t);
                    }
                    fields_size(
                        classes,
                        classes[i].children@,
                        classes[i].children@.len(),
                        visited.push(t),
                    )
                },
            },
        }
    } else {
        node.memory_size
    }
}

/// The bytes that the first `n` of some fields take.
pub open spec fn fields_size(
    classes: Seq<ClassNode>,
    fields: Seq<Node>,
    n: nat,
    visited: Seq<u128>,
) -> usize
    decreases unvisited(classes, visited), 2nat, n,
{
    if n == 0 {
        0
    } else {
        saturated(
            fields_size(classes, fields, (n - 1) as nat, visited) as int,
            node_size(classes, fields[n - 1], visited) as int,
        )
    }
}

/// The bytes of the class with the given id; 0 for one that is missing.
pub open spec fn class_size(classes: Seq<ClassNode>, id: u128) -> usize {
    match class_index(classes, id) {
        None => 0,
        Some(i) => fields_size(classes, classes[i].children@, classes[i].children@.len(), seq![id]),
    }
}

pub fn find_class(classes: &Vec<ClassNode>, id: u128) -> (r: Option<usize>)
    ensures
        match r {
            Some(i) => class_index(classes@, id) == Some(i as int) && i < classes@.len()
                && classes@[i as int].id == id,
            None => class_index(classes@, id) is None,
        },
{
    let mut i: usize = 0;
    while i < classes.len()
        invariant
            i <= classes@.len(),
            forall|j: int| 0 <= j < i ==> (#[trigger] classes@[j]).id != id,
        decreases classes@.len() - i,
    {
        if classes[i].id == id {
            proof {
                lemma_class_index(classes@, id);
            }
            return Some(i);
        }
        i += 1;
    }
    proof {
        lemma_class_index(classes@, id);
    }
    None
}

pub fn has_id(ids: &Vec<u128>, id: u128) -> (r: bool)
    ensures
        r == ids@.contains(id),
{
    let mut i: usize = 0;
    while i < ids.len()
        invariant
            i <= ids@.len(),
            forall|j: int| 0 <= j < i ==> ids@[j] != id,
        decreases ids@.len() - i,
    {
        if ids[i] == id {
            return true;
        }
        i += 1;
    }
    false
}

/// The bytes that a node takes.
pub fn resolved_node_size(classes: &Vec<ClassNode>, node: &Node, visited: &mut Vec<u128>) -> (size:
    usize)
    ensures
        size == node_size(classes@, *node, old(visited)@),
        final(visited)@ == old(visited)@,
    decreases unvisited(classes@, old(visited)@), 1nat, 0nat,
{
    if !same_str(node.tag.as_str(), "ClassInstance") {
        return node.memory_size;
    }
    match class_instance_target(node) {
        None => 0,
        Some(t) => match find_class(classes, t) {
            None => 0,
            Some(i) => {
                if has_id(visited, t) {
                    return 0;
                }
                proof {
                    lemma_unvisited_drops(classes@, visited@, t);
                }
                visited.push(t);
                let size = resolved_class_size(classes, &classes[i], visited);
                visited.pop();
                assert(visited@ =~= old(visited)@);
                size
            },
        },
    }
}

/// The bytes of a class, with the classes in `visited` counted as embedded
/// already.
pub fn resolved_class_size(
    classes: &Vec<ClassNode>,
    class: &ClassNode,
    visited: &mut Vec<u128>,
) -> (size: usize)
    ensures
        size == fields_size(
            classes@,
            class.children@,
            class.children@.len(),
            old(visited)@,
        ),
        final(visited)@ == old(visited)@,
    decreases unvisited(classes@, old(visited)@), 2nat, 0nat,
{
    let mut size: usize = 0;
    let mut i: usize = 0;
    while i < class.children.len()
        invariant
            i <= class.children@.len(),
            visited@ == old(visited)@,
            size == fields_size(classes@, class.children@, i as nat, visited@),
        decreases class.children@.len() - i,
    {
        let more = resolved_node_size(classes, &class.children[i], visited);
        size = size.saturating_add(more);
        i += 1;
    }
    size
}

impl Project {
    pub open spec fn wf(&self) -> bool {
        distinct_ids(self.classes@)
    }

    pub fn new(name: String) -> (p: Self)
        ensures
            p.wf(),
            p.name == name,
            p.classes@.len() == 0,
            p.enums@.len() == 0,
            p.pointer_size == 8,
    {
        Project { name, classes: Vec::new(), enums: Vec::new(), pointer_size: 8 }
    }

    /// The place of the class with the given id.
    pub fn index_of(&self, id: u128) -> (r: Option<usize>)
        ensures
            match r {
                Some(i) => class_index(self.classes@, id) == Some(i as int) && i
                    < self.classes@.len() && self.classes@[i as int].id == id,
                None => class_index(self.classes@, id) is None,
            },
    {
        find_class(&self.classes, id)
    }

    /// The bytes of the class with the given id; 0 for one that is missing.
    pub fn size_of(&self, id: u128) -> (size: usize)
        ensures
            size == class_size(self.classes@, id),
    {
        match find_class(&self.classes, id) {
            None => 0,
            Some(i) => {
                let mut visited: Vec<u128> = vec![id];
                assert(visited@ =~= seq![id]);
                resolved_class_size(&self.classes, &self.classes[i], &mut visited)
            },
        }
    }

    /// Adds a class at the end of the list.
    pub fn add_class(&mut self, class: ClassNode)
        ensures
            final(self).classes@ == old(self).classes@.push(class),
            *final(self) == (Project { classes: final(self).classes, ..*old(self) }),
            old(self).wf() && class_index(old(self).classes@, class.id) is None ==> final(self).wf(),
    {
        proof {
            lemma_class_index(self.classes@, class.id);
        }
        self.classes.push(class);
    }
}

/// A class with no fields and no address.
pub fn empty_class(id: u128, name: String) -> (c: ClassNode)
    ensures
        c.id == id,
        c.name == name,
        c.comment@ == Seq::<char>::empty(),
        c.address_formula@ == Seq::<char>::empty(),
        c.children@.len() == 0,
{
    ClassNode {
        id,
        name,
        comment: String::new(),
        address_formula: String::new(),
        children: Vec::new(),
    }
}

/// A padding node of the given tag and size.
pub open spec fn is_padding(node: Node, tag: Seq<char>, size: usize) -> bool {
    &&& node.tag@ == tag
    &&& node.name@ == Seq::<char>::empty()
    &&& node.comment@ == Seq::<char>::empty()
    &&& !node.hidden
    &&& node.memory_size == size
    &&& !node.container
    &&& node.children@.len() == 0
    &&& node.instance is None
    &&& node.pointer_target is None
    &&& !node.takes_target
    &&& !node.pointer_sized
    &&& node.shape == Shape::Scalar
}

/// The largest of 8, 4, 2 and 1 that is not above `gap`.
pub open spec fn greedy_step(gap: nat) -> nat {
    if gap >= 8 {
        8
    } else if gap >= 4 {
        4
    } else if gap >= 2 {
        2
    } else {
        1
    }
}

/// The sizes that fill `gap` bytes, each as large as it can be.
pub open spec fn greedy_sizes(gap: nat) -> Seq<nat>
    decreases gap,
{
    if gap == 0 {
        Seq::empty()
    } else {
        seq![greedy_step(gap)] + greedy_sizes((gap - greedy_step(gap)) as nat)
    }
}

/// The tag of a padding node of so many bytes.
pub open spec fn hex_tag(size: nat) -> Seq<char> {
    if size == 8 {
        "Hex64"@
    } else if size == 4 {
        "Hex32"@
    } else if size == 2 {
        "Hex16"@
    } else {
        "Hex8"@
    }
}

/// A node of the given tag that holds nothing but its bytes.
pub fn plain_node(tag: &str, name: String, size: usize) -> (n: Node)
    ensures
        n.tag@ == tag@,
        n.name == name,
        n.comment@ == Seq::<char>::empty(),
        !n.hidden,
        n.memory_size == size,
        !n.container,
        n.children@.len() == 0,
        n.instance is None,
        n.pointer_target is None,
        !n.takes_target,
        !n.pointer_sized,
        n.shape == Shape::Scalar,
{
    Node {
        tag: tag.to_string(),
        name,
        comment: String::new(),
        hidden: false,
        memory_size: size,
        container: false,
        children: Vec::new(),
        instance: None,
        pointer_target: None,
        takes_target: false,
        pointer_sized: false,
        shape: Shape::Scalar,
    }
}

/// Padding nodes that fill `gap` bytes: as many of eight bytes as fit, then of
/// four, two and one.
pub fn hex_fill(gap: usize) -> (nodes: Vec<Node>)
    ensures
        nodes@.len() == greedy_sizes(gap as nat).len(),
        forall|i: int|
            0 <= i < nodes@.len() ==> is_padding(
                #[trigger] nodes@[i],
                hex_tag(greedy_sizes(gap as nat)[i]),
                greedy_sizes(gap as nat)[i] as usize,
            ),
{
    let mut nodes: Vec<Node> = Vec::new();
    let mut left: usize = gap;
    assert(Seq::<nat>::empty() + greedy_sizes(gap as nat) =~= greedy_sizes(gap as nat));
    let ghost mut done = Seq::<nat>::empty();
    while left > 0
        invariant
            left <= gap,
            done.len() == nodes@.len(),
            done + greedy_sizes(left as nat) == greedy_sizes(gap as nat),
            forall|i: int|
                0 <= i < nodes@.len() ==> is_padding(
                    #[trigger] nodes@[i],
                    hex_tag(done[i]),
                    done[i] as usize,
                ),
        decreases left,
    {
        let size: usize = if left >= 8 {
            8
        } else if left >= 4 {
            4
        } else if left >= 2 {
            2
        } else {
            1
        };
        let tag = if size == 8 {
            "Hex64"
        } else if size == 4 {
            "Hex32"
        } else if size == 2 {
            "Hex16"
        } else {
            "Hex8"
        };
        nodes.push(plain_node(tag, String::new(), size));
        proof {
            let before = done;
            done = done.push(size as nat);
            assert(done + greedy_sizes((left - size) as nat) =~= before + greedy_sizes(left as nat));
        }
        left = left - size;
    }
    assert(done + greedy_sizes(0) =~= done);
    nodes
}

/// The sum of some sizes.
pub open spec fn total(sizes: Seq<nat>) -> nat
    decreases sizes.len(),
{
    if sizes.len() == 0 {
        0
    } else {
        sizes[0] + total(sizes.subrange(1, sizes.len() as int))
    }
}

/// Padding fills exactly the gap that it is made for.
pub proof fn padding_fills_the_gap(gap: nat)
    ensures
        total(greedy_sizes(gap)) == gap,
    decreases gap,
{
    if gap > 0 {
        let rest = greedy_sizes((gap - greedy_step(gap)) as nat);
        padding_fills_the_gap((gap - greedy_step(gap)) as nat);
        let all = greedy_sizes(gap);
        assert(all.subrange(1, all.len() as int) =~= rest);
    }
}

/// A class that embeds itself counts itself once: the embedded copy takes no
/// bytes.
pub proof fn self_embedding_takes_no_bytes(classes: Seq<ClassNode>, node: Node, visited: Seq<u128>)
    requires
        node.tag@ == "ClassInstance"@,
        node.instance matches Some(t) && visited.contains(t),
    ensures
        node_size(classes, node, visited) == 0,
{
}

/// The sum of the sizes of the first `n` fields.
pub open spec fn sizes_sum(
    classes: Seq<ClassNode>,
    fields: Seq<Node>,
    n: nat,
    visited: Seq<u128>,
) -> nat
    decreases n,
{
    if n == 0 {
        0
    } else {
        sizes_sum(classes, fields, (n - 1) as nat, visited) + node_size(
            classes,
            fields[n - 1],
            visited,
        ) as nat
    }
}

/// A class takes as many bytes as its fields take together, as far as that can be
/// counted. A field takes the bytes of its type, and one that embeds a class takes the
/// bytes of that class.
pub proof fn class_takes_what_its_fields_take(classes: Seq<ClassNode>, id: u128)
    requires
        class_index(classes, id) is Some,
    ensures
        ({
            let fields = classes[class_index(classes, id)->0].children@;
            let sum = sizes_sum(classes, fields, fields.len(), seq![id]);
            &&& sum <= usize::MAX ==> class_size(classes, id) == sum
            &&& sum > usize::MAX ==> class_size(classes, id) == usize::MAX
        }),
{
    let fields = classes[class_index(classes, id)->0].children@;
    lemma_fields_sum(classes, fields, fields.len(), seq![id]);
}

proof fn lemma_fields_sum(
    classes: Seq<ClassNode>,
    fields: Seq<Node>,
    n: nat,
    visited: Seq<u128>,
)
    ensures
        ({
            let sum = sizes_sum(classes, fields, n, visited);
            &&& sum <= usize::MAX ==> fields_size(classes, fields, n, visited) == sum
            &&& sum > usize::MAX ==> fields_size(classes, fields, n, visited) == usize::MAX
        }),
    decreases n,
{
    if n > 0 {
        lemma_fields_sum(classes, fields, (n - 1) as nat, visited);
    }
}

/// A field takes the bytes of its type, and one that embeds a class takes the bytes of
/// that class.
pub proof fn field_takes_the_bytes_of_its_type(classes: Seq<ClassNode>, node: Node)
    ensures
        node.tag@ != "ClassInstance"@ ==> node_size(classes, node, Seq::empty())
            == node.memory_size,
        node.tag@ == "ClassInstance"@ ==> node_size(classes, node, Seq::empty())
            == match node.instance {
            Some(t) => class_size(classes, t),
            None => 0,
        },
{
    if let Some(t) = node.instance {
        assert(Seq::<u128>::empty().push(t) =~= seq![t]);
    }
}

} // verus!

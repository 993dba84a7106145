//! The calls from scripts that read and edit the classes of the project.
use vstd::prelude::*;
use vstd::string::StringExecFns;

use crate::host_error::{HostError, Misuse, Stage, MAX_SCRIPT_READ};
use crate::host_ops::{ClassReply, HostOp, HostStep, NodeReply, Reply};
use crate::host_proc::{fail, Target};
use crate::json::{
    all_sizes, arg, arg_at, get, member, opt_arg, opt_arg_at, real_of, real_value, size_arg,
    size_at, sizes_of, str_of, str_value, text_arg, text_at, Json, JsonKind,
};
use crate::model::{
    class_index, class_size, empty_class, fields_size, greedy_sizes, hex_fill, hex_tag, is_padding,
    lemma_class_index, lemma_unvisited_drops, node_size, resolved_node_size, unvisited, greedy_step, ClassNode, Node, Project, Shape,
};
use crate::node_path::{
    change_node, changed, node_at, remove_node, removed_at, replaced_at, takes, NodeChange,
};
use crate::process_reader::{same_ignoring_case, same_ignoring_case_exec};
use crate::text::{chars_of, hex_lower, same_str, trim, trim_exec, zero_padded};

verus! {

/// The id that a text writes, in any of the forms of a UUID.
pub uninterp spec fn uuid_of(text: Seq<char>) -> Option<u128>;

/// An id as a UUID is written: 32 hex digits in groups, with hyphens between.
pub open spec fn hyphenated(id: u128) -> Seq<char> {
    let h = zero_padded(hex_lower(id as nat), 32);
    h.subrange(0, 8) + seq!['-'] + h.subrange(8, 12) + seq!['-'] + h.subrange(12, 16) + seq!['-']
        + h.subrange(16, 20) + seq!['-'] + h.subrange(20, 32)
}

/// `str::parse` into `uuid::Uuid`. The contract claims that the id depends on
/// the text alone and names it, and that an id in its written form is read back.
/// Which other forms are read is left to the crate.
#[verifier::external_body]
pub(crate) fn parse_uuid(text: &str) -> (id: Option<u128>)
    ensures
        id == uuid_of(text@),
        forall|u: u128| text@ == #[trigger] hyphenated(u) ==> id == Some(u),
{
    text.parse::<uuid::Uuid>().ok().map(|u| u.as_u128())
}

/// `Uuid::to_string`. The contract states the text: lower-case hex digits in
/// groups of 8, 4, 4, 4 and 12.
#[verifier::external_body]
pub(crate) fn uuid_text(id: u128) -> (text: String)
    ensures
        text@ == hyphenated(id),
{
    uuid::Uuid::from_u128(id).to_string()
}

/// The id of the first class of that name, in any case of its letters.
pub open spec fn class_named(classes: Seq<ClassNode>, name: Seq<char>) -> Option<u128>
    decreases classes.len(),
{
    if classes.len() == 0 {
        None
    } else if same_ignoring_case(classes[0].name@, name) {
        Some(classes[0].id)
    } else {
        class_named(classes.subrange(1, classes.len() as int), name)
    }
}

/// The class that a key names, given the id that it writes: the class of that
/// id, or else the first of that name.
pub open spec fn class_for(classes: Seq<ClassNode>, key: Seq<char>, id: Option<u128>) -> Option<
    u128,
> {
    match id {
        Some(u) => if class_index(classes, u) is Some {
            Some(u)
        } else {
            class_named(classes, key)
        },
        None => class_named(classes, key),
    }
}

/// The class that a key names.
pub open spec fn class_key(classes: Seq<ClassNode>, key: Seq<char>) -> Option<u128> {
    class_for(classes, key, uuid_of(key))
}

proof fn lemma_class_named(classes: Seq<ClassNode>, name: Seq<char>)
    ensures
        class_named(classes, name) matches Some(id) ==> class_index(classes, id) is Some,
    decreases classes.len(),
{
    if classes.len() > 0 && !same_ignoring_case(classes[0].name@, name) {
        let rest = classes.subrange(1, classes.len() as int);
        lemma_class_named(rest, name);
        if let Some(id) = class_named(rest, name) {
            lemma_class_index(rest, id);
            lemma_class_index(classes, id);
            let i = class_index(rest, id)->0;
            assert(classes[i + 1].id == id);
        }
    } else if classes.len() > 0 {
        lemma_class_index(classes, classes[0].id);
    }
}

/// Finds the class that a key names, given the id that the key writes.
pub fn class_for_exec(classes: &Vec<ClassNode>, key: &str, id: Option<u128>) -> (r: Option<u128>)
    ensures
        r == class_for(classes@, key@, id),
        r matches Some(u) ==> class_index(classes@, u) is Some,
{
    if let Some(u) = id {
        if crate::model::find_class(classes, u).is_some() {
            return Some(u);
        }
    }
    proof {
        lemma_class_named(classes@, key@);
    }
    let mut i: usize = 0;
    assert(classes@.subrange(0, classes@.len() as int) =~= classes@);
    while i < classes.len()
        invariant
            i <= classes@.len(),
            class_named(classes@, key@) == class_named(
                classes@.subrange(i as int, classes@.len() as int),
                key@,
            ),
            class_named(classes@, key@) matches Some(u) ==> class_index(classes@, u) is Some,
            class_for(classes@, key@, id) == class_named(classes@, key@),
        decreases classes@.len() - i,
    {
        proof {
            let rest = classes@.subrange(i as int, classes@.len() as int);
            assert(rest.subrange(1, rest.len() as int) =~= classes@.subrange(
                i + 1,
                classes@.len() as int,
            ));
        }
        if same_ignoring_case_exec(classes[i].name.as_str(), key) {
            return Some(classes[i].id);
        }
        i += 1;
    }
    None
}

/// Finds a class by its id or its name.
pub fn find_class_uuid(classes: &Vec<ClassNode>, key: &str) -> (r: Option<u128>)
    ensures
        r == class_key(classes@, key@),
        r matches Some(u) ==> class_index(classes@, u) is Some,
        forall|id: u128|
            key@ == #[trigger] hyphenated(id) && class_index(classes@, id) is Some ==> r == Some(
                id,
            ),
{
    class_for_exec(classes, key, parse_uuid(key))
}

/// A kind of node that can be made.
#[derive(Debug)]
pub struct NodeKind {
    pub tag: String,
    pub memory_size: usize,
    pub container: bool,
    pub takes_target: bool,
    /// Whether such a node is as wide as a pointer of the target.
    pub pointer_sized: bool,
    pub shape: Shape,
}

/// The first kind with that tag.
pub open spec fn kind_tagged(kinds: Seq<NodeKind>, tag: Seq<char>) -> Option<NodeKind>
    decreases kinds.len(),
{
    if kinds.len() == 0 {
        None
    } else if kinds[0].tag@ == tag {
        Some(kinds[0])
    } else {
        kind_tagged(kinds.subrange(1, kinds.len() as int), tag)
    }
}

/// A new node of a kind, with a name and a comment where they are given.
pub open spec fn is_new_node(
    n: Node,
    kind: NodeKind,
    name: Option<String>,
    comment: Option<String>,
) -> bool {
    &&& n.tag@ == kind.tag@
    &&& n.name@ == match name {
        Some(t) => t@,
        None => Seq::empty(),
    }
    &&& n.comment@ == match comment {
        Some(t) => t@,
        None => Seq::empty(),
    }
    &&& !n.hidden
    &&& n.memory_size == kind.memory_size
    &&& n.container == kind.container
    &&& n.children@.len() == 0
    &&& n.instance is None
    &&& n.pointer_target is None
    &&& n.takes_target == kind.takes_target
    &&& n.pointer_sized == kind.pointer_sized
    &&& n.shape == kind.shape
}

/// Makes a node of the kind with that tag.
pub fn construct(
    kinds: &Vec<NodeKind>,
    tag: &str,
    name: Option<String>,
    comment: Option<String>,
) -> (r: Option<Node>)
    ensures
        match r {
            Some(n) => kind_tagged(kinds@, tag@) matches Some(k) && is_new_node(
                n,
                k,
                name,
                comment,
            ),
            None => kind_tagged(kinds@, tag@) is None,
        },
{
    let mut i: usize = 0;
    assert(kinds@.subrange(0, kinds@.len() as int) =~= kinds@);
    while i < kinds.len()
        invariant
            i <= kinds@.len(),
            kind_tagged(kinds@, tag@) == kind_tagged(
                kinds@.subrange(i as int, kinds@.len() as int),
                tag@,
            ),
        decreases kinds@.len() - i,
    {
        proof {
            let rest = kinds@.subrange(i as int, kinds@.len() as int);
            assert(rest.subrange(1, rest.len() as int) =~= kinds@.subrange(
                i + 1,
                kinds@.len() as int,
            ));
        }
        let k = &kinds[i];
        if same_str(k.tag.as_str(), tag) {
            let name = match name {
                Some(t) => t,
                None => String::new(),
            };
            let comment = match comment {
                Some(t) => t,
                None => String::new(),
            };
            return Some(
                Node {
                    tag: k.tag.clone(),
                    name,
                    comment,
                    hidden: false,
                    memory_size: k.memory_size,
                    container: k.container,
                    children: Vec::new(),
                    instance: None,
                    pointer_target: None,
                    takes_target: k.takes_target,
                    pointer_sized: k.pointer_sized,
                    shape: k.shape,
                },
            );
        }
        i += 1;
    }
    None
}

/// The classes but for the fields of the class number `i`.
pub open spec fn same_but_fields(a: Seq<ClassNode>, b: Seq<ClassNode>, i: int) -> bool {
    &&& 0 <= i < a.len()
    &&& b == a.update(i, b[i])
    &&& b[i] == ClassNode { children: b[i].children, ..a[i] }
}

/// The project but for its classes.
pub open spec fn same_project(a: Project, b: Project) -> bool {
    a.name == b.name && a.enums == b.enums && a.pointer_size == b.pointer_size
}

/// `classes.list()`.
pub open spec fn lists_classes(classes: Seq<ClassNode>, out: Seq<ClassReply>) -> bool {
    &&& out.len() == classes.len()
    &&& forall|i: int|
        0 <= i < out.len() ==> (#[trigger] out[i]).id@ == hyphenated(classes[i].id) && out[i].name
            == classes[i].name && out[i].formula == classes[i].address_formula && out[i].size
            == class_size(classes, classes[i].id)
}

pub fn list_classes(project: &Project) -> (out: Vec<ClassReply>)
    ensures
        lists_classes(project.classes@, out@),
{
    let mut out: Vec<ClassReply> = Vec::new();
    while out.len() < project.classes.len()
        invariant
            out@.len() <= project.classes@.len(),
            forall|i: int|
                0 <= i < out@.len() ==> (#[trigger] out@[i]).id@ == hyphenated(
                    project.classes@[i].id,
                ) && out@[i].name == project.classes@[i].name && out@[i].formula
                    == project.classes@[i].address_formula && out@[i].size == class_size(
                    project.classes@,
                    project.classes@[i].id,
                ),
        decreases project.classes@.len() - out@.len(),
    {
        let c = &project.classes[out.len()];
        out.push(
            ClassReply {
                id: uuid_text(c.id),
                name: c.name.clone(),
                size: project.size_of(c.id),
                formula: c.address_formula.clone(),
            },
        );
    }
    out
}

/// A new class at the end of the project, without fields.
pub open spec fn class_added(
    was: Project,
    now: Project,
    id: u128,
    name: Seq<char>,
    formula: Seq<char>,
) -> bool {
    &&& same_project(was, now)
    &&& now.classes@.len() == was.classes@.len() + 1
    &&& now.classes@.drop_last() == was.classes@
    &&& now.classes@.last().id == id
    &&& now.classes@.last().name@ == name
    &&& now.classes@.last().comment@.len() == 0
    &&& now.classes@.last().address_formula@ == formula
    &&& now.classes@.last().children@.len() == 0
}

/// Adds a class without fields.
pub fn add_class(project: &mut Project, id: u128, name: String, formula: String)
    ensures
        class_added(*old(project), *final(project), id, name@, formula@),
{
    let mut class = empty_class(id, name);
    class.address_formula = formula;
    project.add_class(class);
    assert(project.classes@.drop_last() =~= old(project).classes@);
}

/// `classes.get(key)`: what is said of a class.
pub open spec fn answers_class(r: Reply, c: ClassNode) -> bool {
    r matches Reply::Class { id, name, formula, nodes } && id@ == hyphenated(c.id) && name
        == c.name && formula == c.address_formula && nodes@.len() == c.children@.len() && forall|
        i: int,
    |
        0 <= i < nodes@.len() ==> (#[trigger] nodes@[i]).tag == c.children@[i].tag && nodes@[i].name
            == c.children@[i].name && nodes@[i].comment == c.children@[i].comment
}

fn class_reply(c: &ClassNode) -> (r: Reply)
    ensures
        answers_class(r, *c),
{
    let mut nodes: Vec<NodeReply> = Vec::new();
    while nodes.len() < c.children.len()
        invariant
            nodes@.len() <= c.children@.len(),
            forall|i: int|
                0 <= i < nodes@.len() ==> (#[trigger] nodes@[i]).tag == c.children@[i].tag
                    && nodes@[i].name == c.children@[i].name && nodes@[i].comment
                    == c.children@[i].comment,
        decreases c.children@.len() - nodes@.len(),
    {
        let n = &c.children[nodes.len()];
        nodes.push(
            NodeReply { tag: n.tag.clone(), name: n.name.clone(), comment: n.comment.clone() },
        );
    }
    Reply::Class {
        id: uuid_text(c.id),
        name: c.name.clone(),
        formula: c.address_formula.clone(),
        nodes,
    }
}

pub open spec fn gets_class(args: Json, classes: Seq<ClassNode>, step: HostStep) -> bool {
    match text_at(args, 0) {
        Err(e) => step == HostStep::Done(Err(HostError::Arg(e))),
        Ok(key) => match class_key(classes, key@) {
            None => step == HostStep::Done(Ok(Reply::Null)),
            Some(id) => step matches HostStep::Done(Ok(r)) && answers_class(
                r,
                classes[class_index(classes, id)->0],
            ),
        },
    }
}

pub fn get_class(args: &Json, project: &Project) -> (step: HostStep)
    ensures
        gets_class(*args, project.classes@, step),
{
    let key = match text_arg(args, 0) {
        Ok(t) => t,
        Err(e) => return fail(HostError::Arg(e)),
    };
    match find_class_uuid(&project.classes, key.as_str()) {
        None => HostStep::Done(Ok(Reply::Null)),
        Some(id) => match project.index_of(id) {
            Some(i) => HostStep::Done(Ok(class_reply(&project.classes[i]))),
            None => HostStep::Done(Ok(Reply::Null)),
        },
    }
}

/// The formula of a class is set; answers whether there is such a class.
pub open spec fn sets_formula(
    was: Project,
    now: Project,
    key: Seq<char>,
    formula: String,
    r: Reply,
) -> bool {
    match class_key(was.classes@, key) {
        None => now == was && r == Reply::Bool(false),
        Some(id) => {
            let i = class_index(was.classes@, id)->0;
            &&& same_project(was, now)
            &&& now.classes@ == was.classes@.update(
                i,
                ClassNode { address_formula: formula, ..was.classes@[i] },
            )
            &&& r == Reply::Bool(true)
        },
    }
}

/// Sets the formula of a class.
pub fn set_formula(project: &mut Project, key: &str, formula: String) -> (r: Reply)
    ensures
        sets_formula(*old(project), *final(project), key@, formula, r),
{
    match find_class_uuid(&project.classes, key) {
        None => Reply::Bool(false),
        Some(id) => match project.index_of(id) {
            Some(i) => {
                let c = &mut project.classes[i];
                c.address_formula = formula;
                Reply::Bool(true)
            },
            None => Reply::Bool(false),
        },
    }
}

/// `classes.setFormula(key, formula)`: a formula that is not empty has to be
/// checked first.
pub open spec fn asks_set_formula(args: Json, was: Project, now: Project, step: HostStep) -> bool {
    match (text_at(args, 0), text_at(args, 1)) {
        (Err(e), _) => now == was && step == HostStep::Done(Err(HostError::Arg(e))),
        (Ok(_), Err(e)) => now == was && step == HostStep::Done(Err(HostError::Arg(e))),
        (Ok(key), Ok(formula)) => if trim(formula@).len() > 0 {
            now == was && step == HostStep::Ask(HostOp::CheckFormula { key, formula })
        } else {
            step matches HostStep::Done(Ok(r)) && sets_formula(was, now, key@, formula, r)
        },
    }
}

pub fn ask_set_formula(args: &Json, project: &mut Project) -> (step: HostStep)
    ensures
        asks_set_formula(*args, *old(project), *final(project), step),
{
    let key = match text_arg(args, 0) {
        Ok(t) => t,
        Err(e) => return fail(HostError::Arg(e)),
    };
    let formula = match text_arg(args, 1) {
        Ok(t) => t,
        Err(e) => return fail(HostError::Arg(e)),
    };
    let c = chars_of(formula.as_str());
    if trim_exec(c.as_slice()).len() > 0 {
        return HostStep::Ask(HostOp::CheckFormula { key, formula });
    }
    HostStep::Done(Ok(set_formula(project, key.as_str(), formula)))
}

/// Sets a formula that was checked; one that is refused is not stored.
pub fn formula_checked(
    project: &mut Project,
    key: &str,
    formula: String,
    checked: Result<(), String>,
) -> (r: Result<Reply, HostError>)
    ensures
        match checked {
            Err(e) => *final(project) == *old(project) && r == Err::<Reply, HostError>(
                HostError::BadFormula(formula, e),
            ),
            Ok(_) => r matches Ok(reply) && sets_formula(
                *old(project),
                *final(project),
                key@,
                formula,
                reply,
            ),
        },
{
    match checked {
        Err(e) => Err(HostError::BadFormula(formula, e)),
        Ok(_) => Ok(set_formula(project, key, formula)),
    }
}

/// A text among the options of a call.
pub open spec fn text_option(args: Json, i: nat, name: Seq<char>) -> Option<String> {
    str_of(member(opt_arg_at(args, i), name))
}

fn text_option_exec(args: &Json, i: usize, name: &str) -> (r: Option<String>)
    ensures
        r == text_option(*args, i as nat, name@),
{
    str_value(get(opt_arg(args, i), name))
}

/// `classes.addNode(key, type, opts?)`: the node is added behind the last field.
pub open spec fn adds_node(
    args: Json,
    kinds: Seq<NodeKind>,
    was: Project,
    now: Project,
    step: HostStep,
) -> bool {
    match (text_at(args, 0), text_at(args, 1)) {
        (Err(e), _) => now == was && step == HostStep::Done(Err(HostError::Arg(e))),
        (Ok(_), Err(e)) => now == was && step == HostStep::Done(Err(HostError::Arg(e))),
        (Ok(key), Ok(ty)) => match class_key(was.classes@, key@) {
            None => now == was && step == HostStep::Done(Ok(Reply::Bool(false))),
            Some(id) => match kind_tagged(kinds, ty@) {
                None => now == was && step == HostStep::Done(Err(HostError::UnknownNode(ty))),
                Some(k) => {
                    let i = class_index(was.classes@, id)->0;
                    let fields = now.classes@[i].children@;
                    &&& step == HostStep::Done(Ok(Reply::Bool(true)))
                    &&& same_project(was, now)
                    &&& same_but_fields(was.classes@, now.classes@, i)
                    &&& fields.len() == was.classes@[i].children@.len() + 1
                    &&& fields.drop_last() == was.classes@[i].children@
                    &&& is_new_node(
                        fields.last(),
                        k,
                        text_option(args, 2, "name"@),
                        text_option(args, 2, "comment"@),
                    )
                },
            },
        },
    }
}

pub fn add_node(args: &Json, kinds: &Vec<NodeKind>, project: &mut Project) -> (step: HostStep)
    ensures
        adds_node(*args, kinds@, *old(project), *final(project), step),
{
    let key = match text_arg(args, 0) {
        Ok(t) => t,
        Err(e) => return fail(HostError::Arg(e)),
    };
    let ty = match text_arg(args, 1) {
        Ok(t) => t,
        Err(e) => return fail(HostError::Arg(e)),
    };
    let name = text_option_exec(args, 2, "name");
    let comment = text_option_exec(args, 2, "comment");
    let id = match find_class_uuid(&project.classes, key.as_str()) {
        Some(id) => id,
        None => return HostStep::Done(Ok(Reply::Bool(false))),
    };
    let node = match construct(kinds, ty.as_str(), name, comment) {
        Some(n) => n,
        None => return fail(HostError::UnknownNode(ty)),
    };
    if let Some(i) = project.index_of(id) {
        let c = &mut project.classes[i];
        c.children.push(node);
        proof {
            let fields = project.classes@[i as int].children@;
            assert(fields.drop_last() =~= old(project).classes@[i as int].children@);
        }
    }
    HostStep::Done(Ok(Reply::Bool(true)))
}

/// Where a field that is to start at `offset` goes.
pub enum Placement {
    /// In front of the field with this number, which starts there.
    Before(int),
    /// Behind the last field, with so many bytes between.
    Behind(int),
    /// Nowhere: the offset lies inside a field.
    Inside,
}

/// Where a field that is to start at `offset` goes, from the field number `i` on.
pub open spec fn placement(
    classes: Seq<ClassNode>,
    fields: Seq<Node>,
    visited: Seq<u128>,
    offset: int,
    i: nat,
) -> Placement
    decreases fields.len() - i,
{
    let start = fields_size(classes, fields, i, visited) as int;
    if i >= fields.len() {
        if offset < start {
            Placement::Inside
        } else {
            Placement::Behind(offset - start)
        }
    } else if start == offset {
        Placement::Before(i as int)
    } else if start > offset {
        Placement::Inside
    } else {
        placement(classes, fields, visited, offset, i + 1)
    }
}

/// Where a new field goes: its index, and how many bytes of padding come first.
#[derive(Clone, Copy, Debug, PartialEq, Eq, Structural)]
pub enum PlaceAt {
    Before(usize),
    Behind(usize),
    Inside,
}

/// Finds where a field that is to start at `offset` goes. Embedded classes count
/// with what their fields take.
pub fn place_field(classes: &Vec<ClassNode>, class: &ClassNode, offset: usize) -> (p: PlaceAt)
    ensures
        match placement(classes@, class.children@, seq![class.id], offset as int, 0) {
            Placement::Before(i) => p == PlaceAt::Before(i as usize) && 0 <= i
                < class.children@.len() && i <= usize::MAX,
            Placement::Behind(gap) => p == PlaceAt::Behind(gap as usize) && 0 <= gap
                <= usize::MAX,
            Placement::Inside => p == PlaceAt::Inside,
        },
{
    let ghost want = placement(classes@, class.children@, seq![class.id], offset as int, 0);
    let mut visited: Vec<u128> = vec![class.id];
    assert(visited@ =~= seq![class.id]);
    let mut cursor: usize = 0;
    let mut i: usize = 0;
    while i < class.children.len()
        invariant
            i <= class.children@.len(),
            visited@ == seq![class.id],
            cursor == fields_size(classes@, class.children@, i as nat, visited@),
            want == placement(classes@, class.children@, visited@, offset as int, i as nat),
            want == placement(classes@, class.children@, seq![class.id], offset as int, 0),
        decreases class.children@.len() - i,
    {
        if cursor == offset {
            return PlaceAt::Before(i);
        }
        if cursor > offset {
            return PlaceAt::Inside;
        }
        let size: usize = resolved_node_size(classes, &class.children[i], &mut visited);
        cursor = cursor.saturating_add(size);
        i += 1;
    }
    if offset < cursor {
        PlaceAt::Inside
    } else {
        PlaceAt::Behind(offset - cursor)
    }
}

/// Padding nodes: they fill `gap` bytes, the largest first.
pub open spec fn pads(nodes: Seq<Node>, gap: nat) -> bool {
    &&& nodes.len() == greedy_sizes(gap).len()
    &&& forall|i: int|
        0 <= i < nodes.len() ==> is_padding(
            #[trigger] nodes[i],
            hex_tag(greedy_sizes(gap)[i]),
            greedy_sizes(gap)[i] as usize,
        )
}

/// `classes.addNodeAt(key, offset, type, opts?)`.
pub open spec fn adds_node_at(
    args: Json,
    kinds: Seq<NodeKind>,
    was: Project,
    now: Project,
    step: HostStep,
) -> bool {
    match (text_at(args, 0), size_at(args, 1), text_at(args, 2)) {
        (Err(e), _, _) => now == was && step == HostStep::Done(Err(HostError::Arg(e))),
        (Ok(_), Err(e), _) => now == was && step == HostStep::Done(Err(HostError::Arg(e))),
        (Ok(_), Ok(_), Err(e)) => now == was && step == HostStep::Done(Err(HostError::Arg(e))),
        (Ok(key), Ok(offset), Ok(ty)) => match class_key(was.classes@, key@) {
            None => now == was && step == HostStep::Done(Ok(Reply::Bool(false))),
            Some(id) => match kind_tagged(kinds, ty@) {
                None => now == was && step == HostStep::Done(Err(HostError::UnknownNode(ty))),
                Some(k) => {
                    let i = class_index(was.classes@, id)->0;
                    let old_fields = was.classes@[i].children@;
                    let fields = now.classes@[i].children@;
                    let name = text_option(args, 3, "name"@);
                    let comment = text_option(args, 3, "comment"@);
                    match placement(was.classes@, old_fields, seq![id], offset as int, 0) {
                        Placement::Inside => now == was && step == HostStep::Done(
                            Err(HostError::OffsetTaken(offset)),
                        ),
                        Placement::Before(at) => {
                            &&& step == HostStep::Done(Ok(Reply::Bool(true)))
                            &&& same_project(was, now)
                            &&& same_but_fields(was.classes@, now.classes@, i)
                            &&& fields == old_fields.insert(at, fields[at])
                            &&& is_new_node(fields[at], k, name, comment)
                        },
                        Placement::Behind(gap) => {
                            let n = old_fields.len() as int;
                            let m = fields.len() as int;
                            &&& step == HostStep::Done(Ok(Reply::Bool(true)))
                            &&& same_project(was, now)
                            &&& same_but_fields(was.classes@, now.classes@, i)
                            &&& n < m
                            &&& fields.subrange(0, n) == old_fields
                            &&& pads(fields.subrange(n, m - 1), gap as nat)
                            &&& is_new_node(fields.last(), k, name, comment)
                        },
                    }
                },
            },
        },
    }
}

pub fn add_node_at(args: &Json, kinds: &Vec<NodeKind>, project: &mut Project) -> (step: HostStep)
    ensures
        adds_node_at(*args, kinds@, *old(project), *final(project), step),
{
    let key = match text_arg(args, 0) {
        Ok(t) => t,
        Err(e) => return fail(HostError::Arg(e)),
    };
    let offset: usize = match size_arg(args, 1) {
        Ok(n) => n,
        Err(e) => return fail(HostError::Arg(e)),
    };
    let ty = match text_arg(args, 2) {
        Ok(t) => t,
        Err(e) => return fail(HostError::Arg(e)),
    };
    let name = text_option_exec(args, 3, "name");
    let comment = text_option_exec(args, 3, "comment");
    let id = match find_class_uuid(&project.classes, key.as_str()) {
        Some(id) => id,
        None => return HostStep::Done(Ok(Reply::Bool(false))),
    };
    let node = match construct(kinds, ty.as_str(), name, comment) {
        Some(n) => n,
        None => return fail(HostError::UnknownNode(ty)),
    };
    let i: usize = match project.index_of(id) {
        Some(i) => i,
        None => return HostStep::Done(Ok(Reply::Bool(false))),
    };
    match place_field(&project.classes, &project.classes[i], offset) {
        PlaceAt::Inside => fail(HostError::OffsetTaken(offset)),
        PlaceAt::Before(at) => {
            let ghost old_fields = project.classes@[i as int].children@;
            let c = &mut project.classes[i];
            c.children.insert(at, node);
            proof {
                let fields = project.classes@[i as int].children@;
                assert(fields =~= old_fields.insert(at as int, node));
                assert(fields[at as int] == node);
                assert(same_but_fields(old(project).classes@, project.classes@, i as int));
            }
            HostStep::Done(Ok(Reply::Bool(true)))
        },
        PlaceAt::Behind(gap) => {
            let mut pad = hex_fill(gap);
            let ghost padding = pad@;
            let ghost old_fields = project.classes@[i as int].children@;
            let c = &mut project.classes[i];
            c.children.append(&mut pad);
            c.children.push(node);
            proof {
                let fields = project.classes@[i as int].children@;
                let n = old_fields.len() as int;
                assert(fields =~= (old_fields + padding).push(node));
                assert(fields.subrange(0, n) =~= old_fields);
                assert(fields.subrange(n, fields.len() - 1) =~= padding);
                assert(pads(padding, gap as nat));
                assert(fields.last() == node);
                assert(same_but_fields(old(project).classes@, project.classes@, i as int));
            }
            HostStep::Done(Ok(Reply::Bool(true)))
        },
    }
}

pub(crate) proof fn lemma_same_index(a: Seq<ClassNode>, b: Seq<ClassNode>, i: int, t: u128)
    requires
        same_but_fields(a, b, i),
    ensures
        class_index(a, t) == class_index(b, t),
{
    lemma_class_index(a, t);
    lemma_class_index(b, t);
    assert forall|j: int| 0 <= j < a.len() implies (#[trigger] a[j]).id == b[j].id by {
        if j == i {
            assert(b[i] == ClassNode { children: b[i].children, ..a[i] });
        }
    }
    match (class_index(a, t), class_index(b, t)) {
        (Some(x), Some(y)) => {
            assert(a[x].id == b[x].id);
            assert(a[y].id == b[y].id);
        },
        (Some(x), None) => {
            assert(a[x].id == b[x].id);
        },
        (None, Some(y)) => {
            assert(a[y].id == b[y].id);
        },
        _ => {},
    }
}

/// What a node takes does not depend on the fields of a class that is counted as
/// embedded already.
proof fn lemma_node_size_same(
    a: Seq<ClassNode>,
    b: Seq<ClassNode>,
    i: int,
    node: Node,
    visited: Seq<u128>,
)
    requires
        same_but_fields(a, b, i),
        visited.contains(a[i].id),
    ensures
        node_size(a, node, visited) == node_size(b, node, visited),
    decreases unvisited(a, visited), 1nat, 0nat,
{
    if node.tag@ == "ClassInstance"@ {
        if let Some(t) = node.instance_target() {
            lemma_same_index(a, b, i, t);
            lemma_class_index(a, t);
            if let Some(j) = class_index(a, t) {
                if !visited.contains(t) {
                    assert(j != i);
                    assert(a[j] == b[j]);
                    lemma_unvisited_drops(a, visited, t);
                    let more = visited.push(t);
                    let k = choose|k: int| 0 <= k < visited.len() && visited[k] == a[i].id;
                    assert(more[k] == a[i].id);
                    lemma_fields_size_same(
                        a,
                        b,
                        i,
                        a[j].children@,
                        a[j].children@.len(),
                        more,
                    );
                }
            }
        }
    }
}

proof fn lemma_fields_size_same(
    a: Seq<ClassNode>,
    b: Seq<ClassNode>,
    i: int,
    fields: Seq<Node>,
    n: nat,
    visited: Seq<u128>,
)
    requires
        same_but_fields(a, b, i),
        visited.contains(a[i].id),
    ensures
        fields_size(a, fields, n, visited) == fields_size(b, fields, n, visited),
    decreases unvisited(a, visited), 2nat, n,
{
    if n > 0 {
        lemma_fields_size_same(a, b, i, fields, (n - 1) as nat, visited);
        lemma_node_size_same(a, b, i, fields[n - 1], visited);
    }
}

/// The first `n` of some fields take the same where the fields agree that far.
proof fn lemma_fields_prefix(
    classes: Seq<ClassNode>,
    x: Seq<Node>,
    y: Seq<Node>,
    n: nat,
    visited: Seq<u128>,
)
    requires
        n <= x.len(),
        n <= y.len(),
        forall|j: int| 0 <= j < n ==> x[j] == y[j],
    ensures
        fields_size(classes, x, n, visited) == fields_size(classes, y, n, visited),
    decreases n,
{
    if n > 0 {
        lemma_fields_prefix(classes, x, y, (n - 1) as nat, visited);
    }
}

/// Behind padding the next field starts as many bytes further on as the padding
/// fills.
proof fn lemma_behind_padding(
    classes: Seq<ClassNode>,
    fields: Seq<Node>,
    n: nat,
    gap: nat,
    visited: Seq<u128>,
)
    requires
        n + greedy_sizes(gap).len() <= fields.len(),
        pads(fields.subrange(n as int, (n + greedy_sizes(gap).len()) as int), gap),
        fields_size(classes, fields, n, visited) + gap <= usize::MAX,
    ensures
        fields_size(classes, fields, n + greedy_sizes(gap).len(), visited) == fields_size(
            classes,
            fields,
            n,
            visited,
        ) + gap,
    decreases gap,
{
    if gap > 0 {
        let g = greedy_step(gap);
        let rest = (gap - g) as nat;
        let all = greedy_sizes(gap);
        let pad = fields.subrange(n as int, (n + all.len()) as int);
        assert(all =~= seq![g] + greedy_sizes(rest));
        assert(is_padding(pad[0], hex_tag(all[0]), all[0] as usize));
        assert(fields[n as int] == pad[0]);
        reveal_strlit("ClassInstance");
        reveal_strlit("Hex64");
        reveal_strlit("Hex32");
        reveal_strlit("Hex16");
        reveal_strlit("Hex8");
        assert(hex_tag(g).len() < 13);
        assert(node_size(classes, fields[n as int], visited) == g);
        assert(fields_size(classes, fields, n + 1, visited) == fields_size(
            classes,
            fields,
            n,
            visited,
        ) + g);
        let later = fields.subrange((n + 1) as int, (n + 1 + greedy_sizes(rest).len()) as int);
        assert forall|j: int| 0 <= j < later.len() implies is_padding(
            #[trigger] later[j],
            hex_tag(greedy_sizes(rest)[j]),
            greedy_sizes(rest)[j] as usize,
        ) by {
            assert(later[j] == pad[j + 1]);
            assert(all[j + 1] == greedy_sizes(rest)[j]);
        }
        lemma_behind_padding(classes, fields, n + 1, rest, visited);
    }
}

proof fn lemma_placement(
    classes: Seq<ClassNode>,
    fields: Seq<Node>,
    visited: Seq<u128>,
    offset: int,
    i: nat,
)
    requires
        i <= fields.len(),
    ensures
        match placement(classes, fields, visited, offset, i) {
            Placement::Before(at) => i <= at < fields.len() && fields_size(
                classes,
                fields,
                at as nat,
                visited,
            ) == offset,
            Placement::Behind(gap) => gap >= 0 && fields_size(
                classes,
                fields,
                fields.len(),
                visited,
            ) + gap == offset,
            Placement::Inside => true,
        },
    decreases fields.len() - i,
{
    if i < fields.len() {
        lemma_placement(classes, fields, visited, offset, i + 1);
    }
}

/// A field that is placed at an offset starts there: after `classes.addNodeAt`
/// the fields in front of the new one, padding counted, take exactly the offset.
pub proof fn placed_field_starts_at_its_offset(
    args: Json,
    kinds: Seq<NodeKind>,
    was: Project,
    now: Project,
    step: HostStep,
)
    requires
        adds_node_at(args, kinds, was, now, step),
        step == HostStep::Done(Ok(Reply::Bool(true))),
    ensures
        ({
            let offset = size_at(args, 1)->Ok_0;
            let id = class_key(was.classes@, (text_at(args, 0)->Ok_0)@)->0;
            let fields = now.classes@[class_index(was.classes@, id)->0].children@;
            exists|n: nat|
                n < fields.len() && fields_size(now.classes@, fields, n, seq![id]) == offset
                    && is_new_node(
                    #[trigger] fields[n as int],
                    kind_tagged(kinds, (text_at(args, 2)->Ok_0)@)->0,
                    text_option(args, 3, "name"@),
                    text_option(args, 3, "comment"@),
                )
        }),
{
    let offset = size_at(args, 1)->Ok_0;
    let key = (text_at(args, 0)->Ok_0)@;
    let id = class_key(was.classes@, key)->0;
    lemma_class_named(was.classes@, key);
    lemma_class_index(was.classes@, id);
    let i = class_index(was.classes@, id)->0;
    let old_fields = was.classes@[i].children@;
    let fields = now.classes@[i].children@;
    let visited = seq![id];
    assert(visited[0] == id);
    assert(visited.contains(was.classes@[i].id));
    lemma_placement(was.classes@, old_fields, visited, offset as int, 0);
    match placement(was.classes@, old_fields, visited, offset as int, 0) {
        Placement::Before(at) => {
            let n = at as nat;
            lemma_fields_prefix(was.classes@, old_fields, fields, n, visited);
            lemma_fields_size_same(was.classes@, now.classes@, i, fields, n, visited);
            assert(is_new_node(
                fields[n as int],
                kind_tagged(kinds, (text_at(args, 2)->Ok_0)@)->0,
                text_option(args, 3, "name"@),
                text_option(args, 3, "comment"@),
            ));
        },
        Placement::Behind(gap) => {
            let n = old_fields.len();
            let m = (fields.len() - 1) as nat;
            assert forall|j: int| 0 <= j < n implies old_fields[j] == fields[j] by {
                assert(fields.subrange(0, n as int)[j] == fields[j]);
            }
            lemma_fields_prefix(was.classes@, old_fields, fields, n, visited);
            lemma_behind_padding(was.classes@, fields, n, gap as nat, visited);
            assert(m == n + greedy_sizes(gap as nat).len());
            lemma_fields_size_same(was.classes@, now.classes@, i, fields, m, visited);
            assert(is_new_node(
                fields[m as int],
                kind_tagged(kinds, (text_at(args, 2)->Ok_0)@)->0,
                text_option(args, 3, "name"@),
                text_option(args, 3, "comment"@),
            ));
        },
        Placement::Inside => {},
    }
}

/// The path that an argument writes.
pub open spec fn path_at(args: Json, i: nat) -> Result<Seq<usize>, HostError> {
    match arg_at(args, i) {
        Err(e) => Err(HostError::Arg(e)),
        Ok(v) => match v.kind {
            JsonKind::List(s) => match sizes_of(s@) {
                Ok(p) => Ok(p),
                Err(e) => Err(HostError::Arg(e)),
            },
            _ => Err(HostError::Misuse(Misuse::PathNeedsArray)),
        },
    }
}

fn path_arg(args: &Json, i: usize) -> (r: Result<Vec<usize>, HostError>)
    ensures
        match r {
            Ok(p) => path_at(*args, i as nat) == Ok::<Seq<usize>, HostError>(p@),
            Err(e) => path_at(*args, i as nat) == Err::<Seq<usize>, HostError>(e),
        },
{
    let v = match arg(args, i) {
        Ok(v) => v,
        Err(e) => return Err(HostError::Arg(e)),
    };
    match &v.kind {
        JsonKind::List(s) => match all_sizes(s) {
            Ok(p) => Ok(p),
            Err(e) => Err(HostError::Arg(e)),
        },
        _ => Err(HostError::Misuse(Misuse::PathNeedsArray)),
    }
}

/// The node at a path of a class is changed; answers whether there is such a
/// node and it takes the change.
pub open spec fn changes_node(
    was: Project,
    now: Project,
    id: u128,
    path: Seq<usize>,
    change: NodeChange,
    r: bool,
) -> bool {
    let i = class_index(was.classes@, id)->0;
    match node_at(was.classes@[i].children@, path) {
        None => now == was && !r,
        Some(n) => {
            &&& same_project(was, now)
            &&& same_but_fields(was.classes@, now.classes@, i)
            &&& replaced_at(
                was.classes@[i].children@,
                now.classes@[i].children@,
                path,
                changed(n, change),
            )
            &&& r == takes(n, change)
        },
    }
}

/// Changes the node at a path of a class.
pub fn change_class_node(project: &mut Project, id: u128, path: &Vec<usize>, change: NodeChange) -> (r:
    bool)
    requires
        class_index(old(project).classes@, id) is Some,
    ensures
        changes_node(*old(project), *final(project), id, path@, change, r),
{
    proof {
        lemma_class_index(project.classes@, id);
    }
    match project.index_of(id) {
        None => false,
        Some(i) => {
            if !crate::node_path::has_node(&project.classes[i].children, path.as_slice()) {
                return false;
            }
            let c = &mut project.classes[i];
            change_node(&mut c.children, path.as_slice(), change)
        },
    }
}

/// `classes.setPointerTarget(key, path, target)`.
pub open spec fn sets_target(args: Json, was: Project, now: Project, step: HostStep) -> bool {
    match (text_at(args, 0), path_at(args, 1), text_at(args, 2)) {
        (Err(e), _, _) => now == was && step == HostStep::Done(Err(HostError::Arg(e))),
        (Ok(_), Err(e), _) => now == was && step == HostStep::Done(Err(e)),
        (Ok(_), Ok(_), Err(e)) => now == was && step == HostStep::Done(Err(HostError::Arg(e))),
        (Ok(key), Ok(path), Ok(target_key)) => match (
            class_key(was.classes@, key@),
            class_key(was.classes@, target_key@),
        ) {
            (Some(id), Some(target)) => step matches HostStep::Done(Ok(Reply::Bool(b)))
                && changes_node(was, now, id, path, NodeChange::Target(target), b),
            _ => now == was && step == HostStep::Done(Ok(Reply::Bool(false))),
        },
    }
}

pub fn set_target(args: &Json, project: &mut Project) -> (step: HostStep)
    ensures
        sets_target(*args, *old(project), *final(project), step),
{
    let key = match text_arg(args, 0) {
        Ok(t) => t,
        Err(e) => return fail(HostError::Arg(e)),
    };
    let path = match path_arg(args, 1) {
        Ok(p) => p,
        Err(e) => return fail(e),
    };
    let target_key = match text_arg(args, 2) {
        Ok(t) => t,
        Err(e) => return fail(HostError::Arg(e)),
    };
    let id = match find_class_uuid(&project.classes, key.as_str()) {
        Some(id) => id,
        None => return HostStep::Done(Ok(Reply::Bool(false))),
    };
    let target = match find_class_uuid(&project.classes, target_key.as_str()) {
        Some(id) => id,
        None => return HostStep::Done(Ok(Reply::Bool(false))),
    };
    let r = change_class_node(project, id, &path, NodeChange::Target(target));
    HostStep::Done(Ok(Reply::Bool(r)))
}

/// `classes.setNodeName(key, path, text)`, and `classes.setNodeComment` where
/// `comment` holds.
pub open spec fn sets_text(
    args: Json,
    comment: bool,
    was: Project,
    now: Project,
    step: HostStep,
) -> bool {
    match (text_at(args, 0), path_at(args, 1), text_at(args, 2)) {
        (Err(e), _, _) => now == was && step == HostStep::Done(Err(HostError::Arg(e))),
        (Ok(_), Err(e), _) => now == was && step == HostStep::Done(Err(e)),
        (Ok(_), Ok(_), Err(e)) => now == was && step == HostStep::Done(Err(HostError::Arg(e))),
        (Ok(key), Ok(path), Ok(text)) => match class_key(was.classes@, key@) {
            None => now == was && step == HostStep::Done(Ok(Reply::Bool(false))),
            Some(id) => step matches HostStep::Done(Ok(Reply::Bool(b))) && changes_node(
                was,
                now,
                id,
                path,
                if comment {
                    NodeChange::Comment(text)
                } else {
                    NodeChange::Name(text)
                },
                b,
            ),
        },
    }
}

pub fn set_node_text(args: &Json, comment: bool, project: &mut Project) -> (step: HostStep)
    ensures
        sets_text(*args, comment, *old(project), *final(project), step),
{
    let key = match text_arg(args, 0) {
        Ok(t) => t,
        Err(e) => return fail(HostError::Arg(e)),
    };
    let path = match path_arg(args, 1) {
        Ok(p) => p,
        Err(e) => return fail(e),
    };
    let text = match text_arg(args, 2) {
        Ok(t) => t,
        Err(e) => return fail(HostError::Arg(e)),
    };
    let id = match find_class_uuid(&project.classes, key.as_str()) {
        Some(id) => id,
        None => return HostStep::Done(Ok(Reply::Bool(false))),
    };
    let change = if comment {
        NodeChange::Comment(text)
    } else {
        NodeChange::Name(text)
    };
    let r = change_class_node(project, id, &path, change);
    HostStep::Done(Ok(Reply::Bool(r)))
}

/// `classes.removeNode(key, path)`.
pub open spec fn removes_node(args: Json, was: Project, now: Project, step: HostStep) -> bool {
    match (text_at(args, 0), path_at(args, 1)) {
        (Err(e), _) => now == was && step == HostStep::Done(Err(HostError::Arg(e))),
        (Ok(_), Err(e)) => now == was && step == HostStep::Done(Err(e)),
        (Ok(key), Ok(path)) => match class_key(was.classes@, key@) {
            None => now == was && step == HostStep::Done(Ok(Reply::Bool(false))),
            Some(id) => {
                let i = class_index(was.classes@, id)->0;
                if node_at(was.classes@[i].children@, path) is Some {
                    &&& step == HostStep::Done(Ok(Reply::Bool(true)))
                    &&& same_project(was, now)
                    &&& same_but_fields(was.classes@, now.classes@, i)
                    &&& removed_at(was.classes@[i].children@, now.classes@[i].children@, path)
                } else {
                    now == was && step == HostStep::Done(Ok(Reply::Bool(false)))
                }
            },
        },
    }
}

pub fn remove_class_node(args: &Json, project: &mut Project) -> (step: HostStep)
    ensures
        removes_node(*args, *old(project), *final(project), step),
{
    let key = match text_arg(args, 0) {
        Ok(t) => t,
        Err(e) => return fail(HostError::Arg(e)),
    };
    let path = match path_arg(args, 1) {
        Ok(p) => p,
        Err(e) => return fail(e),
    };
    let id = match find_class_uuid(&project.classes, key.as_str()) {
        Some(id) => id,
        None => return HostStep::Done(Ok(Reply::Bool(false))),
    };
    match project.index_of(id) {
        None => HostStep::Done(Ok(Reply::Bool(false))),
        Some(i) => {
            if !crate::node_path::has_node(&project.classes[i].children, path.as_slice()) {
                return HostStep::Done(Ok(Reply::Bool(false)));
            }
            let c = &mut project.classes[i];
            let r = remove_node(&mut c.children, path.as_slice());
            HostStep::Done(Ok(Reply::Bool(r)))
        },
    }
}

/// The process is there and its modules are listed, which resolving a formula
/// takes.
pub open spec fn formula_ready(process: Option<Target>) -> Result<(), HostError> {
    match process {
        None => Err(HostError::Misuse(Misuse::NotAttached)),
        Some(t) => match t.modules {
            Ok(_) => Ok(()),
            Err(e) => Err(HostError::Failed(Stage::Modules, e)),
        },
    }
}

fn formula_ready_exec(process: &Option<Target>) -> (r: Result<(), HostError>)
    ensures
        r == formula_ready(*process),
{
    match process {
        None => Err(HostError::Misuse(Misuse::NotAttached)),
        Some(t) => match &t.modules {
            Ok(_) => Ok(()),
            Err(e) => Err(HostError::Failed(Stage::Modules, e.clone())),
        },
    }
}

/// `classes.resolveBase(key)`.
pub open spec fn resolve_base_step(
    args: Json,
    classes: Seq<ClassNode>,
    process: Option<Target>,
) -> HostStep {
    match text_at(args, 0) {
        Err(e) => HostStep::Done(Err(HostError::Arg(e))),
        Ok(key) => match class_key(classes, key@) {
            None => HostStep::Done(Ok(Reply::Null)),
            Some(id) => match formula_ready(process) {
                Err(e) => HostStep::Done(Err(e)),
                Ok(_) => HostStep::Ask(
                    HostOp::ResolveFormula {
                        formula: classes[class_index(classes, id)->0].address_formula,
                    },
                ),
            },
        },
    }
}

pub fn resolve_base(args: &Json, project: &Project, process: &Option<Target>) -> (step: HostStep)
    ensures
        step == resolve_base_step(*args, project.classes@, *process),
{
    let key = match text_arg(args, 0) {
        Ok(t) => t,
        Err(e) => return fail(HostError::Arg(e)),
    };
    let id = match find_class_uuid(&project.classes, key.as_str()) {
        Some(id) => id,
        None => return HostStep::Done(Ok(Reply::Null)),
    };
    match formula_ready_exec(process) {
        Err(e) => return fail(e),
        Ok(_) => {},
    }
    match project.index_of(id) {
        None => HostStep::Done(Ok(Reply::Null)),
        Some(i) => HostStep::Ask(
            HostOp::ResolveFormula { formula: project.classes[i].address_formula.clone() },
        ),
    }
}

/// Answers `classes.resolveBase`: where the formula leads, or null.
pub fn finish_resolve_base(addr: Option<usize>) -> (r: Reply)
    ensures
        r == match addr {
            Some(a) => Reply::Address(a),
            None => Reply::Null,
        },
{
    match addr {
        Some(a) => Reply::Address(a),
        None => Reply::Null,
    }
}

/// How many bytes `classes.dissect` looks at where no number is given.
pub const DEFAULT_DISSECT: usize = 512;

/// How many bytes a call asks to dissect.
pub open spec fn dissect_size(args: Json) -> usize {
    let n = match real_of(member(opt_arg_at(args, 1), "size"@)) {
        Some(f) => f.to_usize,
        None => DEFAULT_DISSECT,
    };
    if n < MAX_SCRIPT_READ {
        n
    } else {
        MAX_SCRIPT_READ
    }
}

/// `classes.dissect(key, opts?)`.
pub open spec fn dissect_step(
    args: Json,
    classes: Seq<ClassNode>,
    process: Option<Target>,
) -> HostStep {
    match text_at(args, 0) {
        Err(e) => HostStep::Done(Err(HostError::Arg(e))),
        Ok(key) => match class_key(classes, key@) {
            None => HostStep::Done(Ok(Reply::Bool(false))),
            Some(id) => match formula_ready(process) {
                Err(e) => HostStep::Done(Err(e)),
                Ok(_) => HostStep::Ask(
                    HostOp::Dissect {
                        class: id,
                        formula: classes[class_index(classes, id)->0].address_formula,
                        size: dissect_size(args),
                    },
                ),
            },
        },
    }
}

pub fn classes_dissect(args: &Json, project: &Project, process: &Option<Target>) -> (step: HostStep)
    ensures
        step == dissect_step(*args, project.classes@, *process),
{
    let key = match text_arg(args, 0) {
        Ok(t) => t,
        Err(e) => return fail(HostError::Arg(e)),
    };
    let n: usize = match real_value(get(opt_arg(args, 1), "size")) {
        Some(f) => f.to_usize,
        None => DEFAULT_DISSECT,
    };
    let size: usize = if n < MAX_SCRIPT_READ {
        n
    } else {
        MAX_SCRIPT_READ
    };
    let id = match find_class_uuid(&project.classes, key.as_str()) {
        Some(id) => id,
        None => return HostStep::Done(Ok(Reply::Bool(false))),
    };
    match formula_ready_exec(process) {
        Err(e) => return fail(e),
        Ok(_) => {},
    }
    match project.index_of(id) {
        None => HostStep::Done(Ok(Reply::Bool(false))),
        Some(i) => HostStep::Ask(
            HostOp::Dissect {
                class: id,
                formula: project.classes[i].address_formula.clone(),
                size,
            },
        ),
    }
}

/// Answers `classes.dissect`: the fields that were found replace those of the
/// class. Where something failed the class stays as it is.
pub fn finish_dissect(
    project: &mut Project,
    class: u128,
    fields: Result<Vec<Node>, (Stage, String)>,
) -> (r: Result<Reply, HostError>)
    ensures
        match fields {
            Err((stage, e)) => *final(project) == *old(project) && r == Err::<Reply, HostError>(
                HostError::Failed(stage, e),
            ),
            Ok(f) => {
                &&& r == Ok::<Reply, HostError>(Reply::Count(f@.len() as usize))
                &&& match class_index(old(project).classes@, class) {
                    None => *final(project) == *old(project),
                    Some(i) => same_project(*old(project), *final(project)) && final(project).classes@ == old(project).classes@.update(
                        i,
                        ClassNode { children: f, ..old(project).classes@[i] },
                    ),
                }
            },
        },
{
    match fields {
        Err((stage, e)) => Err(HostError::Failed(stage, e)),
        Ok(f) => {
            let n: usize = f.len();
            if let Some(i) = project.index_of(class) {
                let c = &mut project.classes[i];
                c.children = f;
            }
            Ok(Reply::Count(n))
        },
    }
}

proof fn lemma_without_concat(a: Seq<char>, b: Seq<char>, c: char)
    ensures
        crate::text::without_char(a + b, c) == crate::text::without_char(a, c)
            + crate::text::without_char(b, c),
    decreases b.len(),
{
    if b.len() == 0 {
        assert(a + b =~= a);
        assert(crate::text::without_char(a, c) + crate::text::without_char(b, c)
            =~= crate::text::without_char(a, c));
    } else {
        assert((a + b).drop_last() =~= a + b.drop_last());
        lemma_without_concat(a, b.drop_last(), c);
        assert(crate::text::without_char(a + b, c) =~= crate::text::without_char(a, c)
            + crate::text::without_char(b, c));
    }
}

proof fn lemma_without_none(s: Seq<char>, c: char)
    requires
        forall|i: int| 0 <= i < s.len() ==> #[trigger] s[i] != c,
    ensures
        crate::text::without_char(s, c) == s,
    decreases s.len(),
{
    if s.len() > 0 {
        let rest = s.drop_last();
        assert forall|i: int| 0 <= i < rest.len() implies #[trigger] rest[i] != c by {
            assert(s[i] != c);
        }
        lemma_without_none(rest, c);
        assert(s[s.len() - 1] != c);
        assert(rest.push(s.last()) =~= s);
    }
}

/// The text of an identifier says its number: without the hyphens it is the number in
/// thirty-two hex digits.
pub proof fn identifier_says_its_number(id: u128)
    ensures
        crate::text::without_char(hyphenated(id), '-').len() == 32,
        crate::text::parse_int_spec(
            crate::text::without_char(hyphenated(id), '-'),
            16,
            0,
            u128::MAX as int,
        ) == Ok::<int, crate::text::IntError>(id as int),
{
    let h = zero_padded(hex_lower(id as nat), 32);
    reveal_with_fuel(vstd::arithmetic::power::pow, 33);
    crate::text::lemma_hex_len(id as nat, 32);
    crate::text::lemma_digits_are_digits(id as nat, 16, false);
    let d = hex_lower(id as nat);
    assert(h.len() == 32);
    assert forall|i: int| 0 <= i < h.len() implies #[trigger] h[i] != '-' by {
        let k = i - (h.len() - d.len());
        if k >= 0 {
            assert(h[i] == d[k]);
            assert(crate::text::digit_value(d[k], 16) is Some);
        }
    }
    let dash = seq!['-'];
    let p0 = h.subrange(0, 8);
    let p1 = h.subrange(8, 12);
    let p2 = h.subrange(12, 16);
    let p3 = h.subrange(16, 20);
    let p4 = h.subrange(20, 32);
    reveal_with_fuel(crate::text::without_char, 2);
    assert(dash.drop_last() =~= Seq::<char>::empty());
    assert(crate::text::without_char(dash, '-') =~= Seq::<char>::empty());
    lemma_without_none(p0, '-');
    lemma_without_none(p1, '-');
    lemma_without_none(p2, '-');
    lemma_without_none(p3, '-');
    lemma_without_none(p4, '-');
    let a1 = p0 + dash;
    let a2 = a1 + p1;
    let a3 = a2 + dash;
    let a4 = a3 + p2;
    let a5 = a4 + dash;
    let a6 = a5 + p3;
    let a7 = a6 + dash;
    lemma_without_concat(p0, dash, '-');
    lemma_without_concat(a1, p1, '-');
    lemma_without_concat(a2, dash, '-');
    lemma_without_concat(a3, p2, '-');
    lemma_without_concat(a4, dash, '-');
    lemma_without_concat(a5, p3, '-');
    lemma_without_concat(a6, dash, '-');
    lemma_without_concat(a7, p4, '-');
    assert(crate::text::without_char(hyphenated(id), '-') =~= h);
    crate::text::lemma_padded_round_trip(id as nat, 32, 16, false, u128::MAX as int);
}

} // verus!

//! The class that is shown: reading it, resolving where it lies, and the classes
//! of the project.
use vstd::prelude::*;
use vstd::string::StringExecFns;

use crate::address::{dissect_len, parse_dissect_len};
use crate::app_state::{due, is_due, memory_cleared, NemclassApp};
use crate::auto_dissect::{is_tally, summary, AutoDissectPreview};
use crate::class_names::{free_name, is_free_name};
use crate::class_view::NodeSnapshot;
use crate::dock::TabKind;
use crate::host_api::{logged, LogKind, LogLine};
use crate::host_classes::{hyphenated, uuid_text};
use crate::memory_viewer::went_to;
use crate::model::{
    class_index, class_size, empty_class, find_class, plain_node, ClassNode, Node, Project, Shape,
};
use crate::node_edit::remembers;
use crate::order::key_before;
use crate::order::TextKeyed;
use crate::text::{
    chars_of, prefixed_hex, prefixed_hex_exec, says, trim, trim_exec, wide_hex, wide_hex_exec,
};

verus! {

/// So many zeros.
pub open spec fn zeros(n: nat) -> Seq<u8> {
    Seq::new(n, |i: int| 0u8)
}

/// What is to be done next for the class to be shown.
#[derive(Debug)]
pub enum SnapshotStep {
    /// Nothing: no class is selected.
    Idle,
    /// Resolve this formula.
    Resolve(String),
    /// Read so many bytes there.
    Read { addr: usize, size: usize },
    /// Build the rows.
    Build,
}

/// The class lies at `base`, or nobody knows where. Without a place to read the
/// bytes are zeros.
pub open spec fn placed(
    pre: NemclassApp,
    post: NemclassApp,
    class: u128,
    base: Option<usize>,
    step: SnapshotStep,
) -> bool {
    let size = class_size(pre.project.classes@, class);
    &&& post == (NemclassApp { class_base: base, mem_buf: post.mem_buf, ..pre })
    &&& if base is Some && size > 0 {
        post.mem_buf == pre.mem_buf && step == (SnapshotStep::Read { addr: base->0, size })
    } else {
        post.mem_buf@ == zeros(size as nat) && step == SnapshotStep::Build
    }
}

/// The formula of a class; none where the class is missing.
pub open spec fn formula_of(classes: Seq<ClassNode>, class: u128) -> Seq<char> {
    match class_index(classes, class) {
        Some(i) => classes[i].address_formula@,
        None => Seq::empty(),
    }
}

/// What is first done for the class to be shown. Detached, all is zeros. A base
/// that a script or a followed pointer gave wins over the formula.
pub open spec fn snapshot_begun(pre: NemclassApp, post: NemclassApp, step: SnapshotStep) -> bool {
    match pre.selected_class {
        None => post == pre && step == SnapshotStep::Idle,
        Some(class) => {
            let formula = formula_of(pre.project.classes@, class);
            if pre.process is None {
                placed(pre, post, class, None, step)
            } else if pre.script_resolved_base is Some {
                placed(pre, post, class, pre.script_resolved_base, step)
            } else if trim(formula).len() == 0 {
                placed(pre, post, class, None, step)
            } else {
                post == pre && (step matches SnapshotStep::Resolve(f) && f@ == formula)
            }
        },
    }
}

/// What is said of a formula: why it could not be resolved, or else why the
/// modules could not be listed.
pub open spec fn formula_noted(
    pre: NemclassApp,
    post: NemclassApp,
    modules: Option<String>,
    resolved: Result<usize, String>,
) -> bool {
    &&& post == (NemclassApp { last_error: post.last_error, ..pre })
    &&& match (resolved, modules) {
        (Err(e), _) => says(post.last_error, "Formula: "@ + e@),
        (Ok(_), Some(m)) => says(post.last_error, "modules(): "@ + m@),
        (Ok(_), None) => post.last_error == pre.last_error,
    }
}

/// Where a resolved formula leads.
pub open spec fn base_of(resolved: Result<usize, String>) -> Option<usize> {
    match resolved {
        Ok(a) => Some(a),
        Err(_) => None,
    }
}

/// The formula was resolved, or the error says why not.
pub open spec fn snapshot_resolved(
    pre: NemclassApp,
    post: NemclassApp,
    class: u128,
    modules: Option<String>,
    resolved: Result<usize, String>,
    step: SnapshotStep,
) -> bool {
    exists|mid: NemclassApp| #[trigger]
        formula_noted(pre, mid, modules, resolved) && placed(
            mid,
            post,
            class,
            base_of(resolved),
            step,
        )
}

/// A script answered where a class lies. An answer for another class than the
/// selected one only clears the message.
pub open spec fn resolve_taken(
    pre: NemclassApp,
    post: NemclassApp,
    class: u128,
    resolved: Option<usize>,
) -> bool {
    if pre.selected_class != Some(class) {
        post == (NemclassApp { status_msg: None, ..pre })
    } else {
        match resolved {
            Some(addr) => {
                &&& logged(
                    pre.script_log@,
                    post.script_log@,
                    LogKind::Lifecycle,
                    "Resolved class "@ + hyphenated(class) + " → "@ + wide_hex(addr as nat, 16),
                )
                &&& post == (NemclassApp {
                    status_msg: None,
                    script_resolved_base: Some(addr),
                    class_base: Some(addr),
                    last_snapshot: None,
                    script_log: post.script_log,
                    ..pre
                })
            },
            None => {
                &&& logged(
                    pre.script_log@,
                    post.script_log@,
                    LogKind::Warn,
                    "No script resolver returned an address."@,
                )
                &&& says(post.last_error, "No script resolver returned an address."@)
                &&& post == (NemclassApp {
                    status_msg: None,
                    last_error: post.last_error,
                    script_log: post.script_log,
                    ..pre
                })
            },
        }
    }
}

/// A pointer was followed: to the class that it points at, placed where it
/// points, or else into the memory viewer.
pub open spec fn followed(
    pre: NemclassApp,
    post: NemclassApp,
    addr: usize,
    target: Option<u128>,
) -> bool {
    if target is Some && class_index(pre.project.classes@, target->0) is Some {
        &&& post.node_snapshots@.len() == 0
        &&& post.mem_buf@.len() == 0
        &&& post == (NemclassApp {
            selected_class: target,
            script_resolved_base: Some(addr),
            class_base: Some(addr),
            node_snapshots: post.node_snapshots,
            mem_buf: post.mem_buf,
            edit_state: None,
            last_snapshot: None,
            pending_focus: Some(TabKind::ClassView),
            ..pre
        })
    } else {
        &&& went_to(pre.memory_viewer, post.memory_viewer, addr)
        &&& says(
            post.status_msg,
            "Pointer target "@ + wide_hex(addr as nat, 16) + " (no class set)"@,
        )
        &&& post == (NemclassApp {
            pending_focus: Some(TabKind::Memory),
            memory_viewer: post.memory_viewer,
            status_msg: post.status_msg,
            ..pre
        })
    }
}

/// A field of eight bytes with a name and a comment.
pub open spec fn is_address_node(n: Node, name: Seq<char>, comment: Seq<char>) -> bool {
    &&& n.tag@ == "Hex64"@
    &&& n.name@ == name
    &&& n.comment@ == comment
    &&& !n.hidden
    &&& n.memory_size == 8
    &&& !n.container
    &&& n.children@.len() == 0
    &&& n.instance is None
    &&& n.pointer_target is None
    &&& !n.takes_target
    &&& n.shape == Shape::Scalar
}

/// A class with one field that shows nothing yet.
pub open spec fn is_blank_class(c: ClassNode, id: u128, name: Seq<char>, formula: Seq<char>) -> bool {
    &&& c.id == id
    &&& c.name@ == name
    &&& c.comment@.len() == 0
    &&& c.address_formula@ == formula
    &&& c.children@.len() == 1
    &&& is_address_node(c.children@[0], "field_0"@, Seq::empty())
}

/// A class was added at the end of the project and is shown.
pub open spec fn class_created(
    pre: NemclassApp,
    post: NemclassApp,
    id: u128,
    name: Seq<char>,
    formula: Seq<char>,
) -> bool {
    &&& post.project == (Project { classes: post.project.classes, ..pre.project })
    &&& post.project.classes@.len() == pre.project.classes@.len() + 1
    &&& post.project.classes@.drop_last() == pre.project.classes@
    &&& is_blank_class(post.project.classes@.last(), id, name, formula)
    &&& memory_cleared(
        NemclassApp {
            project: post.project,
            project_dirty: true,
            selected_class: Some(id),
            last_snapshot: None,
            ..pre
        },
        post,
    )
}

/// The name that a new class gets: the given one, or the first free one where
/// none is given.
pub open spec fn new_class_name(
    classes: Seq<ClassNode>,
    given: Seq<char>,
    name: Seq<char>,
) -> bool {
    if given.len() > 0 {
        name == given
    } else {
        is_free_name("Class"@, classes, name)
    }
}

/// The class that fields are added to from other panels: the selected one, or
/// else the first.
pub open spec fn edit_target(app: NemclassApp) -> Option<int> {
    match app.selected_class {
        Some(id) => class_index(app.project.classes@, id),
        None => if app.project.classes@.len() > 0 {
            class_index(app.project.classes@, app.project.classes@[0].id)
        } else {
            None
        },
    }
}

/// A field was added at the end of a class.
pub open spec fn field_added(
    pre: NemclassApp,
    post: NemclassApp,
    at: int,
    name: Seq<char>,
    comment: Seq<char>,
) -> bool {
    &&& 0 <= at < pre.project.classes@.len()
    &&& post == (NemclassApp { project: post.project, project_dirty: true, ..pre })
    &&& post.project == (Project { classes: post.project.classes, ..pre.project })
    &&& post.project.classes@ == pre.project.classes@.update(
        at,
        ClassNode { children: post.project.classes@[at].children, ..pre.project.classes@[at] },
    )
    &&& post.project.classes@[at].children@.len() == pre.project.classes@[at].children@.len() + 1
    &&& post.project.classes@[at].children@.drop_last() == pre.project.classes@[at].children@
    &&& is_address_node(post.project.classes@[at].children@.last(), name, comment)
}

/// A field for an address of the disassembler was added, where there is a class.
pub open spec fn code_field_added(pre: NemclassApp, post: NemclassApp, addr: usize) -> bool {
    match edit_target(pre) {
        None => post == pre,
        Some(i) => field_added(
            pre,
            post,
            i,
            "disasm_"@ + prefixed_hex(addr as nat),
            "From disassembler "@ + wide_hex(addr as nat, 16),
        ),
    }
}

/// The class lies at an address of the disassembler, where there is a class.
pub open spec fn class_address_set(pre: NemclassApp, post: NemclassApp, addr: usize) -> bool {
    match edit_target(pre) {
        None => post == pre,
        Some(i) => {
            &&& post == (NemclassApp {
                project: post.project,
                project_dirty: true,
                status_msg: post.status_msg,
                ..pre
            })
            &&& post.project == (Project { classes: post.project.classes, ..pre.project })
            &&& post.project.classes@ == pre.project.classes@.update(
                i,
                ClassNode {
                    address_formula: post.project.classes@[i].address_formula,
                    ..pre.project.classes@[i]
                },
            )
            &&& post.project.classes@[i].address_formula@ == prefixed_hex(addr as nat)
            &&& says(
                post.status_msg,
                "Set "@ + pre.project.classes@[i].name@ + " base to "@ + prefixed_hex(addr as nat),
            )
        },
    }
}

/// One of the first `n` nodes embeds the class or points at it, at any depth.
pub open spec fn fields_mention(nodes: Seq<Node>, n: nat, id: u128) -> bool
    decreases nodes, n,
{
    if n == 0 || n > nodes.len() {
        false
    } else {
        fields_mention(nodes, (n - 1) as nat, id) || node_mentions(nodes[n - 1], id)
    }
}

pub open spec fn node_mentions(node: Node, id: u128) -> bool
    decreases node, 0nat,
{
    node.instance_target() == Some(id) || node.pointer_target == Some(id) || fields_mention(
        node.children@,
        node.children@.len(),
        id,
    )
}

fn fields_mention_exec(nodes: &Vec<Node>, id: u128) -> (r: bool)
    ensures
        r == fields_mention(nodes@, nodes@.len(), id),
    decreases nodes,
{
    let mut i: usize = 0;
    let mut r = false;
    while i < nodes.len()
        invariant
            i <= nodes@.len(),
            r == fields_mention(nodes@, i as nat, id),
        decreases nodes@.len() - i,
    {
        let node = &nodes[i];
        let here = match crate::model::class_instance_target(node) {
            Some(t) => t == id,
            None => false,
        };
        let there = match node.pointer_target {
            Some(t) => t == id,
            None => false,
        };
        assert(decreases_to!(nodes => node.children));
        let below = fields_mention_exec(&node.children, id);
        r = r || here || there || below;
        proof {
            reveal_with_fuel(node_mentions, 2);
            reveal_with_fuel(fields_mention, 2);
            assert(node_mentions(nodes@[i as int], id) == (here || there || below));
        }
        i += 1;
    }
    r
}

/// A class other than `id` embeds it or points at it.
pub open spec fn is_mentioned(classes: Seq<ClassNode>, id: u128) -> bool {
    exists|i: int|
        0 <= i < classes.len() && (#[trigger] classes[i]).id != id && fields_mention(
            classes[i].children@,
            classes[i].children@.len(),
            id,
        )
}

fn is_mentioned_exec(classes: &Vec<ClassNode>, id: u128) -> (r: bool)
    ensures
        r == is_mentioned(classes@, id),
{
    let mut i: usize = 0;
    while i < classes.len()
        invariant
            i <= classes@.len(),
            forall|j: int|
                0 <= j < i ==> (#[trigger] classes@[j]).id == id || !fields_mention(
                    classes@[j].children@,
                    classes@[j].children@.len(),
                    id,
                ),
        decreases classes@.len() - i,
    {
        if classes[i].id != id && fields_mention_exec(&classes[i].children, id) {
            assert(classes@[i as int].id != id);
            return true;
        }
        i += 1;
    }
    false
}

/// Why a class is not removed.
#[derive(Clone, Copy, Debug, PartialEq, Eq, Structural)]
pub enum RemoveRefusal {
    Missing,
    /// Another class embeds it or points at it.
    Mentioned,
}

/// A class was removed, unless it is missing or another class mentions it. Where
/// it was shown the first class is. The project is remembered before, in any case.
pub open spec fn class_removed(
    pre: NemclassApp,
    post: NemclassApp,
    id: u128,
    r: Result<(), RemoveRefusal>,
) -> bool {
    let kept = NemclassApp { history: post.history, ..pre };
    &&& remembers(pre.history, post.history, pre.project)
    &&& match class_index(pre.project.classes@, id) {
        None => post == kept && r == Err::<(), RemoveRefusal>(RemoveRefusal::Missing),
        Some(i) => if is_mentioned(pre.project.classes@, id) {
            post == kept && r == Err::<(), RemoveRefusal>(RemoveRefusal::Mentioned)
        } else {
            &&& r is Ok
            &&& post.project == (Project { classes: post.project.classes, ..pre.project })
            &&& post.project.classes@ == pre.project.classes@.remove(i)
            &&& if pre.selected_class == Some(id) {
                memory_cleared(
                    NemclassApp {
                        project: post.project,
                        project_dirty: true,
                        selected_class: first_class(post.project.classes@),
                        last_snapshot: None,
                        ..kept
                    },
                    post,
                )
            } else {
                post == (NemclassApp { project: post.project, project_dirty: true, ..kept })
            }
        },
    }
}

/// The first class of a project.
pub open spec fn first_class(classes: Seq<ClassNode>) -> Option<u128> {
    if classes.len() == 0 {
        None
    } else {
        Some(classes[0].id)
    }
}

pub fn first_class_exec(classes: &Vec<ClassNode>) -> (r: Option<u128>)
    ensures
        r == first_class(classes@),
{
    if classes.len() == 0 {
        None
    } else {
        Some(classes[0].id)
    }
}

fn address_node(name: String, comment: String) -> (n: Node)
    ensures
        is_address_node(n, name@, comment@),
{
    let mut n = plain_node("Hex64", name, 8);
    n.comment = comment;
    n
}

/// A proposed body was taken over, or the error says why not.
pub open spec fn dissect_accepted(
    pre: NemclassApp,
    post: NemclassApp,
    refused: Option<String>,
) -> bool {
    match pre.dissect_preview {
        None => post == pre,
        Some(p) => {
            let gone = NemclassApp { dissect_preview: None, history: post.history, ..pre };
            &&& remembers(pre.history, post.history, pre.project)
            &&& match refused {
                Some(e) => {
                    &&& says(post.last_error, "Auto-dissect accept: "@ + e@)
                    &&& post == (NemclassApp { last_error: post.last_error, ..gone })
                },
                None => match class_index(pre.project.classes@, p.target_class) {
                    None => {
                        &&& says(
                            post.last_error,
                            "Auto-dissect accept: class no longer exists"@,
                        )
                        &&& post == (NemclassApp { last_error: post.last_error, ..gone })
                    },
                    Some(i) => {
                        &&& post.project == (Project {
                            classes: post.project.classes,
                            ..pre.project
                        })
                        &&& post.project.classes@ == pre.project.classes@.update(
                            i,
                            ClassNode { children: p.defs, ..pre.project.classes@[i] },
                        )
                        &&& says(post.status_msg, "Auto-dissect applied."@)
                        &&& memory_cleared(
                            NemclassApp {
                                project: post.project,
                                project_dirty: true,
                                last_snapshot: None,
                                status_msg: post.status_msg,
                                ..gone
                            },
                            post,
                        )
                    },
                },
            }
        },
    }
}

impl NemclassApp {
    /// Whether the class is to be read anew.
    pub fn snapshot_due(&self, now: u64) -> (r: bool)
        ensures
            r == (self.selected_class is Some && is_due(
                self.last_snapshot,
                now,
                self.snapshot_interval,
            )),
    {
        self.selected_class.is_some() && due(self.last_snapshot, now, self.snapshot_interval)
    }

    fn place_class(&mut self, class: u128, base: Option<usize>) -> (step: SnapshotStep)
        ensures
            placed(*old(self), *final(self), class, base, step),
    {
        self.class_base = base;
        let size: usize = self.project.size_of(class);
        if let Some(addr) = base {
            if size > 0 {
                return SnapshotStep::Read { addr, size };
            }
        }
        self.mem_buf = vec![0u8; size];
        assert(self.mem_buf@ =~= zeros(size as nat));
        SnapshotStep::Build
    }

    /// Starts to read the class.
    pub fn take_snapshot(&mut self) -> (step: SnapshotStep)
        ensures
            snapshot_begun(*old(self), *final(self), step),
    {
        let class: u128 = match self.selected_class {
            None => return SnapshotStep::Idle,
            Some(c) => c,
        };
        if self.process.is_none() {
            return self.place_class(class, None);
        }
        if self.script_resolved_base.is_some() {
            return self.place_class(class, self.script_resolved_base);
        }
        match find_class(&self.project.classes, class) {
            None => {
                assert(trim(Seq::<char>::empty()).len() == 0);
                self.place_class(class, None)
            },
            Some(i) => {
                let formula = self.project.classes[i].address_formula.clone();
                let c = chars_of(formula.as_str());
                let t = trim_exec(c.as_slice());
                if t.len() == 0 {
                    self.place_class(class, None)
                } else {
                    SnapshotStep::Resolve(formula)
                }
            },
        }
    }

    /// The formula of the class was resolved, or could not be.
    pub fn formula_resolved(
        &mut self,
        class: u128,
        modules: Option<String>,
        resolved: Result<usize, String>,
    ) -> (step: SnapshotStep)
        ensures
            snapshot_resolved(*old(self), *final(self), class, modules, resolved, step),
    {
        let base = match resolved {
            Err(e) => {
                let mut s = "Formula: ".to_string();
                s.append(e.as_str());
                self.last_error = Some(s);
                None
            },
            Ok(a) => {
                if let Some(m) = modules {
                    let mut s = "modules(): ".to_string();
                    s.append(m.as_str());
                    self.last_error = Some(s);
                }
                Some(a)
            },
        };
        let ghost mid = *self;
        let step = self.place_class(class, base);
        assert(formula_noted(*old(self), mid, modules, resolved));
        step
    }

    /// The bytes of the class were read. Where none could be, the error says that
    /// the zeros are no data.
    pub fn class_read(&mut self, addr: usize, buf: Vec<u8>, readable: usize)
        ensures
            *final(self) == (NemclassApp {
                mem_buf: buf,
                last_error: final(self).last_error,
                ..*old(self)
            }),
            if readable == 0 {
                says(
                    final(self).last_error,
                    "Address "@ + prefixed_hex(addr as nat)
                        + " is not readable — the class shows zeros, not data."@,
                )
            } else {
                final(self).last_error == old(self).last_error
            },
    {
        if readable == 0 {
            let mut s = "Address ".to_string();
            let a = prefixed_hex_exec(addr as u64);
            s.append(a.as_str());
            s.append(" is not readable — the class shows zeros, not data.");
            self.last_error = Some(s);
        }
        self.mem_buf = buf;
    }

    /// The rows were built.
    pub fn rows_built(&mut self, rows: Vec<NodeSnapshot>, now: u64)
        ensures
            *final(self) == (NemclassApp {
                node_snapshots: rows,
                last_snapshot: Some(now),
                ..*old(self)
            }),
    {
        self.node_snapshots = rows;
        self.last_snapshot = Some(now);
    }

    /// What a script is asked about where the class lies: the process and the class.
    pub fn resolve_query(&self) -> (q: Option<(u32, u128)>)
        ensures
            q == match (self.selected_class, self.process) {
                (Some(c), Some(t)) => Some((t.pid, c)),
                _ => None,
            },
    {
        match (self.selected_class, &self.process) {
            (Some(c), Some(t)) => Some((t.pid, c)),
            _ => None,
        }
    }

    /// A script answered where a class lies.
    pub fn ingest_resolve(&mut self, class: u128, resolved: Option<usize>)
        ensures
            resolve_taken(*old(self), *final(self), class, resolved),
    {
        self.status_msg = None;
        let shown = match self.selected_class {
            Some(c) => c == class,
            None => false,
        };
        if !shown {
            return ;
        }
        let ghost log = self.script_log@;
        match resolved {
            Some(addr) => {
                self.script_resolved_base = Some(addr);
                self.class_base = Some(addr);
                self.last_snapshot = None;
                let mut s = "Resolved class ".to_string();
                let u = uuid_text(class);
                s.append(u.as_str());
                s.append(" → ");
                let a = wide_hex_exec(addr as u64, 16);
                s.append(a.as_str());
                self.script_log.push(LogLine { kind: LogKind::Lifecycle, text: s });
            },
            None => {
                self.script_log.push(
                    LogLine {
                        kind: LogKind::Warn,
                        text: "No script resolver returned an address.".to_string(),
                    },
                );
                self.last_error = Some("No script resolver returned an address.".to_string());
            },
        }
        assert(self.script_log@.drop_last() =~= log);
    }

    /// Follows a pointer.
    pub fn follow_pointer(&mut self, addr: usize, target: Option<u128>)
        ensures
            followed(*old(self), *final(self), addr, target),
            old(self).wf() ==> final(self).wf(),
    {
        if let Some(id) = target {
            if find_class(&self.project.classes, id).is_some() {
                self.selected_class = Some(id);
                self.script_resolved_base = Some(addr);
                self.class_base = Some(addr);
                self.node_snapshots = Vec::new();
                self.mem_buf = Vec::new();
                self.edit_state = None;
                self.last_snapshot = None;
                self.pending_focus = Some(TabKind::ClassView);
                return ;
            }
        }
        self.pending_focus = Some(TabKind::Memory);
        self.memory_viewer.goto(addr);
        let mut s = "Pointer target ".to_string();
        let a = wide_hex_exec(addr as u64, 16);
        s.append(a.as_str());
        s.append(" (no class set)");
        self.status_msg = Some(s);
    }

    /// Shows a class; the one that is shown stays as it is.
    pub fn select_class(&mut self, id: u128)
        ensures
            if old(self).selected_class == Some(id) {
                *final(self) == *old(self)
            } else {
                memory_cleared(
                    NemclassApp { selected_class: Some(id), last_snapshot: None, ..*old(self) },
                    *final(self),
                )
            },
    {
        if let Some(c) = self.selected_class {
            if c == id {
                return ;
            }
        }
        self.selected_class = Some(id);
        self.last_snapshot = None;
        self.clear_memory_state();
    }

    /// Adds a class with one field and shows it. `fresh` is its id. It is named
    /// where no name is given.
    pub fn create_class(&mut self, fresh: u128, name: String, formula: String)
        requires
            old(self).project.classes@.len() < usize::MAX,
        ensures
            exists|n: Seq<char>|
                new_class_name(old(self).project.classes@, name@, n) && #[trigger] class_created(
                    *old(self),
                    *final(self),
                    fresh,
                    n,
                    formula@,
                ),
    {
        let given = !name.as_str().is_empty();
        let called = if given {
            name
        } else {
            free_name("Class", &self.project.classes)
        };
        let ghost n = called@;
        let mut class = empty_class(fresh, called);
        class.address_formula = formula;
        class.children.push(address_node("field_0".to_string(), String::new()));
        assert(is_blank_class(class, fresh, n, formula@));
        self.project.add_class(class);
        assert(self.project.classes@.drop_last() =~= old(self).project.classes@);
        self.project_dirty = true;
        self.selected_class = Some(fresh);
        self.last_snapshot = None;
        self.clear_memory_state();
        assert(class_created(*old(self), *self, fresh, n, formula@));
    }

    /// Adds a class that is named by itself, which can be undone. `fresh` is its id.
    pub fn add_class(&mut self, fresh: u128)
        requires
            old(self).project.classes@.len() < usize::MAX,
        ensures
            remembers(old(self).history, final(self).history, old(self).project),
            exists|mid: NemclassApp, n: Seq<char>|
                {
                    &&& mid == (NemclassApp { history: final(self).history, ..*old(self) })
                    &&& is_free_name("Class"@, old(self).project.classes@, n)
                    &&& #[trigger] class_created(mid, *final(self), fresh, n, Seq::empty())
                },
    {
        self.history.record(&self.project);
        let ghost mid = *self;
        self.create_class(fresh, String::new(), String::new());
        assert(mid == (NemclassApp { history: self.history, ..*old(self) }));
    }

    /// Removes a class.
    pub fn remove_class(&mut self, id: u128) -> (r: Result<(), RemoveRefusal>)
        ensures
            class_removed(*old(self), *final(self), id, r),
    {
        self.history.record(&self.project);
        let i: usize = match find_class(&self.project.classes, id) {
            None => return Err(RemoveRefusal::Missing),
            Some(i) => i,
        };
        if is_mentioned_exec(&self.project.classes, id) {
            return Err(RemoveRefusal::Mentioned);
        }
        self.project.classes.remove(i);
        self.project_dirty = true;
        let shown = match self.selected_class {
            Some(c) => c == id,
            None => false,
        };
        if shown {
            self.selected_class = first_class_exec(&self.project.classes);
            self.clear_memory_state();
            self.last_snapshot = None;
        }
        Ok(())
    }

    /// Renames a class, where there is such a class, which can be undone.
    pub fn rename_class(&mut self, id: u128, name: String)
        ensures
            remembers(old(self).history, final(self).history, old(self).project),
            *final(self) == (NemclassApp {
                project: final(self).project,
                history: final(self).history,
                project_dirty: true,
                ..*old(self)
            }),
            match class_index(old(self).project.classes@, id) {
                None => final(self).project == old(self).project,
                Some(i) => {
                    &&& final(self).project == (Project {
                        classes: final(self).project.classes,
                        ..old(self).project
                    })
                    &&& final(self).project.classes@ == old(self).project.classes@.update(
                        i,
                        ClassNode { name, ..old(self).project.classes@[i] },
                    )
                },
            },
    {
        self.history.record(&self.project);
        self.project_dirty = true;
        if let Some(i) = find_class(&self.project.classes, id) {
            let c = &mut self.project.classes[i];
            c.name = name;
        }
    }

    /// The formula of a class was edited: it decides again where the class lies.
    pub fn formula_edited(&mut self)
        ensures
            *final(self) == (NemclassApp {
                project_dirty: true,
                last_snapshot: None,
                class_base: None,
                script_resolved_base: None,
                ..*old(self)
            }),
    {
        self.project_dirty = true;
        self.last_snapshot = None;
        self.class_base = None;
        self.script_resolved_base = None;
    }

    /// The class that fields are added to from other panels.
    pub fn edit_target_index(&self) -> (r: Option<usize>)
        ensures
            match r {
                Some(i) => edit_target(*self) == Some(i as int) && i < self.project.classes@.len(),
                None => edit_target(*self) is None,
            },
    {
        match self.selected_class {
            Some(id) => find_class(&self.project.classes, id),
            None => {
                if self.project.classes.len() > 0 {
                    find_class(&self.project.classes, self.project.classes[0].id)
                } else {
                    None
                }
            },
        }
    }

    fn add_field(&mut self, at: usize, name: String, comment: String)
        requires
            at < old(self).project.classes@.len(),
        ensures
            field_added(*old(self), *final(self), at as int, name@, comment@),
    {
        let node = address_node(name, comment);
        let c = &mut self.project.classes[at];
        c.children.push(node);
        self.project_dirty = true;
        assert(self.project.classes@[at as int].children@.drop_last()
            =~= old(self).project.classes@[at as int].children@);
    }

    /// A field for an address that the scanner found.
    pub fn add_scan_result(&mut self, addr: usize)
        ensures
            match edit_target(*old(self)) {
                None => *final(self) == *old(self),
                Some(i) => field_added(
                    *old(self),
                    *final(self),
                    i,
                    "scan_"@ + prefixed_hex(addr as nat),
                    "Scanner result "@ + wide_hex(addr as nat, 16),
                ),
            },
    {
        if let Some(i) = self.edit_target_index() {
            let mut name = "scan_".to_string();
            let a = prefixed_hex_exec(addr as u64);
            name.append(a.as_str());
            let mut comment = "Scanner result ".to_string();
            let w = wide_hex_exec(addr as u64, 16);
            comment.append(w.as_str());
            self.add_field(i, name, comment);
        }
    }

    /// A field for an address of the disassembler.
    pub fn add_code_address(&mut self, addr: usize)
        ensures
            code_field_added(*old(self), *final(self), addr),
    {
        if let Some(i) = self.edit_target_index() {
            let mut name = "disasm_".to_string();
            let a = prefixed_hex_exec(addr as u64);
            name.append(a.as_str());
            let mut comment = "From disassembler ".to_string();
            let w = wide_hex_exec(addr as u64, 16);
            comment.append(w.as_str());
            self.add_field(i, name, comment);
        }
    }

    /// The class lies at an address of the disassembler.
    pub fn set_class_address(&mut self, addr: usize)
        ensures
            class_address_set(*old(self), *final(self), addr),
    {
        if let Some(i) = self.edit_target_index() {
            let a = prefixed_hex_exec(addr as u64);
            let mut s = "Set ".to_string();
            s.append(self.project.classes[i].name.as_str());
            s.append(" base to ");
            s.append(a.as_str());
            let c = &mut self.project.classes[i];
            c.address_formula = a;
            self.status_msg = Some(s);
            self.project_dirty = true;
        }
    }

    /// Whether a body can be proposed for the class, and for how many bytes; else
    /// the error says why not.
    pub fn dissect_request(&mut self) -> (r: Option<(u128, usize)>)
        ensures
            *final(self) == (NemclassApp { last_error: final(self).last_error, ..*old(self) }),
            match old(self).selected_class {
                None => r is None && says(
                    final(self).last_error,
                    "Auto-dissect: no class selected"@,
                ),
                Some(c) => if old(self).process is None {
                    r is None && says(final(self).last_error, "Auto-dissect: no process attached"@)
                } else {
                    r is Some && (r->0).0 == c && (r->0).1 == dissect_len(
                        old(self).dissect_len_text@,
                    ) && final(self).last_error == old(self).last_error
                },
            },
    {
        let class: u128 = match self.selected_class {
            None => {
                self.last_error = Some("Auto-dissect: no class selected".to_string());
                return None;
            },
            Some(c) => c,
        };
        if self.process.is_none() {
            self.last_error = Some("Auto-dissect: no process attached".to_string());
            return None;
        }
        Some((class, parse_dissect_len(self.dissect_len_text.as_str())))
    }

    /// A body is proposed for a class, or the error says why not.
    pub fn dissected(&mut self, class: u128, result: Result<Vec<Node>, String>)
        ensures
            *final(self) == (NemclassApp {
                last_error: final(self).last_error,
                dissect_preview: final(self).dissect_preview,
                ..*old(self)
            }),
            match result {
                Err(e) => says(final(self).last_error, "Auto-dissect failed: "@ + e@)
                    && final(self).dissect_preview == old(self).dissect_preview,
                Ok(defs) => {
                    &&& final(self).last_error is None
                    &&& final(self).dissect_preview is Some
                    &&& final(self).dissect_preview->0.defs == defs
                    &&& final(self).dissect_preview->0.target_class == class
                    &&& is_tally(final(self).dissect_preview->0.summary@, defs@)
                    &&& forall|i: int, j: int|
                        0 <= i < j < final(self).dissect_preview->0.summary@.len() ==> key_before(
                            (#[trigger] final(self).dissect_preview->0.summary@[i]).key_of(),
                            (#[trigger] final(self).dissect_preview->0.summary@[j]).key_of(),
                        )
                },
            },
    {
        match result {
            Err(e) => {
                let mut s = "Auto-dissect failed: ".to_string();
                s.append(e.as_str());
                self.last_error = Some(s);
            },
            Ok(defs) => {
                let counts = summary(&defs);
                self.dissect_preview = Some(
                    AutoDissectPreview { defs, target_class: class, summary: counts },
                );
                self.last_error = None;
            },
        }
    }

    /// The proposed body replaces the fields of the class it was made for, which
    /// can be undone.
    pub fn accept_auto_dissect(&mut self, refused: Option<String>)
        ensures
            dissect_accepted(*old(self), *final(self), refused),
    {
        let preview = match self.dissect_preview.take() {
            None => return ,
            Some(p) => p,
        };
        self.history.record(&self.project);
        if let Some(e) = refused {
            let mut s = "Auto-dissect accept: ".to_string();
            s.append(e.as_str());
            self.last_error = Some(s);
            return ;
        }
        match find_class(&self.project.classes, preview.target_class) {
            None => {
                self.last_error = Some("Auto-dissect accept: class no longer exists".to_string());
            },
            Some(i) => {
                let c = &mut self.project.classes[i];
                c.children = preview.defs;
                self.project_dirty = true;
                self.last_snapshot = None;
                self.clear_memory_state();
                self.status_msg = Some("Auto-dissect applied.".to_string());
            },
        }
    }
}

/// An answer for a class that is no longer shown changes nothing that is shown.
pub proof fn late_answer_moves_nothing(
    before: NemclassApp,
    after: NemclassApp,
    class: u128,
    resolved: Option<usize>,
)
    requires
        before.selected_class != Some(class),
        resolve_taken(before, after, class, resolved),
    ensures
        after.class_base == before.class_base,
        after.script_resolved_base == before.script_resolved_base,
        after.script_log == before.script_log,
        after.last_error == before.last_error,
{
}

/// Where a followed pointer leads is where the class is read from then on,
/// whatever its formula says.
pub proof fn followed_pointer_places_the_class(
    before: NemclassApp,
    mid: NemclassApp,
    after: NemclassApp,
    addr: usize,
    target: u128,
    step: SnapshotStep,
)
    requires
        before.process is Some,
        class_index(before.project.classes@, target) is Some,
        class_size(before.project.classes@, target) > 0,
        followed(before, mid, addr, Some(target)),
        snapshot_begun(mid, after, step),
    ensures
        step == (SnapshotStep::Read {
            addr,
            size: class_size(before.project.classes@, target),
        }),
{
}

/// A class that is created stands last, is shown at once and has the name and the
/// formula that were given; the classes before it stay as they were.
pub proof fn created_class_is_shown(
    pre: NemclassApp,
    post: NemclassApp,
    id: u128,
    name: Seq<char>,
    formula: Seq<char>,
)
    requires
        class_created(pre, post, id, name, formula),
    ensures
        post.selected_class == Some(id),
        post.project.classes@.len() == pre.project.classes@.len() + 1,
        post.project.classes@.last().id == id,
        post.project.classes@.last().name@ == name,
        post.project.classes@.last().address_formula@ == formula,
        forall|j: int|
            0 <= j < pre.project.classes@.len() ==> #[trigger] post.project.classes@[j]
                == pre.project.classes@[j],
        post.project_dirty,
        post.class_base is None,
{
    let now = post.project.classes@;
    assert forall|j: int| 0 <= j < pre.project.classes@.len() implies #[trigger] now[j]
        == pre.project.classes@[j] by {
        assert(now.drop_last()[j] == now[j]);
    }
}

/// A field that is added from elsewhere goes to the class that is shown, behind its
/// fields; without one that is shown it goes to the first class.
pub proof fn added_field_goes_to_the_shown_class(pre: NemclassApp, post: NemclassApp, addr: usize)
    requires
        code_field_added(pre, post, addr),
        edit_target(pre) is Some,
    ensures
        ({
            let i = edit_target(pre)->0;
            &&& 0 <= i < pre.project.classes@.len()
            &&& pre.selected_class matches Some(id) ==> pre.project.classes@[i].id == id
            &&& pre.selected_class is None ==> i == 0
            &&& post.project.classes@[i].children@.len() == pre.project.classes@[i].children@.len()
                + 1
            &&& post.project.classes@[i].children@.last().memory_size == 8
            &&& forall|j: int|
                0 <= j < pre.project.classes@[i].children@.len()
                    ==> #[trigger] post.project.classes@[i].children@[j]
                    == pre.project.classes@[i].children@[j]
            &&& forall|j: int|
                0 <= j < pre.project.classes@.len() && j != i ==> #[trigger] post.project.classes@[j]
                    == pre.project.classes@[j]
        }),
{
    let classes = pre.project.classes@;
    let i = edit_target(pre)->0;
    match pre.selected_class {
        Some(id) => crate::model::lemma_class_index(classes, id),
        None => crate::model::lemma_class_index(classes, classes[0].id),
    }
    let now = post.project.classes@[i].children@;
    assert forall|j: int| 0 <= j < classes[i].children@.len() implies #[trigger] now[j]
        == classes[i].children@[j] by {
        assert(now.drop_last()[j] == now[j]);
    }
}

/// Fields that are accepted take the place of those of the class that they were found
/// for, and of no other.
pub proof fn accepted_fields_are_taken(pre: NemclassApp, post: NemclassApp, j: int)
    requires
        dissect_accepted(pre, post, None),
        pre.dissect_preview matches Some(p) && class_index(
            pre.project.classes@,
            p.target_class,
        ) is Some,
        0 <= j < pre.project.classes@.len(),
        crate::model::distinct_ids(pre.project.classes@),
    ensures
        pre.project.classes@[j].id == pre.dissect_preview->0.target_class
            ==> post.project.classes@[j].children == pre.dissect_preview->0.defs
            && post.project.classes@[j].name == pre.project.classes@[j].name,
        pre.project.classes@[j].id != pre.dissect_preview->0.target_class
            ==> post.project.classes@[j] == pre.project.classes@[j],
        post.dissect_preview is None,
{
    let classes = pre.project.classes@;
    let t = pre.dissect_preview->0.target_class;
    crate::model::lemma_class_index(classes, t);
    let i = class_index(classes, t)->0;
    if classes[j].id == t && i != j {
        if i < j {
            assert(classes[i].id != classes[j].id);
        } else {
            assert(classes[j].id != classes[i].id);
        }
    }
}

} // verus!

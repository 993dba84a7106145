//! Editing the class that is shown: the selected rows, the clipboard, and undoing
//! what was done.
use vstd::prelude::*;
use vstd::string::StringExecFns;

use crate::app_class::{first_class, first_class_exec};
use crate::app_state::NemclassApp;
use crate::class_actions::{
    class_picked, click_effect, copy_path, picks, ClickEffect, KeyAction, NodeEditOp, NodeRef,
    PickerPurpose, ToolbarAction,
};
use crate::enum_editor::{edit_enums, edited, EnumEdit, EnumOutcome};
use crate::host_classes::{same_but_fields, NodeKind};
use crate::model::{class_index, lemma_class_index, Node, Project};
use crate::node_copy::{all_copied, copied, copy_node, copy_nodes, copy_project, project_copied};
use crate::node_edit::{
    apply_edit, apply_edits, edit_refusal, edits_done, project_edited, redoes, remembers, undoes,
    EditsOutcome,
};
use crate::node_path::{find_node, has_node, node_at, splice_nodes, spliced_at};
use crate::selection::{
    descending, extends, path_before, place, place_of, places, selects_only, steps, toggles,
    Place, Selection,
};
use crate::text::says;

verus! {

/// Nothing is selected.
pub open spec fn nothing_selected(s: Selection) -> bool {
    s.rows@.len() == 0 && s.anchor is None
}

/// `post` is `pre` after a click on the row `p`: with shift it extends the
/// selection, with ctrl it adds or drops the row, on the only selected row it
/// clears, else it selects the row alone.
pub open spec fn clicked(
    pre: Selection,
    post: Selection,
    p: Place,
    shift: bool,
    ctrl: bool,
    order: Seq<Place>,
) -> bool {
    if shift {
        extends(pre, post, p, order)
    } else if ctrl {
        toggles(pre, post, p)
    } else if pre.rows@.len() == 1 && places(pre.rows@).contains(p) {
        nothing_selected(post)
    } else {
        selects_only(post, p)
    }
}

/// The field at a place of a project.
pub open spec fn node_of(project: Project, p: Place) -> Option<Node> {
    match class_index(project.classes@, p.0) {
        None => None,
        Some(i) => node_at(project.classes@[i].children@, p.1),
    }
}

/// The fields at those places where there is one.
pub open spec fn found_nodes(project: Project, s: Seq<Place>) -> Seq<Node>
    decreases s.len(),
{
    if s.len() == 0 {
        Seq::empty()
    } else {
        let rest = found_nodes(project, s.drop_last());
        match node_of(project, s.last()) {
            Some(n) => rest.push(n),
            None => rest,
        }
    }
}

/// `d` are the places of `rows`, each once, the last first.
pub open spec fn lists_descending(d: Seq<Place>, rows: Seq<Place>) -> bool {
    descending(d) && forall|p: Place| #[trigger] d.contains(p) <==> rows.contains(p)
}

/// What is done to each selected row.
#[derive(Debug)]
pub enum RowChange {
    Type(String),
    Hide(bool),
    Delete,
}

/// `op` does `what` to the row at `p`.
pub open spec fn changes_row(op: NodeEditOp, p: Place, what: RowChange) -> bool {
    match what {
        RowChange::Type(tag) => op matches NodeEditOp::ChangeType { owner, path, new_tag } && (
            owner,
            path@,
        ) == p && new_tag == tag,
        RowChange::Hide(on) => op matches NodeEditOp::SetHidden { owner, path, hidden } && (
            owner,
            path@,
        ) == p && hidden == on,
        RowChange::Delete => op matches NodeEditOp::DeleteRange { owner, path, count } && (
            owner,
            path@,
        ) == p && count == 1,
    }
}

/// `now` are the changes `was` and behind them one for each selected row, the
/// last row first.
pub open spec fn rows_queued(
    was: Seq<NodeEditOp>,
    now: Seq<NodeEditOp>,
    rows: Seq<Place>,
    what: RowChange,
) -> bool {
    exists|d: Seq<Place>|
        {
            &&& #[trigger] lists_descending(d, rows)
            &&& now.len() == was.len() + d.len()
            &&& now.subrange(0, was.len() as int) == was
            &&& forall|k: int|
                0 <= k < d.len() ==> changes_row(#[trigger] now[was.len() + k], d[k], what)
        }
}

/// The selected fields were copied, in their order. Without a selection the
/// clipboard stays as it is.
pub open spec fn selection_copied(pre: NemclassApp, post: NemclassApp) -> bool {
    if pre.selection.rows@.len() == 0 {
        post == pre
    } else {
        &&& exists|d: Seq<Place>|
            #[trigger] lists_descending(d, places(pre.selection.rows@)) && all_copied(
                found_nodes(pre.project, d.reverse()),
                post.node_clipboard@,
                None,
            )
        &&& post == (NemclassApp { node_clipboard: post.node_clipboard, ..pre })
    }
}

/// The selected fields are to be deleted, and nothing is selected any more.
pub open spec fn selection_deleted(pre: NemclassApp, post: NemclassApp) -> bool {
    &&& rows_queued(
        pre.pending_node_edits@,
        post.pending_node_edits@,
        places(pre.selection.rows@),
        RowChange::Delete,
    )
    &&& nothing_selected(post.selection)
    &&& post == (NemclassApp {
        pending_node_edits: post.pending_node_edits,
        selection: post.selection,
        ..pre
    })
}

/// A change was made, and can be undone; or it was refused, and the error says
/// why.
pub open spec fn node_edited(
    pre: NemclassApp,
    post: NemclassApp,
    op: NodeEditOp,
    kinds: Seq<NodeKind>,
    fresh: u128,
) -> bool {
    match edit_refusal(op, pre.project, kinds) {
        Some(e) => says(post.last_error, e.text()) && post == (NemclassApp {
            last_error: post.last_error,
            ..pre
        }),
        None => {
            &&& project_edited(op, pre.project, post.project, kinds, fresh)
            &&& remembers(pre.history, post.history, pre.project)
            &&& post == (NemclassApp {
                project: post.project,
                history: post.history,
                project_dirty: true,
                last_snapshot: None,
                ..pre
            })
        },
    }
}

/// The changes that were put together were made, as one that can be undone. Where
/// some were refused the error says why the last of them was.
pub open spec fn edits_flushed(
    pre: NemclassApp,
    post: NemclassApp,
    kinds: Seq<NodeKind>,
    fresh: u128,
) -> bool {
    exists|out: EditsOutcome|
        {
            &&& #[trigger] edits_done(
                pre.project,
                post.project,
                pre.pending_node_edits@,
                kinds,
                fresh,
                out,
            )
            &&& post.pending_node_edits@.len() == 0
            &&& match out.refused {
                Some(e) => says(post.last_error, e.text()),
                None => post.last_error == pre.last_error,
            }
            &&& if out.changed {
                &&& remembers(pre.history, post.history, pre.project)
                &&& post == (NemclassApp {
                    project: post.project,
                    history: post.history,
                    pending_node_edits: post.pending_node_edits,
                    last_error: post.last_error,
                    project_dirty: true,
                    last_snapshot: None,
                    ..pre
                })
            } else {
                post == (NemclassApp {
                    project: post.project,
                    pending_node_edits: post.pending_node_edits,
                    last_error: post.last_error,
                    ..pre
                })
            }
        }
}

/// The class that is shown of a project: the one that was, or else the first.
pub open spec fn shown_class(project: Project, was: Option<u128>) -> Option<u128> {
    match was {
        Some(id) => if class_index(project.classes@, id) is Some {
            was
        } else {
            first_class(project.classes@)
        },
        None => first_class(project.classes@),
    }
}

/// Another state of the project is shown. Nothing is selected any more, and a
/// class that is not there is no longer shown.
pub open spec fn state_shown(pre: NemclassApp, post: NemclassApp) -> bool {
    &&& nothing_selected(post.selection)
    &&& post == (NemclassApp {
        project: post.project,
        history: post.history,
        selection: post.selection,
        selected_class: shown_class(post.project, pre.selected_class),
        project_dirty: true,
        last_snapshot: None,
        ..pre
    })
}

/// The last change was undone.
pub open spec fn change_undone(pre: NemclassApp, post: NemclassApp) -> bool {
    if pre.history.undo@.len() == 0 {
        post == pre
    } else {
        undoes(pre.history, post.history, pre.project, post.project) && state_shown(pre, post)
    }
}

/// The change that was undone last was made again.
pub open spec fn change_redone(pre: NemclassApp, post: NemclassApp) -> bool {
    if pre.history.redo@.len() == 0 {
        post == pre
    } else {
        redoes(pre.history, post.history, pre.project, post.project) && state_shown(pre, post)
    }
}

/// Where pasted fields go: into which class, and behind which field; without one
/// at the end.
pub open spec fn paste_place(app: NemclassApp) -> Option<(int, Option<Seq<usize>>)> {
    let behind = match place_of(app.selection.anchor) {
        Some(p) => match node_of(app.project, p) {
            Some(_) => Some((class_index(app.project.classes@, p.0)->0, Some(p.1))),
            None => None,
        },
        None => None,
    };
    match behind {
        Some(_) => behind,
        None => match app.selected_class {
            Some(id) => match class_index(app.project.classes@, id) {
                Some(i) => Some((i, None)),
                None => None,
            },
            None => None,
        },
    }
}

/// The copied fields were pasted behind the anchor, or else at the end of the
/// class that is shown, with pointers as wide as the project's.
pub open spec fn pasted(pre: NemclassApp, post: NemclassApp) -> bool {
    match paste_place(pre) {
        None => post == pre,
        Some((i, behind)) => if pre.node_clipboard@.len() == 0 {
            post == pre
        } else {
            let was = pre.project.classes@[i].children@;
            let now = post.project.classes@[i].children@;
            &&& post.project == (Project { classes: post.project.classes, ..pre.project })
            &&& same_but_fields(pre.project.classes@, post.project.classes@, i)
            &&& exists|nodes: Seq<Node>|
                {
                    &&& #[trigger] all_copied(
                        pre.node_clipboard@,
                        nodes,
                        Some(pre.project.pointer_size),
                    )
                    &&& match behind {
                        Some(path) => spliced_at(was, now, path, true, 0, nodes),
                        None => now == was + nodes,
                    }
                }
            &&& remembers(pre.history, post.history, pre.project)
            &&& post == (NemclassApp {
                project: post.project,
                history: post.history,
                project_dirty: true,
                last_snapshot: None,
                ..pre
            })
        },
    }
}

/// The field, or one below it, embeds the class or points at it.
pub open spec fn mentions(n: Node, id: u128) -> bool
    decreases n,
{
    ||| n.instance == Some(id)
    ||| n.pointer_target == Some(id)
    ||| exists|i: int| 0 <= i < n.children@.len() && mentions(#[trigger] n.children@[i], id)
}

/// One of the fields mentions the class.
pub open spec fn any_mentions(nodes: Seq<Node>, id: u128) -> bool {
    exists|i: int| 0 <= i < nodes.len() && mentions(#[trigger] nodes[i], id)
}

fn node_mentions(n: &Node, id: u128) -> (r: bool)
    ensures
        r == mentions(*n, id),
    decreases *n,
{
    if let Some(i) = n.instance {
        if i == id {
            return true;
        }
    }
    if let Some(t) = n.pointer_target {
        if t == id {
            return true;
        }
    }
    for i in 0..n.children.len()
        invariant
            forall|k: int| 0 <= k < i ==> !mentions(#[trigger] n.children@[k], id),
    {
        proof {
            assert(decreases_to!(*n => n.children@[i as int]));
        }
        if node_mentions(&n.children[i], id) {
            return true;
        }
    }
    false
}

fn fields_mention(nodes: &Vec<Node>, id: u128) -> (r: bool)
    ensures
        r == any_mentions(nodes@, id),
{
    for i in 0..nodes.len()
        invariant
            forall|k: int| 0 <= k < i ==> !mentions(#[trigger] nodes@[k], id),
    {
        if node_mentions(&nodes[i], id) {
            return true;
        }
    }
    false
}

/// A class of the project mentions another one.
pub fn references_class(project: &Project, class: u128, other: u128) -> (r: bool)
    ensures
        r == match class_index(project.classes@, class) {
            Some(i) => any_mentions(project.classes@[i].children@, other),
            None => false,
        },
{
    match project.index_of(class) {
        None => false,
        Some(c) => fields_mention(&project.classes[c].children, other),
    }
}

/// Picking the class would make classes hold each other. A class that the project
/// does not have holds nothing.
pub open spec fn would_cycle(project: Project, picked: u128, owner: u128) -> bool {
    match class_index(project.classes@, picked) {
        Some(i) => picked == owner || any_mentions(project.classes@[i].children@, owner),
        None => false,
    }
}

/// The dialog that asks for the name of a class that selected fields are moved
/// into.
#[derive(Debug)]
pub struct ExtractClassState {
    pub owner: u128,
    pub paths: Vec<Vec<usize>>,
    pub name: String,
}

/// The selected fields were copied, and are to be deleted.
pub open spec fn selection_cut(pre: NemclassApp, post: NemclassApp) -> bool {
    exists|mid: NemclassApp| #[trigger] selection_copied(pre, mid) && selection_deleted(mid, post)
}

/// The selected fields are to be hidden, or shown again.
pub open spec fn rows_hidden(pre: NemclassApp, post: NemclassApp, hidden: bool) -> bool {
    &&& rows_queued(
        pre.pending_node_edits@,
        post.pending_node_edits@,
        places(pre.selection.rows@),
        RowChange::Hide(hidden),
    )
    &&& post == (NemclassApp { pending_node_edits: post.pending_node_edits, ..pre })
}

/// All rows on screen are selected. The anchor stays where it is; without one it
/// is the first row.
pub open spec fn everything_selected(
    pre: NemclassApp,
    post: NemclassApp,
    order: Seq<Place>,
) -> bool {
    &&& places(post.selection.rows@) == order
    &&& place_of(post.selection.anchor) == if pre.selection.anchor is None && order.len() > 0 {
        Some(order[0])
    } else {
        place_of(pre.selection.anchor)
    }
    &&& post == (NemclassApp { selection: post.selection, ..pre })
}

/// What is asked before the selected fields of the class that is shown become a
/// class: its name. Nothing is asked where none are selected.
pub open spec fn extract_asked(app: NemclassApp, r: Option<ExtractClassState>) -> bool {
    match r {
        Some(s) => {
            &&& app.selected_class == Some(s.owner)
            &&& s.name@ == "NewClass"@
            &&& s.paths@.len() > 0
            &&& forall|i: int, j: int|
                0 <= i < j < s.paths@.len() ==> path_before(
                    (#[trigger] s.paths@[j])@,
                    (#[trigger] s.paths@[i])@,
                )
            &&& forall|i: int|
                0 <= i < s.paths@.len() ==> places(app.selection.rows@).contains(
                    (s.owner, (#[trigger] s.paths@[i])@),
                )
            &&& forall|path: Seq<usize>| #[trigger]
                places(app.selection.rows@).contains((s.owner, path)) ==> exists|i: int|
                    0 <= i < s.paths@.len() && (#[trigger] s.paths@[i])@ == path
        },
        None => match app.selected_class {
            None => true,
            Some(id) => forall|path: Seq<usize>|
                !(#[trigger] places(app.selection.rows@).contains((id, path))),
        },
    }
}

/// What a button of the toolbar does.
pub open spec fn toolbar_ran(
    pre: NemclassApp,
    post: NemclassApp,
    action: ToolbarAction,
    order: Seq<Place>,
    r: Option<ExtractClassState>,
) -> bool {
    &&& action != ToolbarAction::ExtractClass ==> r is None
    &&& match action {
        ToolbarAction::Undo => change_undone(pre, post),
        ToolbarAction::Redo => change_redone(pre, post),
        ToolbarAction::Copy => selection_copied(pre, post),
        ToolbarAction::Cut => selection_cut(pre, post),
        ToolbarAction::Paste => pasted(pre, post),
        ToolbarAction::Hide => rows_hidden(pre, post, true),
        ToolbarAction::Unhide => rows_hidden(pre, post, false),
        ToolbarAction::DeleteSelection => selection_deleted(pre, post),
        ToolbarAction::SelectAll => everything_selected(pre, post, order),
        ToolbarAction::ExtractClass => post == pre && extract_asked(pre, r),
    }
}

/// The enums of the project were edited. Adding and removing one can be undone; what
/// changed anything leaves the project unsaved and is drawn anew.
pub open spec fn enum_edited(pre: NemclassApp, post: NemclassApp, edit: EnumEdit) -> bool {
    exists|out: EnumOutcome|
        {
            &&& #[trigger] edited(pre.project.enums@, post.project.enums@, edit, out)
            &&& post.project == (Project { enums: post.project.enums, ..pre.project })
            &&& if out.undoable {
                remembers(pre.history, post.history, pre.project)
            } else {
                post.history == pre.history
            }
            &&& post == (NemclassApp {
                project: post.project,
                history: post.history,
                project_dirty: pre.project_dirty || out.changed,
                last_snapshot: if out.changed {
                    None
                } else {
                    pre.last_snapshot
                },
                ..pre
            })
        }
}

impl NemclassApp {
    /// What was typed was written into the target, or could not be.
    pub fn value_write_done(&mut self, outcome: Result<(), String>)
        ensures
            match outcome {
                Ok(_) => *final(self) == (NemclassApp {
                    last_error: None,
                    last_snapshot: None,
                    ..*old(self)
                }),
                Err(e) => {
                    &&& says(final(self).last_error, "Write: "@ + e@)
                    &&& *final(self) == (NemclassApp {
                        last_error: final(self).last_error,
                        ..*old(self)
                    })
                },
            },
    {
        match outcome {
            Ok(_) => {
                self.last_error = None;
                self.last_snapshot = None;
            },
            Err(e) => {
                let mut m = "Write: ".to_string();
                m.append(e.as_str());
                self.last_error = Some(m);
            },
        }
    }

    /// Makes a change in the enum editor.
    pub fn edit_enum(&mut self, edit: EnumEdit)
        ensures
            enum_edited(*old(self), *final(self), edit),
    {
        let copy = copy_project(&self.project, None);
        let out = edit_enums(&mut self.project.enums, edit);
        if out.undoable {
            self.history.keep(copy);
        }
        if out.changed {
            self.project_dirty = true;
            self.last_snapshot = None;
        }
        assert(edited(old(self).project.enums@, self.project.enums@, edit, out));
    }

    /// A row was clicked. `order` are the rows on screen.
    pub fn row_clicked(&mut self, row: NodeRef, shift: bool, ctrl: bool, order: &Vec<NodeRef>)
        ensures
            clicked(
                old(self).selection,
                final(self).selection,
                place(row),
                shift,
                ctrl,
                places(order@),
            ),
            *final(self) == (NemclassApp { selection: final(self).selection, ..*old(self) }),
    {
        let hit = self.selection.contains(&row);
        match click_effect(shift, ctrl, self.selection.len(), hit) {
            ClickEffect::Extend => {
                self.selection.extend_to(row, order);
            },
            ClickEffect::Toggle => {
                self.selection.toggle(row);
            },
            ClickEffect::Clear => {
                self.selection.clear();
            },
            ClickEffect::Single => {
                self.selection.set_single(row);
            },
        }
    }

    /// The menu of a row was opened. On a row that is not selected it is about that
    /// row alone.
    pub fn row_menu_opened(&mut self, row: NodeRef)
        ensures
            if places(old(self).selection.rows@).contains(place(row)) {
                *final(self) == *old(self)
            } else {
                &&& selects_only(final(self).selection, place(row))
                &&& *final(self) == (NemclassApp {
                    selection: final(self).selection,
                    ..*old(self)
                })
            },
    {
        if !self.selection.contains(&row) {
            self.selection.set_single(row);
        }
    }

    /// Remembers the project, so that what follows can be undone.
    pub fn record_undo(&mut self)
        ensures
            remembers(old(self).history, final(self).history, old(self).project),
            *final(self) == (NemclassApp { history: final(self).history, ..*old(self) }),
    {
        self.history.record(&self.project);
    }

    /// Makes a change to the fields of the project.
    pub fn apply_node_edit(&mut self, op: NodeEditOp, kinds: &Vec<NodeKind>, fresh: u128)
        ensures
            node_edited(*old(self), *final(self), op, kinds@, fresh),
    {
        let copy = copy_project(&self.project, None);
        match apply_edit(&mut self.project, &op, kinds, fresh) {
            Ok(_) => {
                self.history.keep(copy);
                self.project_dirty = true;
                self.last_snapshot = None;
            },
            Err(e) => {
                self.last_error = Some(e.message().to_string());
            },
        }
    }

    /// Makes the changes that were put together, as one step.
    pub fn flush_pending_node_edits(&mut self, kinds: &Vec<NodeKind>, fresh: u128)
        ensures
            edits_flushed(*old(self), *final(self), kinds@, fresh),
    {
        let mut ops: Vec<NodeEditOp> = Vec::new();
        std::mem::swap(&mut self.pending_node_edits, &mut ops);
        let copy = copy_project(&self.project, None);
        let out = apply_edits(&mut self.project, &ops, kinds, fresh);
        if out.changed {
            self.history.keep(copy);
            self.project_dirty = true;
            self.last_snapshot = None;
        }
        if let Some(e) = out.refused {
            self.last_error = Some(e.message().to_string());
        }
    }

    fn queue_rows(&mut self, what: &RowChange)
        ensures
            rows_queued(
                old(self).pending_node_edits@,
                final(self).pending_node_edits@,
                places(old(self).selection.rows@),
                *what,
            ),
            *final(self) == (NemclassApp {
                pending_node_edits: final(self).pending_node_edits,
                ..*old(self)
            }),
    {
        let rows = self.selection.rows_descending();
        let ghost d = places(rows@);
        let ghost was = self.pending_node_edits@;
        for i in 0..rows.len()
            invariant
                d == places(rows@),
                was == old(self).pending_node_edits@,
                self.pending_node_edits@.len() == was.len() + i,
                self.pending_node_edits@.subrange(0, was.len() as int) == was,
                forall|k: int|
                    0 <= k < i ==> changes_row(
                        #[trigger] self.pending_node_edits@[was.len() + k],
                        d[k],
                        *what,
                    ),
                *self == (NemclassApp {
                    pending_node_edits: self.pending_node_edits,
                    ..*old(self)
                }),
        {
            let owner: u128 = rows[i].owner;
            let path = copy_path(&rows[i].path);
            let op = match what {
                RowChange::Type(tag) => NodeEditOp::ChangeType {
                    owner,
                    path,
                    new_tag: tag.clone(),
                },
                RowChange::Hide(hidden) => NodeEditOp::SetHidden { owner, path, hidden: *hidden },
                RowChange::Delete => NodeEditOp::DeleteRange { owner, path, count: 1 },
            };
            let ghost before = self.pending_node_edits@;
            self.pending_node_edits.push(op);
            proof {
                let now = self.pending_node_edits@;
                assert(now.subrange(0, was.len() as int) =~= before.subrange(
                    0,
                    was.len() as int,
                ));
                assert forall|k: int| 0 <= k < i + 1 implies changes_row(
                    #[trigger] now[was.len() + k],
                    d[k],
                    *what,
                ) by {
                    if k < i {
                        assert(now[was.len() + k] == before[was.len() + k]);
                    }
                }
            }
        }
        assert(self.pending_node_edits@.subrange(0, was.len() as int) =~= was);
        assert(lists_descending(d, places(old(self).selection.rows@)));
    }

    /// The selected fields are to have another type.
    pub fn apply_to_selection(&mut self, new_tag: &str)
        ensures
            exists|tag: String|
                tag@ == new_tag@ && #[trigger] rows_queued(
                    old(self).pending_node_edits@,
                    final(self).pending_node_edits@,
                    places(old(self).selection.rows@),
                    RowChange::Type(tag),
                ),
            *final(self) == (NemclassApp {
                pending_node_edits: final(self).pending_node_edits,
                ..*old(self)
            }),
    {
        let tag = new_tag.to_string();
        self.queue_rows(&RowChange::Type(tag));
    }

    /// The selected fields are to be hidden, or shown again.
    pub fn set_selection_hidden(&mut self, hidden: bool)
        ensures
            rows_hidden(*old(self), *final(self), hidden),
    {
        self.queue_rows(&RowChange::Hide(hidden));
    }

    /// The selected fields are to be deleted.
    pub fn delete_selection(&mut self)
        ensures
            selection_deleted(*old(self), *final(self)),
    {
        self.queue_rows(&RowChange::Delete);
        self.selection.clear();
    }

    /// Copies the selected fields.
    pub fn copy_selection(&mut self)
        ensures
            selection_copied(*old(self), *final(self)),
    {
        if self.selection.is_empty() {
            return;
        }
        let rows = self.selection.rows_descending();
        let ghost d = places(rows@);
        let ghost up = d.reverse();
        let n: usize = rows.len();
        let mut out: Vec<Node> = Vec::new();
        for k in 0..n
            invariant
                n == rows@.len(),
                d == places(rows@),
                up == d.reverse(),
                *self == *old(self),
                all_copied(found_nodes(self.project, up.subrange(0, k as int)), out@, None),
        {
            let row = &rows[n - 1 - k];
            proof {
                assert(up.subrange(0, k + 1).drop_last() =~= up.subrange(0, k as int));
                assert(up[k as int] == place(*row));
                assert(up.subrange(0, k + 1).last() == place(*row));
                lemma_class_index(self.project.classes@, row.owner);
            }
            let ghost before = found_nodes(self.project, up.subrange(0, k as int));
            if let Some(i) = self.project.index_of(row.owner) {
                if let Some(node) = find_node(
                    &self.project.classes[i].children,
                    row.path.as_slice(),
                ) {
                    let c = copy_node(node, None);
                    assert(node_of(self.project, place(*row)) == Some(*node));
                    let ghost held = out@;
                    out.push(c);
                    assert forall|j: int| 0 <= j < before.push(*node).len() implies copied(
                        #[trigger] before.push(*node)[j],
                        out@[j],
                        None,
                    ) by {
                        if j < before.len() {
                            assert(copied(before[j], held[j], None));
                        }
                    }
                }
            }
        }
        assert(up.subrange(0, n as int) =~= up);
        assert(lists_descending(d, places(old(self).selection.rows@)));
        self.node_clipboard = out;
    }

    /// Copies the selected fields; then they are to be deleted.
    pub fn cut_selection(&mut self)
        ensures
            selection_cut(*old(self), *final(self)),
    {
        self.copy_selection();
        let ghost mid = *self;
        assert(selection_copied(*old(self), mid));
        self.delete_selection();
    }

    /// Pastes the copied fields.
    pub fn paste_clipboard(&mut self)
        ensures
            pasted(*old(self), *final(self)),
    {
        if self.node_clipboard.len() == 0 {
            return;
        }
        let ghost pre = *self;
        let at = match &self.selection.anchor {
            Some(a) => {
                proof {
                    lemma_class_index(self.project.classes@, a.owner);
                }
                match self.project.index_of(a.owner) {
                    Some(i) => if has_node(
                        &self.project.classes[i].children,
                        a.path.as_slice(),
                    ) {
                        Some((i, copy_path(&a.path)))
                    } else {
                        None
                    },
                    None => None,
                }
            },
            None => None,
        };
        match at {
            Some((i, path)) => {
                assert(paste_place(pre) == Some((i as int, Some(path@))));
                self.history.record(&self.project);
                let width: usize = self.project.pointer_size;
                let nodes = copy_nodes(&self.node_clipboard, Some(width));
                let class = &mut self.project.classes[i];
                splice_nodes(&mut class.children, path.as_slice(), true, 0, nodes);
                self.project_dirty = true;
                self.last_snapshot = None;
                assert(self.project.classes@ =~= pre.project.classes@.update(
                    i as int,
                    self.project.classes@[i as int],
                ));
                assert(all_copied(pre.node_clipboard@, nodes@, Some(width)));
            },
            None => {
                if let Some(id) = self.selected_class {
                    proof {
                        lemma_class_index(self.project.classes@, id);
                    }
                    if let Some(i) = self.project.index_of(id) {
                        assert(paste_place(pre) == Some((i as int, None::<Seq<usize>>)));
                        self.history.record(&self.project);
                        let width: usize = self.project.pointer_size;
                        let nodes = copy_nodes(&self.node_clipboard, Some(width));
                        let ghost copies = nodes@;
                        let mut nodes = nodes;
                        let class = &mut self.project.classes[i];
                        class.children.append(&mut nodes);
                        self.project_dirty = true;
                        self.last_snapshot = None;
                        assert(self.project.classes@ =~= pre.project.classes@.update(
                            i as int,
                            self.project.classes@[i as int],
                        ));
                        assert(all_copied(pre.node_clipboard@, copies, Some(width)));
                    }
                }
            },
        }
    }

    fn show_state(&mut self)
        ensures
            nothing_selected(final(self).selection),
            *final(self) == (NemclassApp {
                selection: final(self).selection,
                selected_class: shown_class(old(self).project, old(self).selected_class),
                project_dirty: true,
                last_snapshot: None,
                ..*old(self)
            }),
    {
        self.selection.clear();
        let there = match self.selected_class {
            Some(id) => self.project.index_of(id).is_some(),
            None => false,
        };
        if !there {
            self.selected_class = first_class_exec(&self.project.classes);
        }
        self.project_dirty = true;
        self.last_snapshot = None;
    }

    /// Undoes the last change.
    pub fn undo(&mut self)
        ensures
            change_undone(*old(self), *final(self)),
    {
        if self.history.undo(&mut self.project) {
            self.show_state();
        }
    }

    /// Makes the change again that was undone last.
    pub fn redo(&mut self)
        ensures
            change_redone(*old(self), *final(self)),
    {
        if self.history.redo(&mut self.project) {
            self.show_state();
        }
    }

    /// Sets how wide the target's pointers are: four or eight bytes. Every field
    /// that is as wide as a pointer changes with it, which can be undone.
    pub fn set_pointer_size(&mut self, size: usize)
        ensures
            if size == 4 || size == 8 {
                &&& project_copied(old(self).project, final(self).project, Some(size))
                &&& remembers(old(self).history, final(self).history, old(self).project)
                &&& *final(self) == (NemclassApp {
                    project: final(self).project,
                    history: final(self).history,
                    project_dirty: true,
                    last_snapshot: None,
                    ..*old(self)
                })
            } else {
                &&& says(final(self).last_error, "A pointer has four or eight bytes."@)
                &&& *final(self) == (NemclassApp {
                    last_error: final(self).last_error,
                    ..*old(self)
                })
            },
    {
        if size != 4 && size != 8 {
            self.last_error = Some("A pointer has four or eight bytes.".to_string());
            return;
        }
        self.history.record(&self.project);
        self.project = copy_project(&self.project, Some(size));
        self.project_dirty = true;
        self.last_snapshot = None;
    }

    /// Asks for the name of a class that the selected fields of the class that is
    /// shown are moved into; nothing is asked where none are selected.
    pub fn begin_extract_class(&self) -> (r: Option<ExtractClassState>)
        ensures
            extract_asked(*self, r),
    {
        match self.selected_class {
            None => None,
            Some(owner) => {
                let paths = self.selection.paths_descending(owner);
                if paths.len() == 0 {
                    None
                } else {
                    Some(ExtractClassState { owner, paths, name: "NewClass".to_string() })
                }
            },
        }
    }

    /// The name was given: the fields are moved, and nothing is selected any more.
    pub fn extract_confirmed(
        &mut self,
        state: ExtractClassState,
        kinds: &Vec<NodeKind>,
        fresh: u128,
    )
        ensures
            exists|mid: NemclassApp|
                {
                    &&& nothing_selected(mid.selection)
                    &&& mid == (NemclassApp { selection: mid.selection, ..*old(self) })
                    &&& #[trigger] node_edited(
                        mid,
                        *final(self),
                        NodeEditOp::ExtractClass {
                            owner: state.owner,
                            paths: state.paths,
                            name: state.name,
                        },
                        kinds@,
                        fresh,
                    )
                },
    {
        self.selection.clear();
        let ghost mid = *self;
        let op = NodeEditOp::ExtractClass {
            owner: state.owner,
            paths: state.paths,
            name: state.name,
        };
        self.apply_node_edit(op, kinds, fresh);
        assert(node_edited(mid, *self, op, kinds@, fresh));
    }

    /// A class was picked for a field. Where that would make classes hold each
    /// other it is refused.
    pub fn class_chosen(&mut self, purpose: PickerPurpose, picked: u128)
        ensures
            if would_cycle(old(self).project, picked, purpose.owner()) {
                &&& says(
                    final(self).status_msg,
                    "Cannot select: would create a class cycle."@,
                )
                &&& *final(self) == (NemclassApp {
                    status_msg: final(self).status_msg,
                    ..*old(self)
                })
            } else {
                &&& exists|op: NodeEditOp|
                    #[trigger] picks(op, purpose, picked) && final(self).pending_node_edits@
                        == old(self).pending_node_edits@.push(op)
                &&& *final(self) == (NemclassApp {
                    pending_node_edits: final(self).pending_node_edits,
                    ..*old(self)
                })
            },
    {
        let owner: u128 = match &purpose {
            PickerPurpose::SetPtrTarget { owner, .. } => *owner,
            PickerPurpose::SetInstance { owner, .. } => *owner,
            PickerPurpose::ChangeToInstance { owner, .. } => *owner,
        };
        let known = self.project.index_of(picked).is_some();
        if known && (picked == owner || references_class(&self.project, picked, owner)) {
            self.status_msg = Some("Cannot select: would create a class cycle.".to_string());
            return;
        }
        let ghost kept = purpose;
        let op = class_picked(purpose, picked);
        assert(picks(op, kept, picked));
        self.pending_node_edits.push(op);
    }

    /// A button of the toolbar, an entry of a menu or a key was chosen. `order` are
    /// the rows on screen. Returns the dialog that is to be opened.
    pub fn run_toolbar(&mut self, action: ToolbarAction, order: &Vec<NodeRef>) -> (r: Option<
        ExtractClassState,
    >)
        ensures
            toolbar_ran(*old(self), *final(self), action, places(order@), r),
    {
        match action {
            ToolbarAction::Undo => self.undo(),
            ToolbarAction::Redo => self.redo(),
            ToolbarAction::Copy => self.copy_selection(),
            ToolbarAction::Cut => self.cut_selection(),
            ToolbarAction::Paste => self.paste_clipboard(),
            ToolbarAction::Hide => self.set_selection_hidden(true),
            ToolbarAction::Unhide => self.set_selection_hidden(false),
            ToolbarAction::DeleteSelection => self.delete_selection(),
            ToolbarAction::SelectAll => self.selection.select_all(order),
            ToolbarAction::ExtractClass => {
                return self.begin_extract_class();
            },
        }
        None
    }

    /// A key of the class view was pressed.
    pub fn run_key(&mut self, action: KeyAction, order: &Vec<NodeRef>) -> (r: Option<
        ExtractClassState,
    >)
        ensures
            match action {
                KeyAction::Toolbar(which) => toolbar_ran(
                    *old(self),
                    *final(self),
                    which,
                    places(order@),
                    r,
                ),
                KeyAction::ClearSelection => {
                    &&& r is None
                    &&& nothing_selected(final(self).selection)
                    &&& *final(self) == (NemclassApp {
                        selection: final(self).selection,
                        ..*old(self)
                    })
                },
                KeyAction::Step { up, extend } => {
                    &&& r is None
                    &&& steps(
                        old(self).selection,
                        final(self).selection,
                        places(order@),
                        up,
                        extend,
                    )
                    &&& *final(self) == (NemclassApp {
                        selection: final(self).selection,
                        ..*old(self)
                    })
                },
            },
    {
        match action {
            KeyAction::Toolbar(which) => {
                return self.run_toolbar(which, order);
            },
            KeyAction::ClearSelection => self.selection.clear(),
            KeyAction::Step { up, extend } => self.selection.step(order, up, extend),
        }
        None
    }
}

/// A change that was made is undone by one step, however many fields it was about:
/// the project is as it was before.
pub proof fn one_undo_takes_back_a_change(
    before: NemclassApp,
    edited: NemclassApp,
    undone: NemclassApp,
    kinds: Seq<NodeKind>,
    fresh: u128,
)
    requires
        edits_flushed(before, edited, kinds, fresh),
        edited.history.undo@.len() > before.history.undo@.len(),
        change_undone(edited, undone),
    ensures
        project_copied(before.project, undone.project, None),
        undone.history.undo@ == before.history.undo@,
{
    let out = choose|out: EditsOutcome|
        #[trigger] edits_done(
            before.project,
            edited.project,
            before.pending_node_edits@,
            kinds,
            fresh,
            out,
        ) && (out.changed ==> remembers(before.history, edited.history, before.project)) && (
        !out.changed ==> edited.history == before.history);
    assert(out.changed);
}

/// A change that was undone and made again is as it was made.
pub proof fn redo_repeats_the_change(
    edited: NemclassApp,
    undone: NemclassApp,
    redone: NemclassApp,
)
    requires
        edited.history.undo@.len() > 0,
        change_undone(edited, undone),
        change_redone(undone, redone),
    ensures
        redone.project == edited.project,
        redone.history.undo@.len() == edited.history.undo@.len(),
        redone.history.redo@ == edited.history.redo@,
{
    assert(undone.history.redo@.drop_last() =~= edited.history.redo@);
}

/// What is refused changes nothing but the error.
pub proof fn refused_change_keeps_the_project(
    before: NemclassApp,
    after: NemclassApp,
    op: NodeEditOp,
    kinds: Seq<NodeKind>,
    fresh: u128,
)
    requires
        node_edited(before, after, op, kinds, fresh),
        edit_refusal(op, before.project, kinds) is Some,
    ensures
        after.project == before.project,
        after.history == before.history,
        after.project_dirty == before.project_dirty,
        after.last_error is Some,
{
}

/// Undoing and redoing leave the project to be saved, with nothing selected and a class
/// of the project shown; without a change to undo or redo nothing happens.
pub proof fn undone_project_is_to_be_saved(before: NemclassApp, after: NemclassApp)
    requires
        change_undone(before, after) && before.history.undo@.len() > 0 || change_redone(
            before,
            after,
        ) && before.history.redo@.len() > 0,
    ensures
        after.project_dirty,
        after.last_snapshot is None,
        nothing_selected(after.selection),
        after.project_dir == before.project_dir,
        after.selected_class matches Some(id) ==> class_index(after.project.classes@, id) is Some,
{
    if after.project.classes@.len() > 0 {
        crate::model::lemma_class_index(after.project.classes@, after.project.classes@[0].id);
    }
}

} // verus!

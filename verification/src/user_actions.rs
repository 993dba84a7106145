//! What the user finds of what was done: where a class is read, what a copy or a cut
//! takes, what a toolbar button does to the rows, and what holds a class in place.
use vstd::prelude::*;

use crate::address::{hex_addr, prefix_is_optional};
use crate::app_class::{
    class_address_set, class_removed, edit_target, fields_mention, node_mentions, snapshot_begun,
    snapshot_resolved, SnapshotStep,
};
use crate::app_edit::{
    any_mentions, changes_row, clicked, found_nodes, lists_descending, mentions, node_of,
    nothing_selected, pasted, paste_place, rows_queued, selection_copied, shown_class, toolbar_ran,
    would_cycle, ExtractClassState, RowChange,
};
use crate::app_scripts::{is_pressed, pressed_events, KeysDown};
use crate::app_state::{is_due, AppEvent, Effect, NemclassApp};
use crate::app_table::{action_applied, script_writes, table_address};
use crate::class_actions::{NodeEditOp, ToolbarAction};
use crate::dock::TabKind;
use crate::host_api::{HotkeyReg, ScriptFreeze, UiAction};
use crate::host_ops::WriteView;
use crate::model::{class_index, class_size, lemma_class_index, ClassNode, Node, Project};
use crate::node_copy::{all_copied, copied};

use crate::node_path::node_at;
use crate::scalar::RealReading;
use crate::scan_value::pinned_bytes;
use crate::selection::{places, Place, Selection};
use crate::text::{digit_value, hex_upper, lemma_digits_are_digits, lemma_digits_round_trip};

verus! {

/// The class that is shown is read where its formula leads, as many bytes as it has;
/// where the formula leads nowhere nothing is read and the class is shown as zeros.
pub proof fn class_is_read_where_its_formula_leads(
    pre: NemclassApp,
    post: NemclassApp,
    class: u128,
    modules: Option<String>,
    resolved: Result<usize, String>,
    step: SnapshotStep,
)
    requires
        snapshot_resolved(pre, post, class, modules, resolved, step),
        class_size(pre.project.classes@, class) > 0,
    ensures
        post.project == pre.project,
        resolved matches Ok(a) ==> post.class_base == Some(a) && step == (SnapshotStep::Read {
            addr: a,
            size: class_size(pre.project.classes@, class),
        }),
        resolved is Err ==> {
            &&& post.class_base is None
            &&& post.last_error is Some
            &&& step == SnapshotStep::Build
            &&& post.mem_buf@.len() == class_size(pre.project.classes@, class)
            &&& forall|i: int| 0 <= i < post.mem_buf@.len() ==> #[trigger] post.mem_buf@[i] == 0
        },
{
}

/// The base that a script found goes before the formula of the class, and without a
/// process nothing is read at all.
pub proof fn found_base_goes_before_the_formula(
    pre: NemclassApp,
    post: NemclassApp,
    class: u128,
    step: SnapshotStep,
)
    requires
        snapshot_begun(pre, post, step),
        pre.selected_class == Some(class),
        class_size(pre.project.classes@, class) > 0,
    ensures
        pre.process is None ==> post.class_base is None && step == SnapshotStep::Build,
        pre.process is Some ==> (pre.script_resolved_base matches Some(a) ==> post.class_base == Some(
            a,
        ) && step == (SnapshotStep::Read {
            addr: a,
            size: class_size(pre.project.classes@, class),
        })),
        step matches SnapshotStep::Resolve(f) ==> class_index(pre.project.classes@, class) is Some
            && f@ == pre.project.classes@[class_index(pre.project.classes@, class)->0].address_formula@,
{
    if class_index(pre.project.classes@, class) is None {
        assert(crate::text::trim(Seq::<char>::empty()) =~= Seq::<char>::empty());
    }
}

/// The formula that an address is set with leads to that address, and no other class
/// is touched.
pub proof fn set_address_is_the_formula(pre: NemclassApp, post: NemclassApp, addr: usize, i: int)
    requires
        class_address_set(pre, post, addr),
        edit_target(pre) == Some(i),
        0 <= i < pre.project.classes@.len(),
    ensures
        hex_addr(post.project.classes@[i].address_formula@) == Some(addr as int),
        post.project.classes@[i].children == pre.project.classes@[i].children,
        forall|j: int|
            0 <= j < pre.project.classes@.len() && j != i ==> #[trigger] post.project.classes@[j]
                == pre.project.classes@[j],
        post.project_dirty,
{
    crate::address::short_address_parses_back(addr as nat);
}

/// The address that a found entry is written with leads back to it.
pub proof fn table_address_leads_back(addr: usize)
    ensures
        hex_addr(table_address(addr)) == Some(addr as int),
{
    reveal_strlit("0x");
    let n = addr as nat;
    let digits = hex_upper(n);
    lemma_digits_are_digits(n, 16, true);
    assert forall|i: int| 0 <= i < digits.len() implies crate::text::hex_digit_value(
        #[trigger] digits[i],
    ) is Some by {
        assert(digit_value(digits[i], 16) is Some);
    }
    assert(table_address(addr) =~= seq!['0', 'x'] + digits);
    prefix_is_optional(digits, false);
    lemma_digits_round_trip(n, 16, true, usize::MAX as int, crate::text::IntError::PosOverflow);
    assert(crate::text::hex_digit_value(digits[0]) is Some);
}

proof fn lemma_fields_mention(nodes: Seq<Node>, n: nat, i: int, id: u128)
    requires
        0 <= i < n <= nodes.len(),
        node_mentions(nodes[i], id),
    ensures
        fields_mention(nodes, n, id),
    decreases n,
{
    if i < n - 1 {
        lemma_fields_mention(nodes, (n - 1) as nat, i, id);
    }
}

proof fn lemma_mention_at(nodes: Seq<Node>, path: Seq<usize>, id: u128)
    requires
        node_at(nodes, path) matches Some(n) && (n.pointer_target == Some(id) || n.instance_target()
            == Some(id)),
    ensures
        fields_mention(nodes, nodes.len(), id),
    decreases path.len(),
{
    let i = path[0] as int;
    if path.len() > 1 {
        lemma_mention_at(nodes[i].children@, path.subrange(1, path.len() as int), id);
    }
    lemma_fields_mention(nodes, nodes.len(), i, id);
}

/// A class that a field of another class embeds or points to, however deep the field
/// lies, is not removed.
pub proof fn mentioned_class_is_kept(
    pre: NemclassApp,
    post: NemclassApp,
    id: u128,
    r: Result<(), crate::app_class::RemoveRefusal>,
    i: int,
    path: Seq<usize>,
)
    requires
        class_removed(pre, post, id, r),
        0 <= i < pre.project.classes@.len(),
        pre.project.classes@[i].id != id,
        node_at(pre.project.classes@[i].children@, path) matches Some(n) && (n.pointer_target
            == Some(id) || n.instance_target() == Some(id)),
    ensures
        r is Err,
        post.project == pre.project,
        post.selected_class == pre.selected_class,
        post.project_dirty == pre.project_dirty,
{
    lemma_mention_at(pre.project.classes@[i].children@, path, id);
}

/// A class that is removed is gone, and it alone: the others keep their order and their
/// fields.
pub proof fn removed_class_is_gone(
    pre: NemclassApp,
    post: NemclassApp,
    id: u128,
    r: Result<(), crate::app_class::RemoveRefusal>,
    c: ClassNode,
)
    requires
        class_removed(pre, post, id, r),
        r is Ok,
        crate::model::distinct_ids(pre.project.classes@),
    ensures
        post.project.classes@.len() == pre.project.classes@.len() - 1,
        class_index(post.project.classes@, id) is None,
        c.id != id ==> (post.project.classes@.contains(c) <==> pre.project.classes@.contains(c)),
        post.selected_class != Some(id),
        post.project.enums == pre.project.enums,
{
    let was = pre.project.classes@;
    let now = post.project.classes@;
    lemma_class_index(was, id);
    lemma_class_index(now, id);
    let i = class_index(was, id)->0;
    assert forall|j: int| 0 <= j < now.len() implies (#[trigger] now[j]).id != id by {
        if j < i {
            assert(now[j] == was[j]);
        } else {
            assert(now[j] == was[j + 1]);
        }
    }
    if now.len() > 0 {
        assert(now[0].id != id);
    }
    if now.contains(c) {
        let j = now.index_of(c);
        if j < i {
            assert(was[j] == c);
        } else {
            assert(was[j + 1] == c);
        }
    }
    if c.id != id && was.contains(c) {
        let j = was.index_of(c);
        if j < i {
            assert(now[j] == c);
        } else {
            assert(now[j - 1] == c);
        }
    }
}

proof fn lemma_found(project: Project, s: Seq<Place>, k: int) -> (j: int)
    requires
        0 <= k < s.len(),
        node_of(project, s[k]) is Some,
    ensures
        0 <= j < found_nodes(project, s).len(),
        j <= k,
        found_nodes(project, s)[j] == node_of(project, s[k])->0,
    decreases s.len(),
{
    lemma_found_len(project, s.drop_last());
    if k == s.len() - 1 {
        found_nodes(project, s.drop_last()).len() as int
    } else {
        lemma_found(project, s.drop_last(), k)
    }
}

proof fn lemma_found_len(project: Project, s: Seq<Place>)
    ensures
        found_nodes(project, s).len() <= s.len(),
    decreases s.len(),
{
    if s.len() > 0 {
        lemma_found_len(project, s.drop_last());
    }
}

/// A copy takes every selected row that has a field, and leaves the project alone.
pub proof fn every_selected_row_is_copied(pre: NemclassApp, post: NemclassApp, p: Place)
    requires
        selection_copied(pre, post),
        places(pre.selection.rows@).contains(p),
        node_of(pre.project, p) is Some,
    ensures
        exists|j: int|
            0 <= j < post.node_clipboard@.len() && copied(
                node_of(pre.project, p)->0,
                #[trigger] post.node_clipboard@[j],
                None,
            ),
        post.project == pre.project,
        post.selection == pre.selection,
{
    let rows = places(pre.selection.rows@);
    assert(pre.selection.rows@.len() > 0);
    let d = choose|d: Seq<Place>|
        #[trigger] lists_descending(d, rows) && all_copied(
            found_nodes(pre.project, d.reverse()),
            post.node_clipboard@,
            None,
        );
    assert(d.contains(p));
    let k = d.index_of(p);
    let up = d.reverse();
    assert(up[up.len() - 1 - k] == p);
    let j = lemma_found(pre.project, up, up.len() - 1 - k);
    assert(copied(found_nodes(pre.project, up)[j], post.node_clipboard@[j], None));
}

/// Whatever is done to the selected rows is done to each of them, once, and to no
/// other; what was asked for before comes first.
pub proof fn every_selected_row_is_changed(
    was: Seq<NodeEditOp>,
    now: Seq<NodeEditOp>,
    rows: Seq<Place>,
    what: RowChange,
    p: Place,
)
    requires
        rows_queued(was, now, rows, what),
    ensures
        rows.contains(p) ==> exists|k: int|
            was.len() <= k < now.len() && changes_row(#[trigger] now[k], p, what),
        !rows.contains(p) ==> forall|k: int|
            was.len() <= k < now.len() ==> !changes_row(#[trigger] now[k], p, what),
        now.len() >= was.len(),
        forall|k: int| 0 <= k < was.len() ==> #[trigger] now[k] == was[k],
{
    let d = choose|d: Seq<Place>|
        {
            &&& #[trigger] lists_descending(d, rows)
            &&& now.len() == was.len() + d.len()
            &&& now.subrange(0, was.len() as int) == was
            &&& forall|k: int|
                0 <= k < d.len() ==> changes_row(#[trigger] now[was.len() + k], d[k], what)
        };
    assert(d.contains(p) <==> rows.contains(p));
    if rows.contains(p) {
        let k = d.index_of(p);
        assert(changes_row(now[was.len() + k], d[k], what));
    } else {
        assert forall|k: int| was.len() <= k < now.len() implies !changes_row(
            #[trigger] now[k],
            p,
            what,
        ) by {
            let m = k - was.len();
            assert(changes_row(now[was.len() + m], d[m], what));
            assert(d.contains(d[m]));
        }
    }
    assert forall|k: int| 0 <= k < was.len() implies #[trigger] now[k] == was[k] by {
        assert(now.subrange(0, was.len() as int)[k] == now[k]);
    }
}

/// The buttons for hiding do as they say: "Hide" hides each selected row, "Unhide"
/// shows it.
pub proof fn hide_button_hides(
    pre: NemclassApp,
    post: NemclassApp,
    action: ToolbarAction,
    order: Seq<Place>,
    r: Option<ExtractClassState>,
    p: Place,
)
    requires
        toolbar_ran(pre, post, action, order, r),
        action == ToolbarAction::Hide || action
            == ToolbarAction::Unhide,
        places(pre.selection.rows@).contains(p),
    ensures
        exists|k: int|
            pre.pending_node_edits@.len() <= k < post.pending_node_edits@.len() && (
            #[trigger] post.pending_node_edits@[k] matches NodeEditOp::SetHidden {
                owner,
                path,
                hidden,
            } && owner == p.0 && path@ == p.1 && hidden == (action
                == ToolbarAction::Hide)),
        post.project == pre.project,
{
    let on = action == ToolbarAction::Hide;
    every_selected_row_is_changed(
        pre.pending_node_edits@,
        post.pending_node_edits@,
        places(pre.selection.rows@),
        RowChange::Hide(on),
        p,
    );
}

/// A click chooses its row alone, and a second click on it chooses nothing.
pub proof fn second_click_lets_go(
    pre: Selection,
    mid: Selection,
    post: Selection,
    p: Place,
    order: Seq<Place>,
)
    requires
        !(pre.rows@.len() == 1 && places(pre.rows@).contains(p)),
        clicked(pre, mid, p, false, false, order),
        clicked(mid, post, p, false, false, order),
    ensures
        forall|q: Place| places(mid.rows@).contains(q) <==> q == p,
        nothing_selected(post),
{
    assert(places(mid.rows@)[0] == p);
    assert(places(mid.rows@).len() == 1);
}

/// The class that is shown after a change of the project is one of its classes, and
/// the one before wherever it is still there.
pub proof fn shown_class_is_there(project: Project, was: Option<u128>)
    ensures
        project.classes@.len() > 0 ==> (shown_class(project, was) matches Some(id) && class_index(
            project.classes@,
            id,
        ) is Some),
        was matches Some(id) ==> class_index(project.classes@, id) is Some ==> shown_class(
            project,
            was,
        ) == was,
        project.classes@.len() == 0 ==> shown_class(project, was) is None,
{
    if project.classes@.len() > 0 {
        lemma_class_index(project.classes@, project.classes@[0].id);
    }
    if let Some(id) = was {
        lemma_class_index(project.classes@, id);
    }
}

proof fn lemma_mentions_at(nodes: Seq<Node>, path: Seq<usize>, id: u128)
    requires
        node_at(nodes, path) matches Some(n) && (n.pointer_target == Some(id) || n.instance == Some(
            id,
        )),
    ensures
        any_mentions(nodes, id),
    decreases path.len(),
{
    let i = path[0] as int;
    if path.len() > 1 {
        let below = nodes[i].children@;
        lemma_mentions_at(below, path.subrange(1, path.len() as int), id);
        let k = choose|k: int| 0 <= k < below.len() && mentions(#[trigger] below[k], id);
        assert(mentions(nodes[i].children@[k], id));
    }
    assert(mentions(nodes[i], id));
}

/// A class that leads back to its owner through any of its fields is told apart, and
/// so is the owner itself.
pub proof fn cycle_is_seen(project: Project, picked: u128, owner: u128, path: Seq<usize>)
    requires
        class_index(project.classes@, picked) is Some,
        picked == owner || (node_at(
            project.classes@[class_index(project.classes@, picked)->0].children@,
            path,
        ) matches Some(n) && (n.pointer_target == Some(owner) || n.instance == Some(owner))),
    ensures
        would_cycle(project, picked, owner),
{
    if picked != owner {
        lemma_mentions_at(
            project.classes@[class_index(project.classes@, picked)->0].children@,
            path,
            owner,
        );
    }
}

/// A round writes what scripts have frozen: each value, at its address, in its type.
pub proof fn every_script_freeze_is_written(
    freezes: Seq<ScriptFreeze>,
    reals: Seq<RealReading>,
    i: int,
    bytes: Seq<u8>,
)
    requires
        reals.len() == freezes.len(),
        0 <= i < freezes.len(),
        pinned_bytes(freezes[i].vt, freezes[i].value@, reals[i]) == Some(bytes),
    ensures
        script_writes(freezes, reals).contains(WriteView { addr: freezes[i].addr, bytes }),
{
    lemma_script_writes(freezes, reals, i, bytes);
}

proof fn lemma_script_writes(
    freezes: Seq<ScriptFreeze>,
    reals: Seq<RealReading>,
    i: int,
    bytes: Seq<u8>,
)
    requires
        0 <= i < freezes.len(),
        pinned_bytes(freezes[i].vt, freezes[i].value@, reals[i]) == Some(bytes),
    ensures
        script_writes(freezes, reals).contains(WriteView { addr: freezes[i].addr, bytes }),
    decreases freezes.len(),
{
    let w = WriteView { addr: freezes[i].addr, bytes };
    let all = script_writes(freezes, reals);
    let before = script_writes(freezes.drop_last(), reals);
    if i == freezes.len() - 1 {
        assert(all[before.len() as int] == w);
    } else {
        lemma_script_writes(freezes.drop_last(), reals, i, bytes);
        let k = before.index_of(w);
        assert(all[k] == w);
    }
}

/// Nothing is written but what scripts have frozen.
pub proof fn only_script_freezes_are_written(
    freezes: Seq<ScriptFreeze>,
    reals: Seq<RealReading>,
    w: WriteView,
) -> (i: int)
    requires
        reals.len() >= freezes.len(),
        script_writes(freezes, reals).contains(w),
    ensures
        0 <= i < freezes.len(),
        freezes[i].addr == w.addr,
        pinned_bytes(freezes[i].vt, freezes[i].value@, reals[i]) == Some(w.bytes),
    decreases freezes.len(),
{
    let all = script_writes(freezes, reals);
    let before = script_writes(freezes.drop_last(), reals);
    let k = all.index_of(w);
    if k < before.len() {
        assert(before[k] == w);
        only_script_freezes_are_written(freezes.drop_last(), reals, w)
    } else {
        freezes.len() - 1
    }
}

/// What a script asks of the panels is shown where it asked: the memory and the code at
/// the address, the class under its identifier, each with its own tab in front.
pub proof fn asked_place_is_shown(
    pre: NemclassApp,
    post: NemclassApp,
    action: UiAction,
    file: Option<crate::app_table::TableFile>,
)
    requires
        action_applied(pre, post, action, file),
    ensures
        match action {
            UiAction::GotoMemory(addr) => {
                &&& post.memory_viewer.address == addr
                &&& hex_addr(post.memory_viewer.address_input@) == Some(addr as int)
                &&& post.pending_focus == Some(TabKind::Memory)
                &&& post.disassembly_panel == pre.disassembly_panel
            },
            UiAction::GotoDisasm(addr) => {
                &&& post.disassembly_panel.address == addr
                &&& post.disassembly_panel.pending_focus == Some(addr)
                &&& post.pending_focus == Some(TabKind::Disassembly)
                &&& post.memory_viewer == pre.memory_viewer
            },
            UiAction::SelectClass(id) => class_index(pre.project.classes@, id) is Some
                ==> post.selected_class == Some(id) && post.pending_focus == Some(TabKind::ClassView),
            _ => post.memory_viewer == pre.memory_viewer && post.disassembly_panel
                == pre.disassembly_panel,
        },
        post.project == pre.project,
{
    if let UiAction::GotoMemory(addr) = action {
        crate::address::printed_address_parses_back(addr as nat);
    }
}

/// Each hotkey that is down is told once under its own number, and no other is.
pub proof fn pressed_hotkeys_are_told(keys: Seq<HotkeyReg>, k: KeysDown, id: u32)
    ensures
        pressed_events(keys, k).contains(Effect::Emit(AppEvent::Hotkey { id })) <==> exists|j: int|
            0 <= j < keys.len() && (#[trigger] keys[j]).id == id && is_pressed(keys[j], k),
        pressed_events(keys, k).len() <= keys.len(),
    decreases keys.len(),
{
    let e = Effect::Emit(AppEvent::Hotkey { id });
    let all = pressed_events(keys, k);
    if keys.len() > 0 {
        let rest = keys.drop_last();
        let before = pressed_events(rest, k);
        pressed_hotkeys_are_told(rest, k, id);
        if all.contains(e) {
            let n = all.index_of(e);
            if n < before.len() {
                assert(before[n] == e);
                let j = choose|j: int|
                    0 <= j < rest.len() && (#[trigger] rest[j]).id == id && is_pressed(rest[j], k);
                assert(keys[j] == rest[j]);
            } else {
                assert(keys[keys.len() - 1].id == id);
            }
        }
        if exists|j: int|
            0 <= j < keys.len() && (#[trigger] keys[j]).id == id && is_pressed(keys[j], k) {
            let j = choose|j: int|
                0 <= j < keys.len() && (#[trigger] keys[j]).id == id && is_pressed(keys[j], k);
            if j < rest.len() {
                assert(rest[j] == keys[j]);
                let n = before.index_of(e);
                assert(all[n] == e);
            } else {
                assert(all[before.len() as int] == e);
            }
        }
    }
}

/// A hotkey is down only with just the modifiers that it was registered with.
pub proof fn hotkey_wants_its_modifiers(h: HotkeyReg, k: KeysDown)
    requires
        is_pressed(h, k),
    ensures
        h.ctrl == k.ctrl,
        h.shift == k.shift,
        h.alt == k.alt,
        exists|i: int| 0 <= i < k.keys@.len() && (#[trigger] k.keys@[i])@ == h.key@,
{
}

/// Something that is done at intervals is due once the interval has passed, and at
/// first.
pub proof fn due_after_the_interval(t: u64, now: u64, interval: u64)
    requires
        interval > 0,
    ensures
        is_due(Some(t), now, interval) <==> now >= t + interval,
        is_due(None, now, interval),
{
}

/// A paste without a selected row puts the copies behind the fields of the class that
/// is shown, in the order in which they were taken.
pub proof fn pasted_fields_stand_last(pre: NemclassApp, post: NemclassApp, id: u128, k: int)
    requires
        pasted(pre, post),
        pre.selection.anchor is None,
        pre.selected_class == Some(id),
        class_index(pre.project.classes@, id) is Some,
        0 <= k < pre.node_clipboard@.len(),
    ensures
        ({
            let i = class_index(pre.project.classes@, id)->0;
            let was = pre.project.classes@[i].children@;
            let now = post.project.classes@[i].children@;
            &&& now.len() == was.len() + pre.node_clipboard@.len()
            &&& forall|j: int| 0 <= j < was.len() ==> #[trigger] now[j] == was[j]
            &&& now[was.len() + k].tag@ == pre.node_clipboard@[k].tag@
            &&& now[was.len() + k].name@ == pre.node_clipboard@[k].name@
            &&& now[was.len() + k].comment@ == pre.node_clipboard@[k].comment@
        }),
{
    let i = class_index(pre.project.classes@, id)->0;
    let was = pre.project.classes@[i].children@;
    let now = post.project.classes@[i].children@;
    let nodes = choose|nodes: Seq<Node>|
        #[trigger] all_copied(pre.node_clipboard@, nodes, Some(pre.project.pointer_size)) && now
            == was + nodes;
    assert(copied(pre.node_clipboard@[k], nodes[k], Some(pre.project.pointer_size)));
}

/// A paste puts the copies right behind the selected row.
pub proof fn pasted_fields_follow_the_row(pre: NemclassApp, post: NemclassApp, at: usize, k: int)
    requires
        pasted(pre, post),
        crate::selection::place_of(pre.selection.anchor) matches Some(p) && p.1 == seq![at]
            && node_of(pre.project, p) is Some,
        0 <= k < pre.node_clipboard@.len(),
    ensures
        ({
            let p = crate::selection::place_of(pre.selection.anchor)->0;
            let i = class_index(pre.project.classes@, p.0)->0;
            let was = pre.project.classes@[i].children@;
            let now = post.project.classes@[i].children@;
            let n = pre.node_clipboard@.len();
            &&& now.len() == was.len() + n
            &&& forall|j: int| 0 <= j <= at ==> #[trigger] now[j] == was[j]
            &&& now[at + 1 + k].tag@ == pre.node_clipboard@[k].tag@
            &&& now[at + 1 + k].name@ == pre.node_clipboard@[k].name@
            &&& forall|j: int| at < j < was.len() ==> now[j + n] == #[trigger] was[j]
        }),
{
    let p = crate::selection::place_of(pre.selection.anchor)->0;
    let i = class_index(pre.project.classes@, p.0)->0;
    let was = pre.project.classes@[i].children@;
    let now = post.project.classes@[i].children@;
    assert(paste_place(pre) == Some((i, Some(p.1))));
    assert(p.1[0] == at);
    let nodes = choose|nodes: Seq<Node>|
        #[trigger] all_copied(pre.node_clipboard@, nodes, Some(pre.project.pointer_size))
            && crate::node_path::spliced_at(was, now, p.1, true, 0, nodes);
    assert(copied(pre.node_clipboard@[k], nodes[k], Some(pre.project.pointer_size)));
}

} // verus!

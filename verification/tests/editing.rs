//! Editing the fields of a class: the selection, the clipboard, undo and redo.
use nemclass_ui::app_edit::references_class;
use nemclass_ui::app_project::Startup;
use nemclass_ui::app_state::NemclassApp;
use nemclass_ui::class_actions::{KeyAction, NodeEditOp, NodeRef, PickerPurpose, ToolbarAction};
use nemclass_ui::enum_editor::EnumEdit;
use nemclass_ui::host_classes::NodeKind;
use nemclass_ui::model::{empty_class, plain_node, ClassNode, Node, Project, Shape};
use nemclass_ui::node_copy::copy_project;
use nemclass_ui::node_edit::{apply_edit, apply_edits, run_start, EditRefusal};
use nemclass_ui::node_path::{find_node, has_node, splice_nodes};

const ENTITY: u128 = 7;

const FRESH: u128 = 99;

fn int32(name: &str) -> Node {
    plain_node("Int32", name.to_string(), 4)
}

fn kind(tag: &str, size: usize) -> NodeKind {
    NodeKind {
        tag: tag.to_string(),
        memory_size: size,
        container: false,
        takes_target: tag == "Pointer",
        pointer_sized: tag == "Pointer",
        shape: Shape::Scalar,
    }
}

fn kinds() -> Vec<NodeKind> {
    vec![
        kind("Int32", 4),
        kind("Float", 4),
        kind("Hex32", 4),
        kind("Pointer", 8),
        kind("ClassInstance", 0),
    ]
}

fn entity(children: Vec<Node>) -> ClassNode {
    let mut class = empty_class(ENTITY, "Entity".to_string());
    class.children = children;
    class
}

fn app_with(project: Project) -> NemclassApp {
    let s = Startup {
        backend_names: vec!["linux".to_string()],
        selected_backend: "linux".to_string(),
        project: Project::new("empty".to_string()),
        project_dir: None,
        kernel_key: String::new(),
        interval: None,
        status: String::new(),
    };
    let mut app = NemclassApp::new(s, 0);
    app.replace_project(project, None);
    app.selected_class = Some(ENTITY);
    app
}

/// An application with one class of four `Int32` fields named a, b, c and d.
fn app_with_four_fields() -> NemclassApp {
    let mut project = Project::new("test".to_string());
    project.add_class(entity(vec![int32("a"), int32("b"), int32("c"), int32("d")]));
    app_with(project)
}

fn fields(app: &NemclassApp) -> &Vec<Node> {
    &app.project.classes[app.project.index_of(ENTITY).unwrap()].children
}

fn field_names(app: &NemclassApp) -> Vec<String> {
    fields(app).iter().map(|n| n.name.clone()).collect()
}

fn field_tags(app: &NemclassApp) -> Vec<String> {
    fields(app).iter().map(|n| n.tag.clone()).collect()
}

fn row(i: usize) -> NodeRef {
    NodeRef { owner: ENTITY, path: vec![i] }
}

fn select(app: &mut NemclassApp, indices: &[usize]) {
    app.selection.clear();
    for &i in indices {
        app.selection.toggle(row(i));
    }
}

fn selected(app: &NemclassApp) -> Vec<usize> {
    app.selection.rows.iter().map(|r| r.path[0]).collect()
}

fn flush(app: &mut NemclassApp) {
    app.flush_pending_node_edits(&kinds(), FRESH);
}

#[test]
fn resolve_parent_vec_mut_basic() {
    let children = vec![int32("a"), int32("b")];

    // The path [1] leads to the second field of the class.
    assert!(has_node(&children, &[1]));
    assert_eq!(find_node(&children, &[1]).unwrap().name, "b");

    // An empty path leads nowhere, and so does one behind the last field.
    assert!(!has_node(&children, &[]));
    assert!(find_node(&children, &[]).is_none());
    assert!(!has_node(&children, &[99]));
    assert!(find_node(&children, &[99]).is_none());
}

#[test]
fn change_type_preserves_name_comment() {
    let mut project = Project::new("Test".to_string());
    let mut n = int32("my_field");
    n.comment = "my_comment".to_string();
    project.add_class(entity(vec![n]));

    let op = NodeEditOp::ChangeType { owner: ENTITY, path: vec![0], new_tag: "Hex32".to_string() };
    assert!(apply_edit(&mut project, &op, &kinds(), FRESH).is_ok());

    let children = &project.classes[0].children;
    assert_eq!(children[0].tag, "Hex32");
    assert_eq!(children[0].name, "my_field");
    assert_eq!(children[0].comment, "my_comment");
}

#[test]
fn delete_range_clamps_to_the_end_of_the_class() {
    let mut project = Project::new("P".to_string());
    project.add_class(entity(vec![int32("f0"), int32("f1"), int32("f2")]));

    // 1024 fields from the second one on: only the last two go.
    let op = NodeEditOp::DeleteRange { owner: ENTITY, path: vec![1], count: 1024 };
    assert!(apply_edit(&mut project, &op, &kinds(), FRESH).is_ok());

    let children = &project.classes[0].children;
    assert_eq!(children.len(), 1);
    assert_eq!(children[0].name, "f0");
}

#[test]
fn changing_the_type_of_a_multi_row_selection_changes_every_row() {
    let mut app = app_with_four_fields();
    select(&mut app, &[0, 2, 3]);
    app.apply_to_selection("Float");
    flush(&mut app);
    assert_eq!(field_tags(&app), ["Float", "Int32", "Float", "Float"]);
    // The field is the same field: its name survives.
    assert_eq!(field_names(&app), ["a", "b", "c", "d"]);
}

#[test]
fn deleting_several_rows_removes_exactly_those_rows() {
    let mut app = app_with_four_fields();
    // From front to back this would go wrong: without the first field the third
    // is the second.
    select(&mut app, &[0, 2]);
    app.delete_selection();
    flush(&mut app);
    assert_eq!(field_names(&app), ["b", "d"]);
}

#[test]
fn a_multi_row_edit_undoes_as_one_step() {
    let mut app = app_with_four_fields();
    select(&mut app, &[0, 1, 2, 3]);
    app.apply_to_selection("Float");
    flush(&mut app);
    assert_eq!(field_tags(&app), ["Float"; 4]);

    app.undo();
    assert_eq!(field_tags(&app), ["Int32"; 4], "one undo restores all four, not one");
    app.redo();
    assert_eq!(field_tags(&app), ["Float"; 4]);
}

#[test]
fn deleting_a_whole_class_body_is_undoable() {
    let mut app = app_with_four_fields();
    let op = NodeEditOp::DeleteRange { owner: ENTITY, path: vec![0], count: 1024 };
    app.apply_node_edit(op, &kinds(), FRESH);
    assert!(field_names(&app).is_empty());
    app.undo();
    assert_eq!(field_names(&app), ["a", "b", "c", "d"]);
}

#[test]
fn copy_and_paste_duplicates_the_fields_after_the_anchor() {
    let mut app = app_with_four_fields();
    select(&mut app, &[0, 1]);
    app.copy_selection();
    // Pasted behind the anchor, which is the row that was clicked last.
    select(&mut app, &[3]);
    app.paste_clipboard();
    flush(&mut app);
    assert_eq!(field_names(&app), ["a", "b", "c", "d", "a", "b"]);
}

#[test]
fn cut_removes_the_originals_and_keeps_them_for_pasting() {
    let mut app = app_with_four_fields();
    select(&mut app, &[1]);
    app.cut_selection();
    flush(&mut app);
    assert_eq!(field_names(&app), ["a", "c", "d"]);
    select(&mut app, &[2]);
    app.paste_clipboard();
    flush(&mut app);
    assert_eq!(field_names(&app), ["a", "c", "d", "b"]);
}

#[test]
fn pasting_with_nothing_selected_appends_to_the_end_of_the_class() {
    let mut app = app_with_four_fields();
    select(&mut app, &[0]);
    app.copy_selection();
    app.selection.clear();
    app.paste_clipboard();
    flush(&mut app);
    assert_eq!(field_names(&app), ["a", "b", "c", "d", "a"]);
}

#[test]
fn extracting_a_contiguous_run_leaves_one_class_instance_behind() {
    let mut app = app_with_four_fields();
    select(&mut app, &[1, 2]);
    let op = NodeEditOp::ExtractClass {
        owner: ENTITY,
        paths: vec![vec![1], vec![2]],
        name: "Inner".to_string(),
    };
    app.apply_node_edit(op, &kinds(), FRESH);

    assert_eq!(field_names(&app), ["a", "inner", "d"]);
    assert_eq!(field_tags(&app), ["Int32", "ClassInstance", "Int32"]);

    let inner = app.project.classes.iter().find(|c| c.name == "Inner").expect("the new class exists");
    let names: Vec<&str> = inner.children.iter().map(|n| n.name.as_str()).collect();
    assert_eq!(names, ["b", "c"]);
    assert_eq!(inner.id, FRESH);
    assert_eq!(fields(&app)[1].instance, Some(FRESH));
}

#[test]
fn extracting_a_gapped_selection_is_refused_rather_than_silently_reordering() {
    let mut app = app_with_four_fields();
    let op = NodeEditOp::ExtractClass {
        owner: ENTITY,
        paths: vec![vec![0], vec![2]],
        name: "Inner".to_string(),
    };
    app.apply_node_edit(op, &kinds(), FRESH);
    assert_eq!(field_names(&app), ["a", "b", "c", "d"], "the class is untouched");
    assert!(
        app.last_error.as_deref().is_some_and(|e| e.contains("contiguous")),
        "the refusal is explained: {:?}",
        app.last_error
    );
    assert!(!app.project_dirty);
    assert!(!app.history.can_undo());
}

#[test]
fn hiding_a_field_is_a_model_change_that_survives_a_save() {
    let mut app = app_with_four_fields();
    select(&mut app, &[1]);
    app.set_selection_hidden(true);
    flush(&mut app);
    assert!(fields(&app)[1].hidden);
    assert!(app.project_dirty);

    let again = copy_project(&app.project, None);
    assert!(again.classes[0].children[1].hidden);
    assert!(!again.classes[0].children[0].hidden);
}

#[test]
fn an_edit_marks_the_project_dirty_and_a_save_clears_it() {
    let mut app = app_with_four_fields();
    assert!(!app.project_dirty, "a freshly loaded project is clean");
    let op = NodeEditOp::SetName { owner: ENTITY, path: vec![0], name: "renamed".to_string() };
    app.apply_node_edit(op, &kinds(), FRESH);
    assert!(app.project_dirty);

    app.project_dir = Some("/p".to_string());
    app.project_saved("/p", Ok(()));
    assert!(!app.project_dirty, "saving clears the marker");
}

#[test]
fn a_type_change_carries_the_projects_pointer_width_onto_the_new_node() {
    let mut app = app_with_four_fields();
    app.set_pointer_size(4);
    select(&mut app, &[0]);
    app.apply_to_selection("Pointer");
    flush(&mut app);
    // The kind says eight bytes; the project says four.
    assert_eq!(fields(&app)[0].memory_size, 4);
}

#[test]
fn pasted_nodes_also_take_the_projects_pointer_width() {
    let mut project = Project::new("test".to_string());
    project.add_class(entity(vec![plain_node("Float", "f".to_string(), 4)]));
    project.pointer_size = 4;
    let mut app = app_with(project);

    let op = NodeEditOp::ChangeType { owner: ENTITY, path: vec![0], new_tag: "Pointer".to_string() };
    app.apply_node_edit(op, &kinds(), FRESH);
    select(&mut app, &[0]);
    app.copy_selection();
    app.paste_clipboard();
    flush(&mut app);

    let sizes: Vec<usize> = fields(&app).iter().map(|n| n.memory_size).collect();
    assert_eq!(sizes, [4, 4]);
}

#[test]
fn the_pointer_width_is_four_or_eight() {
    let mut app = app_with_four_fields();
    select(&mut app, &[3]);
    app.apply_to_selection("Pointer");
    flush(&mut app);
    assert_eq!(app.project.size_of(ENTITY), 20);
    app.set_pointer_size(4);
    assert_eq!(app.project.size_of(ENTITY), 16);
    app.set_pointer_size(5);
    assert_eq!(app.project.pointer_size, 4);
    assert_eq!(app.last_error.as_deref(), Some("A pointer has four or eight bytes."));
    app.undo();
    assert_eq!(app.project.pointer_size, 8);
    assert_eq!(app.project.size_of(ENTITY), 20);
}

#[test]
fn a_click_selects() {
    let order: Vec<NodeRef> = (0..4).map(row).collect();
    let mut app = app_with_four_fields();
    app.row_clicked(row(1), false, false, &order);
    assert_eq!(selected(&app), [1]);
    app.row_clicked(row(3), true, false, &order);
    assert_eq!(selected(&app), [1, 2, 3]);
    app.row_clicked(row(2), false, true, &order);
    assert_eq!(selected(&app), [1, 3]);
    app.row_clicked(row(0), false, true, &order);
    app.row_clicked(row(0), false, true, &order);
    assert_eq!(selected(&app), [1, 3], "a row that was added and dropped again is gone");
    app.row_menu_opened(row(3));
    assert_eq!(selected(&app), [1, 3], "a menu on a selected row is about all of them");
    app.row_menu_opened(row(0));
    assert_eq!(selected(&app), [0]);
    app.row_clicked(row(0), false, false, &order);
    assert!(app.selection.is_empty(), "a click on the only selected row clears");
}

#[test]
fn keys_move_the_selection() {
    let order: Vec<NodeRef> = (0..3).map(row).collect();
    let mut app = app_with_four_fields();
    app.run_key(KeyAction::Step { up: false, extend: false }, &order);
    assert_eq!(selected(&app), [0]);
    app.run_key(KeyAction::Step { up: false, extend: true }, &order);
    assert_eq!(selected(&app), [0, 1]);
    app.run_key(KeyAction::Step { up: true, extend: false }, &order);
    assert_eq!(selected(&app), [0]);
    app.run_key(KeyAction::Step { up: true, extend: false }, &order);
    assert_eq!(selected(&app), [0], "there is no row above the first");
    app.run_key(KeyAction::Toolbar(ToolbarAction::SelectAll), &order);
    assert_eq!(selected(&app), [0, 1, 2]);
    app.selection.retain_visible(&vec![row(1)]);
    assert_eq!(selected(&app), [1]);
    app.run_key(KeyAction::ClearSelection, &order);
    assert!(app.selection.is_empty());
    assert!(app.selection.anchor().is_none());
}

#[test]
fn the_toolbar_does_what_its_buttons_say() {
    let order: Vec<NodeRef> = (0..4).map(row).collect();
    let mut app = app_with_four_fields();
    assert!(app.run_toolbar(ToolbarAction::ExtractClass, &order).is_none());
    select(&mut app, &[2, 1]);
    let dialog = app.run_toolbar(ToolbarAction::ExtractClass, &order).unwrap();
    assert_eq!(dialog.name, "NewClass");
    assert_eq!(dialog.paths, vec![vec![2], vec![1]]);
    app.extract_confirmed(dialog, &kinds(), FRESH);
    assert_eq!(field_names(&app), ["a", "newclass", "d"]);
    assert!(app.selection.is_empty());

    app.run_toolbar(ToolbarAction::Undo, &order);
    assert_eq!(field_names(&app), ["a", "b", "c", "d"]);
    assert_eq!(app.project.classes.len(), 1);
    app.run_toolbar(ToolbarAction::Redo, &order);
    assert_eq!(field_names(&app), ["a", "newclass", "d"]);
    app.run_toolbar(ToolbarAction::Undo, &order);

    select(&mut app, &[3]);
    app.run_toolbar(ToolbarAction::Hide, &order);
    flush(&mut app);
    assert!(fields(&app)[3].hidden);
    app.run_toolbar(ToolbarAction::Unhide, &order);
    flush(&mut app);
    assert!(!fields(&app)[3].hidden);
    app.run_toolbar(ToolbarAction::Copy, &order);
    app.run_toolbar(ToolbarAction::Paste, &order);
    assert_eq!(field_names(&app), ["a", "b", "c", "d", "d"]);
    select(&mut app, &[0]);
    app.run_toolbar(ToolbarAction::Cut, &order);
    flush(&mut app);
    select(&mut app, &[3]);
    app.run_toolbar(ToolbarAction::DeleteSelection, &order);
    flush(&mut app);
    assert_eq!(field_names(&app), ["b", "c", "d"]);
    assert_eq!(app.node_clipboard[0].name, "a");
}

#[test]
fn a_class_cannot_hold_itself() {
    let mut inner = empty_class(8, "Inner".to_string());
    let mut back = plain_node("Pointer", "back".to_string(), 8);
    back.takes_target = true;
    back.pointer_target = Some(ENTITY);
    inner.children.push(back);
    let mut app = app_with_four_fields();
    app.project.add_class(inner);
    app.project.add_class(empty_class(9, "Other".to_string()));
    assert!(references_class(&app.project, 8, ENTITY));
    assert!(!references_class(&app.project, ENTITY, 8));
    assert!(!references_class(&app.project, 5, ENTITY));

    app.class_chosen(PickerPurpose::SetInstance { owner: ENTITY, path: vec![0] }, ENTITY);
    assert_eq!(app.status_msg.as_deref(), Some("Cannot select: would create a class cycle."));
    app.status_msg = None;
    app.class_chosen(PickerPurpose::SetInstance { owner: ENTITY, path: vec![0] }, 8);
    assert_eq!(app.status_msg.as_deref(), Some("Cannot select: would create a class cycle."));
    assert!(app.pending_node_edits.is_empty());

    app.class_chosen(PickerPurpose::ChangeToInstance { owner: ENTITY, path: vec![0] }, 9);
    flush(&mut app);
    assert_eq!(fields(&app)[0].tag, "ClassInstance");
    assert_eq!(fields(&app)[0].instance, Some(9));
    assert_eq!(fields(&app)[0].name, "a");
}

#[test]
fn refused_edits_say_why() {
    let mut project = Project::new("P".to_string());
    project.add_class(entity(vec![int32("a"), int32("b"), int32("c")]));
    let rename = |i: usize| NodeEditOp::SetName { owner: ENTITY, path: vec![i], name: "n".to_string() };
    let type_of = |tag: &str| NodeEditOp::ChangeType {
        owner: ENTITY,
        path: vec![0],
        new_tag: tag.to_string(),
    };
    let target = NodeEditOp::SetPtrTarget { owner: ENTITY, path: vec![0], target: Some(1) };
    let refused = |p: &mut Project, op: &NodeEditOp| apply_edit(p, op, &kinds(), FRESH).unwrap_err();
    assert!(matches!(refused(&mut project, &rename(3)), EditRefusal::NoRow));
    assert!(matches!(refused(&mut project, &type_of("Nothing")), EditRefusal::NoType));
    assert!(matches!(refused(&mut project, &target), EditRefusal::NoTarget));
    assert!(run_start(&vec![vec![0], vec![2]]).is_none());
    assert_eq!(run_start(&vec![vec![2], vec![1]]), Some(vec![1]));

    // Those before and behind a refused one are made.
    let out = apply_edits(&mut project, &vec![rename(0), rename(9), rename(2)], &kinds(), FRESH);
    assert!(out.changed);
    assert!(matches!(out.refused, Some(EditRefusal::NoRow)));
    let names: Vec<&str> = project.classes[0].children.iter().map(|n| n.name.as_str()).collect();
    assert_eq!(names, ["n", "b", "n"]);
}

#[test]
fn bytes_are_added_and_inserted() {
    let mut app = app_with_four_fields();
    let at = |op: NodeEditOp, app: &mut NemclassApp| app.apply_node_edit(op, &kinds(), FRESH);
    at(NodeEditOp::InsertBytes { owner: ENTITY, path: vec![1], count: 8 }, &mut app);
    assert_eq!(app.project.size_of(ENTITY), 24);
    assert_eq!(fields(&app)[0].name, "a");
    assert_eq!(fields(&app).last().unwrap().name, "d");
    at(NodeEditOp::AppendBytes { owner: ENTITY, count: 16 }, &mut app);
    assert_eq!(app.project.size_of(ENTITY), 40);
    assert_ne!(fields(&app).last().unwrap().name, "d");
    at(NodeEditOp::AddBytes { owner: ENTITY, path: vec![0], count: 4 }, &mut app);
    assert_eq!(app.project.size_of(ENTITY), 44);
    assert_eq!(fields(&app)[0].name, "a");
    app.undo();
    app.undo();
    app.undo();
    assert_eq!(field_names(&app), ["a", "b", "c", "d"]);
}

#[test]
fn a_splice_replaces_a_run() {
    let mut children = vec![int32("a"), int32("b"), int32("c")];
    let out = splice_nodes(&mut children, &[0], false, 2, vec![int32("x")]).unwrap();
    assert_eq!(out.len(), 2);
    assert_eq!(out[0].name, "a");
    let names: Vec<&str> = children.iter().map(|n| n.name.as_str()).collect();
    assert_eq!(names, ["x", "c"]);
    assert!(splice_nodes(&mut children, &[5], true, 0, vec![int32("y")]).is_none());
}

#[test]
fn a_new_change_cannot_be_redone_over() {
    let mut app = app_with_four_fields();
    let rename = |n: &str| NodeEditOp::SetName { owner: ENTITY, path: vec![0], name: n.to_string() };
    app.apply_node_edit(rename("x"), &kinds(), FRESH);
    app.undo();
    assert!(app.history.can_redo());
    app.apply_node_edit(rename("y"), &kinds(), FRESH);
    assert!(!app.history.can_redo());
    app.redo();
    assert_eq!(field_names(&app)[0], "y");
    app.record_undo();
    app.undo();
    assert_eq!(field_names(&app)[0], "y");
    app.undo();
    assert_eq!(field_names(&app)[0], "a");
    app.undo();
    assert_eq!(field_names(&app)[0], "a");
}

#[test]
fn a_written_value_clears_the_error() {
    let mut app = app_with_four_fields();
    app.last_snapshot = Some(5);
    app.value_write_done(Err("short write".to_string()));
    assert_eq!(app.last_error.as_deref(), Some("Write: short write"));
    assert_eq!(app.last_snapshot, Some(5));
    app.value_write_done(Ok(()));
    assert_eq!(app.last_error, None);
    assert_eq!(app.last_snapshot, None);
}

#[test]
fn enum_edits_can_be_undone() {
    let mut app = app_with_four_fields();
    app.edit_enum(EnumEdit::Remove { at: 0 });
    assert!(!app.project_dirty);
    assert!(!app.history.can_undo());
    app.edit_enum(EnumEdit::Add);
    assert!(app.project_dirty);
    assert_eq!(app.project.enums[0].name, "Enum0");
    app.edit_enum(EnumEdit::AddValue { at: 0 });
    assert_eq!(app.project.enums[0].values[0], ("Value0".to_string(), 0));
    app.undo();
    assert!(app.project.enums.is_empty(), "adding the enum was the last step");
}

//! Classes, their rows, and what the class view does with them.
use nemclass_ui::auto_dissect::{summary, summary_text};
use nemclass_ui::class_actions::{
    add_bytes_confirmed, add_bytes_op, address_label, class_banner, class_key_actions,
    class_picked, click_effect, code_label, component_address, delete_range_op, insert_bytes_op,
    interop_message, matrix_row_layout, menu_plural, method_label, offset_label, picker_lists,
    pointer_from_value, rename_confirmed, row_arrow, row_matches, search_rows, seed_text,
    selection_label, target_purpose, toggle_row, toolbar_enabled, type_label, value_cell,
    visible_order, write_outcome, AddBytesState, ClassKeys, ClickEffect, KeyAction, NodeEditOp,
    NodeRef, PickerPurpose, ToolbarAction, ValueCell,
};
use nemclass_ui::class_view::{
    build_augmented_rows, build_visible_rows, flatten_nodes, nul_position, pointer_value,
    read_float_components, snapshot_rows, string_pointer, Cursor, DerefBuf, FlattenInput, LiveEntry,
    LiveNode, NodeSnapshot, ViewRow, VtableMethodRow,
};
use nemclass_ui::disassembly::{FlowKind, Insn};
use nemclass_ui::edit_state::{
    begin_edit, begin_value_edit, commit_edit, component_refused, find_row, is_editing,
    text_edit_op, EditField,
};
use nemclass_ui::enum_editor::{edit_enums, EnumEdit};
use nemclass_ui::live_rows::{
    code_address, inline_rows, live_targets, mark_unattached, prune_live, store_live, LiveKind,
    VtableWalk,
};
use nemclass_ui::model::{
    empty_class, hex_fill, plain_node, ClassNode, EnumDescription, FloatWidth, Node, Project, Shape,
};
use nemclass_ui::node_menu::{menu_chosen, node_menu, MenuEffect, MenuEntry};
use nemclass_ui::node_path::{change_node, has_node, remove_node, NodeChange};
use nemclass_ui::rebuild::{ClassSource, Rebuild, RebuildStep};

fn int32(name: &str) -> Node {
    plain_node("Int32", name.to_string(), 4)
}

fn class(id: u128, name: &str, children: Vec<Node>) -> ClassNode {
    let mut c = empty_class(id, name.to_string());
    c.children = children;
    c
}

fn instance(name: &str, of: u128) -> Node {
    let mut n = plain_node("ClassInstance", name.to_string(), 0);
    n.instance = Some(of);
    n
}

fn pointer(name: &str, to: Option<u128>) -> Node {
    let mut n = plain_node("Pointer", name.to_string(), 8);
    n.pointer_target = to;
    n.takes_target = true;
    n
}

fn matrix(name: &str, rows: u8, cols: u8) -> Node {
    let mut n = plain_node("Matrix3x4", name.to_string(), rows as usize * cols as usize * 4);
    n.shape = Shape::Matrix { rows, cols, width: FloatWidth::F32 };
    n
}

/// The rows of a class with nothing collapsed or expanded.
fn rows_of(classes: &Vec<ClassNode>, id: u128, base: usize, buf: &Vec<u8>) -> Vec<NodeSnapshot> {
    let none: Vec<String> = Vec::new();
    let derefs: Vec<DerefBuf> = Vec::new();
    let input = FlattenInput { classes, collapsed: &none, expanded: &none, derefs: &derefs };
    snapshot_rows(&input, id, base, buf)
}

#[test]
fn hex_fill_greedy() {
    let nodes = hex_fill(8);
    assert_eq!(nodes.len(), 1);
    assert_eq!(nodes[0].tag, "Hex64");

    let nodes = hex_fill(13);
    assert_eq!(nodes.len(), 3);
    assert_eq!(nodes[0].tag, "Hex64");
    assert_eq!(nodes[1].tag, "Hex32");
    assert_eq!(nodes[2].tag, "Hex8");

    let nodes = hex_fill(3);
    assert_eq!(nodes.len(), 2);
    assert_eq!(nodes[0].tag, "Hex16");
    assert_eq!(nodes[1].tag, "Hex8");

    assert!(hex_fill(0).is_empty());

    let nodes = hex_fill(100);
    let sum: usize = nodes.iter().map(|n| n.memory_size).sum();
    assert_eq!(sum, 100);
}

#[test]
fn hex_fill_sums_to_gap_greedily() {
    for gap in [0usize, 1, 2, 4, 7, 8, 13, 32, 100] {
        let total: usize = hex_fill(gap).iter().map(|n| n.memory_size).sum();
        assert_eq!(total, gap, "hex_fill({gap}) must sum to {gap}");
    }
    assert_eq!(hex_fill(13).len(), 3);
}

#[test]
fn enums_round_trip_through_project() {
    let mut project = Project::new("t".to_string());
    let mut e = EnumDescription::new("Team".to_string());
    e.size = 2;
    e.use_flags = true;
    e.values = vec![("Red".to_string(), 0), ("Blue".to_string(), 1)];
    project.enums.push(e);
    let got = project.enums.iter().find(|x| x.name == "Team").unwrap();
    assert_eq!(got.size, 2);
    assert!(got.use_flags);
    assert_eq!(got.values, vec![("Red".to_string(), 0), ("Blue".to_string(), 1)]);
    if let Some(slot) = project.enums.iter_mut().find(|x| x.name == "Team") {
        slot.values = vec![("Green".to_string(), 2)];
    }
    assert_eq!(project.enums.iter().filter(|x| x.name == "Team").count(), 1);
    assert_eq!(project.enums[0].values, vec![("Green".to_string(), 2)]);
}

#[test]
fn flatten_nodes_inline_class_instance() {
    let (a_uuid, b_uuid) = (1u128, 2u128);
    let mut project = Project::new("Test".to_string());
    project.add_class(class(b_uuid, "B", vec![int32("x"), int32("y")]));
    project.add_class(class(a_uuid, "A", vec![instance("b_field", b_uuid), int32("after")]));

    let buf = vec![0u8; 64];
    let none: Vec<String> = Vec::new();
    let derefs: Vec<DerefBuf> = Vec::new();
    let no_path: Vec<usize> = Vec::new();
    let mut visited: Vec<u128> = Vec::new();
    let mut snapshots: Vec<NodeSnapshot> = Vec::new();
    let input = FlattenInput {
        classes: &project.classes,
        collapsed: &none,
        expanded: &none,
        derefs: &derefs,
    };
    let cursor = Cursor {
        base_addr: 0,
        depth: 0,
        parent_id: "",
        owner: a_uuid,
        parent_path: &no_path,
        budget: 8,
        buf: &buf,
        buffer: None,
    };
    flatten_nodes(&input, &project.classes[1].children, 0, &cursor, &mut visited, &mut snapshots);

    assert_eq!(snapshots.len(), 4, "expected 4 rows: instance + 2 B children + after");

    let ci = &snapshots[0];
    assert_eq!(ci.type_tag, "ClassInstance");
    assert_eq!(ci.offset, 0);
    assert_eq!(ci.owner_class, a_uuid);

    let x = &snapshots[1];
    assert_eq!(x.type_tag, "Int32");
    assert_eq!(x.name, "x");
    assert_eq!(x.offset, 0);
    assert_eq!(x.owner_class, b_uuid);

    let y = &snapshots[2];
    assert_eq!(y.type_tag, "Int32");
    assert_eq!(y.name, "y");
    assert_eq!(y.offset, 4);
    assert_eq!(y.owner_class, b_uuid);

    let after = &snapshots[3];
    assert_eq!(after.type_tag, "Int32");
    assert_eq!(after.name, "after");
    assert_eq!(after.offset, 8, "field after instance must sit at resolved_class_size(B) = 8");
    assert_eq!(after.owner_class, a_uuid);
}

#[test]
fn vector_snapshot_carries_its_components() {
    let mut buf = Vec::new();
    for v in [1.0f32, 2.0, 3.0] {
        buf.extend_from_slice(&v.to_ne_bytes());
    }
    let shape = Shape::Vector { count: 3, width: FloatWidth::F32 };
    let (components, width) = read_float_components(shape, &buf, 0);
    let values: Vec<f64> = components.iter().map(|b| f32::from_bits(*b as u32) as f64).collect();
    assert_eq!(values, vec![1.0, 2.0, 3.0]);
    assert_eq!(width, Some(FloatWidth::F32));
}

#[test]
fn short_buffer_yields_no_components() {
    let shape = Shape::Vector { count: 3, width: FloatWidth::F32 };
    let (components, width) = read_float_components(shape, &[0u8; 8], 0);
    assert!(components.is_empty());
    assert_eq!(width, Some(FloatWidth::F32));
}

#[test]
fn scalar_nodes_carry_no_components() {
    let node = int32("health");
    let (components, width) = read_float_components(node.shape, &[0u8; 8], 0);
    assert!(components.is_empty());
    assert_eq!(width, None);
}

#[test]
fn expanded_matrix_injects_one_row_per_matrix_row() {
    let uuid = 7u128;
    let classes = vec![class(uuid, "C", vec![matrix("view", 3, 4)])];
    let buf = vec![0u8; 48];
    let snapshots = rows_of(&classes, uuid, 0x1000, &buf);

    assert_eq!(snapshots.len(), 1);
    assert_eq!(snapshots[0].type_tag, "Matrix3x4");
    assert_eq!(snapshots[0].components.len(), 12);

    let rows = build_augmented_rows(&snapshots, &Vec::new(), &Vec::new());
    assert_eq!(rows.len(), 4);
    assert!(matches!(rows[0], ViewRow::Snap(0)));
    for (i, row) in rows[1..].iter().enumerate() {
        match row {
            ViewRow::MatrixRow { snap_idx, row } => {
                assert_eq!(*snap_idx, 0);
                assert_eq!(*row, i);
            }
            _ => panic!("expected a MatrixRow at index {}", i + 1),
        }
    }

    let collapsed = vec![snapshots[0].id_path.clone()];
    let rows = build_augmented_rows(&snapshots, &collapsed, &Vec::new());
    assert_eq!(rows.len(), 1);

    let second = matrix_row_layout(&snapshots[0], 1).unwrap();
    assert_eq!((second.first, second.cols), (4, 4));
    assert_eq!((second.address, second.offset), (0x1010, 0x10));
}

#[test]
fn a_class_that_embeds_itself_has_an_end() {
    let classes = vec![class(1, "Self", vec![int32("a"), instance("me", 1), int32("b")])];
    let p = Project { name: String::new(), classes, enums: Vec::new(), pointer_size: 8 };
    assert_eq!(p.size_of(1), 8);
    assert_eq!(p.size_of(9), 0);
    let rows = rows_of(&p.classes, 1, 0, &vec![0; 8]);
    assert!(rows.len() < 20);
}

#[test]
fn collapsed_rows_hide_what_is_below_them() {
    let classes = vec![
        class(1, "A", vec![instance("b", 2), int32("after")]),
        class(2, "B", vec![int32("x")]),
    ];
    let rows = rows_of(&classes, 1, 0x100, &vec![0; 8]);
    assert_eq!(build_visible_rows(&rows, &Vec::new()).len(), 3);
    let shown = build_visible_rows(&rows, &vec![rows[0].id_path.clone()]);
    let names: Vec<&str> = shown.iter().map(|i| rows[*i].name.as_str()).collect();
    assert_eq!(names, vec!["b", "after"]);
}

#[test]
fn expanded_pointers_are_read_until_none_is_left() {
    // A node of a linked list points at a second one, which points nowhere.
    let classes = vec![class(1, "Link", vec![int32("v"), pointer("next", Some(1))])];
    let mut memory = vec![0u8; 0x40];
    memory[0] = 1;
    memory[4..12].copy_from_slice(&0x1020u64.to_le_bytes());
    memory[0x20] = 2;
    let buf = memory[0..12].to_vec();
    let collapsed: Vec<String> = Vec::new();
    let expanded = vec!["1".to_string(), "1.1".to_string()];
    let source = ClassSource {
        classes: &classes,
        collapsed: &collapsed,
        expanded: &expanded,
        buf: &buf,
    };
    let mut r = Rebuild::begin(&source, 1, 0x1000, true);
    let mut reads = Vec::new();
    loop {
        match r.step(&source) {
            RebuildStep::Settled => break,
            RebuildStep::Pointer(a) => {
                reads.push(a);
                let at = a - 0x1000;
                r.pointer_read(&source, &memory[at..at + 8]);
            }
            RebuildStep::Target { addr, len } => {
                reads.push(addr);
                let at = addr - 0x1000;
                r.target_read(&source, memory[at..at + len].to_vec());
            }
        }
    }
    assert_eq!(reads, vec![0x1004, 0x1020, 0x1024]);
    assert!(r.rows.len() >= 4);
    assert_eq!(r.rows[2].address, 0x1020);
    assert_eq!(r.rows[2].name, "v");

    // Nothing is read behind pointers without a process.
    let r = Rebuild::begin(&source, 1, 0x1000, false);
    assert_eq!(r.step(&source), RebuildStep::Settled);
    assert_eq!(r.rows.len(), 2);
}

#[test]
fn string_pointers_show_their_text() {
    assert_eq!(string_pointer(0, &[]), "0x0 → (null)");
    assert_eq!(string_pointer(0xAB, b"hi\0rest"), "0xAB → \"hi\"");
    assert_eq!(string_pointer(0xAB, &[b'a', 0xFF, 0]), "0xAB → \"a\u{FFFD}\"");
    assert_eq!(nul_position(b"abc"), 3);
    assert_eq!(pointer_value(&[1, 0, 0]), 0);
    assert_eq!(pointer_value(&0x1234u64.to_le_bytes()), 0x1234);
}

#[test]
fn live_rows_come_and_go_with_their_row() {
    let mut v = plain_node("VTable", "vt".to_string(), 8);
    v.comment = "c".to_string();
    let classes = vec![class(
        1,
        "C",
        vec![v, plain_node("FunctionPtr", "f".to_string(), 8), int32("n")],
    )];
    let rows = rows_of(&classes, 1, 0x100, &vec![0; 20]);
    let mut cache: Vec<LiveNode> = Vec::new();
    mark_unattached(&mut cache, &rows, &Vec::new());
    assert_eq!(cache.len(), 2);
    let view = build_augmented_rows(&rows, &Vec::new(), &cache);
    assert!(matches!(view[1], ViewRow::NotAttached { depth: 0 }));

    let collapsed = vec![rows[0].id_path.clone()];
    let cache = prune_live(cache, &rows, &collapsed);
    assert_eq!(cache.len(), 1);
    assert_eq!(cache[0].id, rows[1].id_path);

    let mut cache = prune_live(cache, &Vec::new(), &Vec::new());
    assert!(cache.is_empty(), "the rows are gone");
    let targets = live_targets(&cache, &rows, &Vec::new());
    assert_eq!(targets.len(), 2);
    assert_eq!((targets[0].kind, targets[0].address), (LiveKind::Vtable, 0x100));
    assert_eq!((targets[1].kind, targets[1].address), (LiveKind::FunctionPtr, 0x108));
    store_live(&mut cache, LiveNode { id: "0".to_string(), entry: LiveEntry::Vtable(Vec::new()) });
    store_live(&mut cache, LiveNode { id: "0".to_string(), entry: LiveEntry::NotAttached });
    assert_eq!(cache.len(), 1);
    assert!(matches!(cache[0].entry, LiveEntry::Vtable(_)));
    assert_eq!(live_targets(&cache, &rows, &Vec::new()).len(), 1);
}

#[test]
fn a_virtual_table_ends_at_the_first_slot_without_code() {
    let mut w = VtableWalk::begin(Some(0x5000));
    assert_eq!(w.next_slot(), Some(0x5000));
    w.take_slot(Some(0x40_1000), true, Some("f".to_string()));
    assert_eq!(w.next_slot(), Some(0x5008));
    w.take_slot(Some(0x77), false, None);
    assert_eq!(w.next_slot(), None);
    assert_eq!(w.methods.len(), 1);
    assert_eq!((w.methods[0].slot, w.methods[0].fn_ptr), (0, 0x40_1000));

    assert_eq!(VtableWalk::begin(Some(0)).next_slot(), None);
    assert_eq!(VtableWalk::begin(None).next_slot(), None);
    let mut w = VtableWalk::begin(Some(0x10));
    while w.next_slot().is_some() {
        w.take_slot(Some(1), true, None);
    }
    assert_eq!(w.methods.len(), 64);
    let mut w = VtableWalk::begin(Some(u64::MAX - 7));
    assert!(w.next_slot().is_some());
    w.take_slot(Some(1), true, None);
    assert_eq!(w.next_slot(), None, "the address space ends here");
}

#[test]
fn functions_are_shown_inline() {
    assert_eq!(code_address(LiveKind::Function, 0x10, None), Some(0x10));
    assert_eq!(code_address(LiveKind::FunctionPtr, 0x10, Some(0x20)), Some(0x20));
    assert_eq!(code_address(LiveKind::FunctionPtr, 0x10, Some(0)), None);
    assert_eq!(code_address(LiveKind::FunctionPtr, 0x10, None), None);
    let insns: Vec<Insn> = (0..40)
        .map(|i| Insn {
            address: i,
            length: 2,
            data: vec![0xAB, 0x0C],
            instruction: format!("i{i}"),
            kind: FlowKind::Sequential,
            target: None,
            mem_target: None,
        })
        .collect();
    let rows = inline_rows(&insns);
    assert_eq!(rows.len(), 32);
    assert_eq!(rows[3].bytes_hex, "AB 0C");
    assert_eq!(rows[3].instruction, "i3");
}

#[test]
fn the_search_box_filters_rows() {
    let classes = vec![class(1, "C", vec![int32("Health"), int32("mana")])];
    let rows = rows_of(&classes, 1, 0, &vec![0; 8]);
    let view = build_augmented_rows(&rows, &Vec::new(), &Vec::new());
    let values = vec!["0".to_string(), "77".to_string()];
    let found = |s: &str| search_rows(&rows, &values, s, build_augmented_rows(&rows, &Vec::new(), &Vec::new()));
    assert_eq!(found(" HEAL "), vec![ViewRow::Snap(0)]);
    assert_eq!(found("77"), vec![ViewRow::Snap(1)]);
    assert_eq!(found("int"), view);
    assert_eq!(found("  "), view, "an empty search shows all");
    assert!(found("zzz").is_empty());
    assert!(row_matches("4", "", "", "", "", 4));
    let order = visible_order(&rows, &view);
    assert_eq!(order.len(), 2);
    assert_eq!((order[1].owner, order[1].path.clone()), (1, vec![1]));
}

#[test]
fn clicks_select() {
    assert_eq!(click_effect(true, false, 3, false), ClickEffect::Extend);
    assert_eq!(click_effect(false, true, 3, false), ClickEffect::Toggle);
    assert_eq!(click_effect(false, false, 1, true), ClickEffect::Clear);
    assert_eq!(click_effect(false, false, 2, true), ClickEffect::Single);
    assert_eq!(menu_plural(1), "");
    assert_eq!(menu_plural(3), " (3)");
    assert_eq!(selection_label(0, None), "click a field to select it");
    assert_eq!(selection_label(1, None), "→ (field)");
    assert_eq!(selection_label(4, None), "→ 4 fields");
}

#[test]
fn rows_open_and_close() {
    let classes = vec![
        class(1, "C", vec![pointer("p", Some(2)), instance("i", 2), int32("n")]),
        class(2, "B", vec![int32("x")]),
    ];
    let rows = rows_of(&classes, 1, 0, &vec![0; 16]);
    let (mut collapsed, mut expanded) = (Vec::new(), Vec::new());
    assert_eq!(row_arrow(&rows[0], &collapsed, &expanded), Some(false));
    toggle_row("Pointer", &rows[0].id_path, &mut collapsed, &mut expanded);
    assert_eq!(row_arrow(&rows[0], &collapsed, &expanded), Some(true));
    toggle_row("Pointer", &rows[0].id_path, &mut collapsed, &mut expanded);
    assert!(expanded.is_empty());
    assert_eq!(row_arrow(&rows[1], &collapsed, &expanded), Some(true));
    toggle_row("ClassInstance", &rows[1].id_path, &mut collapsed, &mut expanded);
    assert_eq!(row_arrow(&rows[1], &collapsed, &expanded), Some(false));
    assert_eq!(row_arrow(rows.last().unwrap(), &collapsed, &expanded), None);
    assert_eq!(value_cell(rows.last().unwrap(), true, false), ValueCell::Editable);
    assert_eq!(value_cell(rows.last().unwrap(), true, true), ValueCell::Editing);
    assert_eq!(value_cell(rows.last().unwrap(), false, false), ValueCell::Label);
}

#[test]
fn labels_of_rows() {
    assert_eq!(address_label(0xABC), "0x000000000ABC");
    assert_eq!(code_label(0xABC), "0x0000000000000ABC");
    assert_eq!(offset_label(0x1C), "+0x001C");
    assert_eq!(type_label("Int32", true), "Int32 (hidden)");
    assert_eq!(type_label("Int32", false), "Int32");
    let m = VtableMethodRow { slot: 2, fn_ptr: 1, symbol: Some("f".to_string()) };
    assert_eq!(method_label(&m), "[2] f");
    assert_eq!(component_address(0x1000, 3, FloatWidth::F64), 0x1018);
    assert_eq!(component_address(usize::MAX, 1, FloatWidth::F32), 3);
    assert_eq!(class_banner(true, true), None);
    assert!(class_banner(false, false).unwrap().starts_with("Not attached"));
    assert!(class_banner(true, false).unwrap().starts_with("No base address"));
}

#[test]
fn cells_are_edited() {
    assert_eq!(seed_text("0x1F"), "1F");
    assert_eq!(seed_text("31"), "31");
    assert_eq!(pointer_from_value("0x1F"), Some(0x1F));
    assert_eq!(pointer_from_value("31"), None);
    let e = begin_value_edit("0.1", "0xFF");
    assert_eq!(e.text, "FF");
    let mut state = Some(e);
    assert!(is_editing(&state, "0.1", EditField::Value));
    assert!(!is_editing(&state, "0.1", EditField::Name));
    let classes = vec![class(1, "C", vec![int32("n")])];
    let rows = rows_of(&classes, 1, 0x100, &vec![0; 4]);
    assert!(commit_edit(&mut state, true, &rows).is_none(), "the row is gone");
    assert!(state.is_none());
    let mut state = Some(begin_edit("0", " 7 ", EditField::Value));
    let w = commit_edit(&mut state, true, &rows).unwrap();
    assert_eq!((w.addr, w.tag.as_str(), w.text.as_str()), (0x100, "Int32", "7"));
    let mut state = Some(begin_edit("0", "7", EditField::Value));
    assert!(commit_edit(&mut state, false, &rows).is_none());
    assert_eq!(find_row(&rows, "0"), Some(0));
    let op = text_edit_op(begin_edit("0", "hp", EditField::Name), 1, vec![0]);
    assert!(matches!(op, Some(NodeEditOp::SetName { owner: 1, name, .. }) if name == "hp"));
    assert!(text_edit_op(begin_edit("0", "x", EditField::Value), 1, vec![0]).is_none());
    assert_eq!(component_refused(false, true, "1", FloatWidth::F32).as_deref(), Some("not attached"));
    assert_eq!(
        component_refused(true, false, "x", FloatWidth::F64).as_deref(),
        Some("'x' is not a valid f64")
    );
    assert_eq!(component_refused(true, true, "1", FloatWidth::F32), None);
    assert_eq!(write_outcome(Ok(4), 4, 0x10), Ok(()));
    assert_eq!(write_outcome(Ok(2), 4, 0x10), Err("short write: 2 of 4 bytes at 0x10".to_string()));
}

#[test]
fn the_toolbar_changes_fields() {
    let at = NodeRef { owner: 1, path: vec![2] };
    assert!(matches!(add_bytes_op(None, 9, 64), NodeEditOp::AppendBytes { owner: 9, count: 64 }));
    assert!(matches!(add_bytes_op(Some(&at), 9, 64), NodeEditOp::AddBytes { owner: 1, count: 64, .. }));
    assert!(insert_bytes_op(None, 4).is_none());
    assert!(matches!(delete_range_op(Some(&at), 4), Some(NodeEditOp::DeleteRange { count: 4, .. })));
    let dialog = |text: &str, insert| AddBytesState {
        owner: 1,
        path: vec![0],
        count_text: text.to_string(),
        insert,
    };
    assert!(matches!(
        add_bytes_confirmed(dialog(" 16 ", true)),
        Some(NodeEditOp::InsertBytes { count: 16, .. })
    ));
    assert!(add_bytes_confirmed(dialog("nope", false)).is_none());
    assert!(toolbar_enabled(ToolbarAction::SelectAll, false, false, false, false));
    assert!(!toolbar_enabled(ToolbarAction::Paste, true, true, true, false));
    assert!(toolbar_enabled(ToolbarAction::Copy, true, false, false, false));
}

#[test]
fn keys_go_to_the_text_box_first() {
    let none = ClassKeys {
        delete: false,
        up: false,
        down: false,
        shift: false,
        ctrl: false,
        copy: false,
        cut: false,
        paste: false,
        select_all: false,
        undo: false,
        redo: false,
        escape: false,
    };
    let k = ClassKeys { delete: true, undo: true, up: true, shift: true, ..none };
    assert_eq!(
        class_key_actions(&k, false, true),
        vec![
            KeyAction::Toolbar(ToolbarAction::Undo),
            KeyAction::Toolbar(ToolbarAction::DeleteSelection),
            KeyAction::Step { up: true, extend: true },
        ]
    );
    assert!(class_key_actions(&k, true, true).is_empty());
    assert!(class_key_actions(&k, false, false).is_empty());
    let k = ClassKeys { down: true, ctrl: true, ..none };
    assert!(class_key_actions(&k, false, true).is_empty(), "Ctrl and an arrow is no step");
}

#[test]
fn classes_are_picked() {
    let p = target_purpose("Pointer", 1, vec![0]).unwrap();
    assert!(matches!(
        class_picked(p, 2),
        NodeEditOp::SetPtrTarget { owner: 1, target: Some(2), .. }
    ));
    assert!(target_purpose("Int32", 1, vec![0]).is_none());
    let inside = PickerPurpose::ChangeToInstance { owner: 1, path: vec![0] };
    assert!(matches!(
        class_picked(inside, 2),
        NodeEditOp::SetInstance { owner: 1, target: 2, .. }
    ));
    assert!(picker_lists("ÄP", "äpfel"));
    assert!(!picker_lists("x", "äpfel"));
    assert_eq!(rename_confirmed("  New "), Some("New".to_string()));
    assert_eq!(rename_confirmed("   "), None);
}

#[test]
fn notes_are_told_up_to_a_point() {
    assert_eq!(interop_message("Import", &Vec::new()), None);
    let notes: Vec<String> = (0..10).map(|i| format!("n{i}")).collect();
    let m = interop_message("Import", &notes).unwrap();
    assert!(m.starts_with("Import was not lossless:\n  n0\n  n1"));
    assert!(m.ends_with("n7\n  …and 2 more"));
}

#[test]
fn enums_are_edited() {
    let mut enums: Vec<EnumDescription> = Vec::new();
    let out = edit_enums(&mut enums, EnumEdit::Add);
    assert!(out.changed && out.undoable);
    assert_eq!((enums[0].name.as_str(), enums[0].size), ("Enum0", 4));
    edit_enums(&mut enums, EnumEdit::AddValue { at: 0 });
    edit_enums(&mut enums, EnumEdit::AddValue { at: 0 });
    assert_eq!(enums[0].values[1], ("Value1".to_string(), 1));
    edit_enums(&mut enums, EnumEdit::SetValue { at: 0, value: 1, text: " -9 ".to_string() });
    assert_eq!(enums[0].values[1].1, -9);
    let out = edit_enums(&mut enums, EnumEdit::SetValue { at: 0, value: 1, text: "x".to_string() });
    assert!(!out.changed);
    assert_eq!(enums[0].values[1].1, -9, "a typo keeps the value");
    edit_enums(&mut enums, EnumEdit::Rename { at: 0, name: "Team".to_string() });
    edit_enums(&mut enums, EnumEdit::Width { at: 0, size: 2 });
    assert!(!edit_enums(&mut enums, EnumEdit::Width { at: 0, size: 3 }).changed);
    edit_enums(&mut enums, EnumEdit::Flags { at: 0, on: true });
    edit_enums(&mut enums, EnumEdit::RenameValue { at: 0, value: 0, name: "Red".to_string() });
    edit_enums(&mut enums, EnumEdit::RemoveValue { at: 0, value: 1 });
    assert_eq!((enums[0].name.as_str(), enums[0].size, enums[0].use_flags), ("Team", 2, true));
    assert_eq!(enums[0].values, vec![("Red".to_string(), 0)]);
    assert!(!edit_enums(&mut enums, EnumEdit::Remove { at: 4 }).changed);
    assert!(edit_enums(&mut enums, EnumEdit::Remove { at: 0 }).undoable);
    assert!(enums.is_empty());
}

#[test]
fn a_proposed_body_is_summed_up() {
    let nodes = vec![
        plain_node("Hex64", String::new(), 8),
        plain_node("Pointer", String::new(), 8),
        plain_node("Hex64", String::new(), 8),
        plain_node("Float", String::new(), 4),
    ];
    let counts = summary(&nodes);
    assert_eq!(summary_text(&counts), "2×Hex64, 1×Float, 1×Pointer");
    assert_eq!(summary_text(&summary(&Vec::new())), "");
}

#[test]
fn nodes_are_changed_in_place() {
    let mut outer = plain_node("Struct", "s".to_string(), 8);
    outer.container = true;
    outer.children = vec![int32("a"), int32("b")];
    let mut nodes = vec![int32("first"), outer];
    assert!(has_node(&nodes, &[1, 1]));
    assert!(!has_node(&nodes, &[1, 2]));
    assert!(change_node(&mut nodes, &[1, 1], NodeChange::Name("renamed".to_string())));
    assert_eq!(nodes[1].children[1].name, "renamed");
    assert_eq!(nodes[1].children[0].name, "a", "its neighbour stays");
    assert!(remove_node(&mut nodes, &[1, 0]));
    assert_eq!(nodes[1].children.len(), 1);
    assert!(!remove_node(&mut nodes, &[7]));
}

#[test]
fn a_row_has_a_menu() {
    let items = node_menu("Int32", "7", 1, false);
    assert_eq!(items.len(), 11);
    assert_eq!(items[0].label, "Change type ▸");
    assert_eq!(items[2].entry, MenuEntry::AddBytes, "a number has no target");
    assert_eq!(items[6].label, "Paste\tCtrl+V");
    assert!(!items[6].enabled, "there is nothing to paste");
    assert!(items[5].enabled);
    let items = node_menu("Pointer", "0x7F00", 3, true);
    assert_eq!(items.len(), 15);
    assert_eq!(items[0].label, "Change type (3) ▸");
    assert_eq!(items[2].label, "Set target class…");
    assert_eq!(items[5].label, "Copy (3)\tCtrl+C");
    assert_eq!(items[10].label, "Make class from selection (3)…");
    assert_eq!(items[12].entry, MenuEntry::Follow);
    assert!(items[12].enabled);
    let items = node_menu("Pointer", "0x0", 1, true);
    assert!(!items[12].enabled, "a null pointer leads nowhere");
    let items = node_menu("ClassInstance", "", 1, true);
    assert_eq!(items.len(), 12);
}

#[test]
fn menu_entries_do_what_they_say() {
    let chosen = |entry: MenuEntry, value: &str| menu_chosen(entry, "Pointer", value, 5, vec![1, 2]);
    assert!(matches!(chosen(MenuEntry::ChangeType, ""), MenuEffect::Types));
    assert!(matches!(
        chosen(MenuEntry::SetTarget, ""),
        MenuEffect::Pick(PickerPurpose::SetPtrTarget { owner: 5, .. })
    ));
    assert!(matches!(
        chosen(MenuEntry::ChangeToInstance, ""),
        MenuEffect::Pick(PickerPurpose::ChangeToInstance { owner: 5, .. })
    ));
    match chosen(MenuEntry::InsertBytes, "") {
        MenuEffect::Bytes(state) => {
            assert_eq!(state.path, vec![1, 2]);
            assert_eq!(state.count_text, "8");
            assert!(state.insert);
        }
        other => panic!("{other:?}"),
    }
    assert!(matches!(
        chosen(MenuEntry::Delete, ""),
        MenuEffect::Toolbar(ToolbarAction::DeleteSelection)
    ));
    assert!(matches!(chosen(MenuEntry::Follow, "0x10"), MenuEffect::Follow(0x10)));
    assert!(matches!(chosen(MenuEntry::Spider, "0x10"), MenuEffect::Spider(0x10)));
    assert!(matches!(chosen(MenuEntry::PointerScan, "0x0"), MenuEffect::Nothing));
    assert!(matches!(menu_chosen(MenuEntry::SetTarget, "Int32", "", 5, vec![0]), MenuEffect::Nothing));
}

//! The state of the application.
use nemclass_ui::app_class::{RemoveRefusal, SnapshotStep};
use nemclass_ui::app_project::{
    demo_project, dialog_start_dir, pick_backend, startup_status, DiscardChoice, DiscardStep,
    ExportError, Startup,
};
use nemclass_ui::app_scripts::{engine_status, is_script_extension, KeysDown};
use nemclass_ui::app_state::{AppEvent, Effect, NemclassApp, Opened, PendingDiscard};
use nemclass_ui::app_table::{table_address_exec, TableFile};
use nemclass_ui::cheat_table::{CheatEntry, CheatTablePanelAction};
use nemclass_ui::disassembly::DisasmAction;
use nemclass_ui::dock::TabKind;
use nemclass_ui::host_api::{HotkeyReg, LogKind, ScriptFreeze, UiAction};
use nemclass_ui::host_scan::{ScanCompare, ScanSession};
use nemclass_ui::model::{empty_class, plain_node, Node, Project};
use nemclass_ui::navigator::NavAction;
use nemclass_ui::process_reader::ModuleInfo;
use nemclass_ui::processes::{
    display_name, process_label, shown_processes, sort_processes, ProcessEntry,
};
use nemclass_ui::scalar::RealReading;
use nemclass_ui::scan_value::{ScanValueType, TypeTags};

fn start(project: Project, dir: Option<&str>) -> NemclassApp {
    let s = Startup {
        backend_names: vec!["linux".to_string()],
        selected_backend: "linux".to_string(),
        project,
        project_dir: dir.map(str::to_string),
        kernel_key: "aa".to_string(),
        interval: None,
        status: "hi".to_string(),
    };
    NemclassApp::new(s, 0)
}

fn app() -> NemclassApp {
    start(demo_project(1), None)
}

fn process(id: u32, name: &str) -> ProcessEntry {
    ProcessEntry { id, name: name.to_string() }
}

fn opened() -> Opened {
    let modules = vec![ModuleInfo { base: 0x1000, size: 0x100, name: "m".to_string() }];
    Opened { modules: Ok(modules), index: Ok(()) }
}

fn attached() -> NemclassApp {
    let mut a = app();
    a.ingest_enumerate("linux", Ok(vec![process(42, "game")]));
    a.selected_process_idx = Some(0);
    let r = a.do_attach(false, true).unwrap();
    a.ingest_attach(r, Ok(opened()));
    a.take_effects();
    a
}

fn reading(t: &str) -> RealReading {
    RealReading {
        single: t.parse::<f32>().map(f32::to_bits).map_err(|e| e.to_string()),
        double: t.parse::<f64>().map(f64::to_bits).map_err(|e| e.to_string()),
    }
}

#[test]
fn the_demo_project_is_shown_first() {
    let a = app();
    assert_eq!(a.project.name, "Demo Project");
    assert_eq!(a.selected_class, Some(1));
    assert_eq!(a.project.classes[0].children.len(), 13);
    assert_eq!(a.project.size_of(1), 198);
    assert_eq!(a.title(), "Demo Project (unsaved)");
    assert!(a.outbox.is_empty());
    assert_eq!(a.debugger_panel.key_hex, "aa");
    assert_eq!(a.process_filter, "");
    assert_eq!(a.selected_process_idx, None);
    assert!(a.module_cache.is_empty() && a.generator_panel.output.is_none());
    assert_eq!(startup_status(None, None), "Demo project loaded. Use File > New or Open to load a project.");
    assert_eq!(startup_status(Some("x"), Some("k")), "Scripting: x");
    assert_eq!(startup_status(None, Some("k")), "Loaded kernel auth key from k.");
}

#[test]
fn scripts_are_loaded_before_they_are_told_of_the_project() {
    let mut a = start(demo_project(1), Some("/p"));
    let effects = a.take_effects();
    assert!(matches!(&effects[0], Effect::LoadScripts { dir } if dir == "/p"));
    assert!(matches!(&effects[1], Effect::Emit(AppEvent::ProjectLoaded { path }) if path == "/p"));
    assert!(a.take_effects().is_empty());
}

#[test]
fn the_last_backend_is_used_again() {
    let names = vec!["a".to_string(), "b".to_string()];
    assert_eq!(pick_backend(&names, Some("b")), "b");
    assert_eq!(pick_backend(&names, Some("c")), "a");
    assert_eq!(pick_backend(&Vec::new(), None), "");
    let recent = vec!["/r".to_string()];
    assert_eq!(dialog_start_dir(&Some("/p".to_string()), &recent, None), "/p");
    assert_eq!(dialog_start_dir(&None, &recent, None), "/r");
    assert_eq!(dialog_start_dir(&None, &Vec::new(), Some("/h")), "/h");
    assert_eq!(dialog_start_dir(&None, &Vec::new(), None), ".");
}

#[test]
fn processes_are_sorted_and_filtered() {
    let list = sort_processes(vec![process(9, "zsh"), process(7, "Bash"), process(3, "bash"), process(12, "a")]);
    let ids: Vec<u32> = list.iter().map(|p| p.id).collect();
    assert_eq!(ids, vec![12, 3, 7, 9]);
    assert_eq!(shown_processes(&list, "BASH"), vec![1, 2]);
    assert_eq!(shown_processes(&list, "12"), vec![0]);
    assert_eq!(shown_processes(&list, "").len(), 4);
    assert_eq!(process_label(&list[0]), "a   [pid 12]");
    assert_eq!(display_name("", 5), "pid:5");
}

#[test]
fn a_list_of_another_backend_is_dropped() {
    let mut a = app();
    assert!(!a.do_refresh(true, true));
    assert!(!a.do_refresh(false, false));
    assert_eq!(a.process_list_status, "Backend 'linux' not found.");
    assert!(a.do_refresh(false, true));
    a.ingest_enumerate("other", Ok(vec![process(1, "x")]));
    assert!(a.process_list.is_empty());
    a.ingest_enumerate("linux", Ok(vec![process(1, "x")]));
    assert_eq!(a.process_list_status, "1 processes");
    a.ingest_enumerate("linux", Err("denied".to_string()));
    assert_eq!(a.process_list_status, "Error: denied");
    assert!(a.process_list.is_empty());
}

#[test]
fn attaching_needs_a_selection_and_a_backend() {
    let mut a = app();
    assert!(a.do_attach(false, true).is_none());
    assert_eq!(a.last_error.as_deref(), Some("No process selected."));
    a.selected_process_idx = Some(3);
    assert!(a.do_attach(false, true).is_none());
    assert_eq!(a.last_error.as_deref(), Some("Selection out of range."));
    a.ingest_enumerate("linux", Ok(vec![process(42, "")]));
    a.selected_process_idx = Some(0);
    assert!(a.do_attach(false, false).is_none());
    assert_eq!(a.last_error.as_deref(), Some("Backend 'linux' not found."));
    assert!(a.do_attach(true, true).is_none());
    let r = a.do_attach(false, true).unwrap();
    assert_eq!(r.pid, 42);
    assert_eq!(a.status_msg.as_deref(), Some("Attaching to pid:42…"));
    a.ingest_attach(r, Err("denied".to_string()));
    assert_eq!(a.last_error.as_deref(), Some("Attach failed: denied"));
}

#[test]
fn a_detach_drops_the_attach_that_is_under_way() {
    let mut a = app();
    a.ingest_enumerate("linux", Ok(vec![process(42, "game")]));
    a.selected_process_idx = Some(0);
    let r = a.do_attach(false, true).unwrap();
    a.do_detach();
    a.ingest_attach(r, Ok(opened()));
    assert!(a.process.is_none());
    assert!(a.outbox.is_empty(), "nothing was attached, nothing is told");
}

#[test]
fn detaching_unbinds_every_panel() {
    let mut a = attached();
    assert_eq!(a.attached_name.as_deref(), Some("game"));
    assert_eq!(a.disassembly_panel.modules.len(), 1);
    a.script_scanner = Some(ScanSession { vt: ScanValueType::I32, hits: Vec::new() });
    a.cheat_table_panel.table.push(CheatEntry::new("e", "0x1", "i32"));
    a.cheat_table_panel.freeze_target_opened(42, true);
    a.class_base = Some(5);
    a.do_detach();
    assert!(a.process.is_none() && a.attached_name.is_none());
    assert!(a.disassembly_panel.modules.is_empty());
    assert!(a.script_scanner.is_none() && a.class_base.is_none());
    assert_eq!(a.cheat_table_panel.freeze_target_pid, None);
    assert_eq!(a.cheat_table_panel.table.entries.len(), 1);
    let e = a.take_effects();
    assert!(matches!(e[0], Effect::Emit(AppEvent::Detached)));
    assert!(matches!(e[1], Effect::UnbindWorkers));
}

#[test]
fn a_dead_process_is_detached() {
    let mut a = attached();
    assert_eq!(a.liveness_check(0), Some(42));
    assert_eq!(a.liveness_check(500), None, "not yet");
    assert_eq!(a.liveness_check(1000), Some(42));
    a.target_exited();
    assert_eq!(a.last_error.as_deref(), Some("game exited — detached."));
    assert!(a.process.is_none());
    assert_eq!(a.liveness_check(5000), None);
}

#[test]
fn a_sample_can_be_attached() {
    let mut a = app();
    let e = a.debug_attach_disasm("nope".to_string(), 5, None).unwrap_err();
    assert_eq!(e, "Backend 'nope' not found");
    let e = a.debug_attach_disasm("b".to_string(), 5, Some(Err("x".to_string()))).unwrap_err();
    assert_eq!(e, "open(5): x");
    assert!(a.debug_attach_disasm("b".to_string(), 5, Some(Ok(opened()))).is_ok());
    assert_eq!(a.attached_name.as_deref(), Some("pid:5"));
    assert_eq!(a.pending_focus, Some(TabKind::Disassembly));
    a.debug_goto_disasm(0x1000);
    assert_eq!(a.disassembly_panel.address, 0x1000);
}

#[test]
fn a_detached_class_shows_zeros() {
    let mut a = app();
    assert!(a.snapshot_due(0));
    assert!(matches!(a.take_snapshot(), SnapshotStep::Build));
    assert_eq!(a.mem_buf, vec![0u8; 198]);
    a.rows_built(Vec::new(), 10);
    assert!(!a.snapshot_due(50));
    assert!(a.snapshot_due(110));
    a.selected_class = None;
    assert!(!a.snapshot_due(1000));
    assert!(matches!(a.take_snapshot(), SnapshotStep::Idle));
}

#[test]
fn a_class_is_read_where_its_formula_leads() {
    let mut a = attached();
    assert!(matches!(a.take_snapshot(), SnapshotStep::Build), "no formula");
    a.project.classes[0].address_formula = " <game>+0x10 ".to_string();
    a.formula_edited();
    let SnapshotStep::Resolve(f) = a.take_snapshot() else { panic!("no formula") };
    assert_eq!(f, " <game>+0x10 ");
    let step = a.formula_resolved(1, None, Ok(0x5000));
    assert!(matches!(step, SnapshotStep::Read { addr: 0x5000, size: 198 }));
    a.class_read(0x5000, vec![0; 198], 0);
    assert_eq!(
        a.last_error.as_deref(),
        Some("Address 0x5000 is not readable — the class shows zeros, not data.")
    );
    assert!(matches!(a.formula_resolved(1, None, Err("bad".to_string())), SnapshotStep::Build));
    assert_eq!(a.last_error.as_deref(), Some("Formula: bad"));
    a.formula_resolved(1, Some("maps".to_string()), Ok(1));
    assert_eq!(a.last_error.as_deref(), Some("modules(): maps"));
}

#[test]
fn scripts_say_where_a_class_lies() {
    let mut a = attached();
    assert_eq!(a.resolve_query(), Some((42, 1)));
    a.ingest_resolve(9, Some(0x10));
    assert_eq!(a.class_base, None, "that class is not shown");
    a.ingest_resolve(1, Some(0x10));
    assert_eq!(a.class_base, Some(0x10));
    let line = a.script_log.last().unwrap();
    assert_eq!(line.kind, LogKind::Lifecycle);
    assert_eq!(
        line.text,
        "Resolved class 00000000-0000-0000-0000-000000000001 → 0x0000000000000010"
    );
    assert!(matches!(a.take_snapshot(), SnapshotStep::Read { addr: 0x10, .. }));
    a.ingest_resolve(1, None);
    assert_eq!(a.last_error.as_deref(), Some("No script resolver returned an address."));
}

#[test]
fn followed_pointers_place_their_class() {
    let mut a = attached();
    a.create_class(2, String::new(), "0x99".to_string());
    assert_eq!(a.project.classes[1].name, "Class1");
    a.select_class(1);
    a.follow_pointer(0x7000, Some(2));
    assert_eq!(a.selected_class, Some(2));
    assert!(matches!(a.take_snapshot(), SnapshotStep::Read { addr: 0x7000, size: 8 }));
    a.follow_pointer(0x8000, Some(77));
    assert_eq!(a.memory_viewer.address, 0x8000);
    assert_eq!(a.status_msg.as_deref(), Some("Pointer target 0x0000000000008000 (no class set)"));
    assert_eq!(a.pending_focus, Some(TabKind::Memory));
}

#[test]
fn classes_come_and_go() {
    let mut a = app();
    a.create_class(2, "P".to_string(), String::new());
    assert_eq!(a.selected_class, Some(2));
    assert!(a.project_dirty);
    assert_eq!(a.project.classes[1].children[0].name, "field_0");
    let mut inst = plain_node("ClassInstance", "i".to_string(), 0);
    inst.instance = Some(2);
    a.project.classes[0].children.push(inst);
    assert_eq!(a.remove_class(2), Err(RemoveRefusal::Mentioned));
    assert_eq!(a.remove_class(9), Err(RemoveRefusal::Missing));
    a.project.classes[0].children.pop();
    a.rename_class(2, "Q".to_string());
    assert_eq!(a.project.classes[1].name, "Q");
    assert_eq!(a.remove_class(2), Ok(()));
    assert_eq!(a.selected_class, Some(1));
    a.undo();
    assert_eq!(a.project.classes[1].name, "Q");
    a.undo();
    assert_eq!(a.project.classes[1].name, "P");
    a.add_class(3);
    assert_eq!(a.project.classes.len(), 3);
    assert_eq!(a.selected_class, Some(3));
    a.undo();
    assert_eq!(a.project.classes.len(), 2);
}

#[test]
fn addresses_become_fields() {
    let mut a = app();
    a.add_scan_result(0xBEEF);
    let n = a.project.classes[0].children.last().unwrap();
    assert_eq!((n.name.as_str(), n.comment.as_str()), ("scan_0xbeef", "Scanner result 0x000000000000BEEF"));
    assert!(a.apply_disasm_action(DisasmAction::AddAddressToClass(0x10)).is_none());
    let n = a.project.classes[0].children.last().unwrap();
    assert_eq!((n.name.as_str(), n.comment.as_str()), ("disasm_0x10", "From disassembler 0x0000000000000010"));
    a.apply_disasm_action(DisasmAction::SetClassAddress(0x20));
    assert_eq!(a.project.classes[0].address_formula, "0x20");
    assert_eq!(a.status_msg.as_deref(), Some("Set PlayerObject base to 0x20"));
    assert!(a.apply_disasm_action(DisasmAction::SetBreakpoint(0x30)).is_none(), "no debugger");
    assert_eq!(a.debugger_panel.bp_addr_text, "0x30");
    a.debugger_panel.attached = true;
    let bp = a.apply_disasm_action(DisasmAction::SetBreakpoint(0x30)).unwrap();
    assert_eq!(bp.addr, 0x30);
}

#[test]
fn a_proposed_body_replaces_the_fields() {
    let mut a = app();
    assert_eq!(a.dissect_request(), None);
    assert_eq!(a.last_error.as_deref(), Some("Auto-dissect: no process attached"));
    let mut a = attached();
    assert_eq!(a.dissect_request(), Some((1, 256)));
    a.dissected(1, Err("x".to_string()));
    assert_eq!(a.last_error.as_deref(), Some("Auto-dissect failed: x"));
    a.dissected(1, Ok(vec![plain_node("Hex64", String::new(), 8)]));
    assert_eq!(a.dissect_preview.as_ref().unwrap().summary[0].count, 1);
    a.accept_auto_dissect(None);
    assert_eq!(a.project.classes[0].children.len(), 1);
    assert_eq!(a.status_msg.as_deref(), Some("Auto-dissect applied."));
    assert!(a.dissect_preview.is_none());
    a.dissected(77, Ok(Vec::<Node>::new()));
    a.accept_auto_dissect(None);
    assert_eq!(a.last_error.as_deref(), Some("Auto-dissect accept: class no longer exists"));
    a.dissected(1, Ok(Vec::<Node>::new()));
    a.accept_auto_dissect(Some("bad".to_string()));
    assert_eq!(a.last_error.as_deref(), Some("Auto-dissect accept: bad"));
    a.selected_class = None;
    a.dissect_request();
    assert_eq!(a.last_error.as_deref(), Some("Auto-dissect: no class selected"));
}

#[test]
fn another_project_starts_clean() {
    let mut a = app();
    a.script_hotkeys.push(HotkeyReg { id: 4, ctrl: false, shift: false, alt: false, key: "F5".to_string() });
    a.script_freezes.push(ScriptFreeze { addr: 1, vt: ScanValueType::U8, value: "1".to_string() });
    a.next_hotkey_id = 5;
    a.project_dirty = true;
    let mut p = Project::new("Next".to_string());
    p.classes.push(empty_class(5, "C".to_string()));
    a.project_opened(Ok((p, "/next".to_string())));
    assert_eq!(a.status_msg.as_deref(), Some("Opened 'Next' from /next"));
    assert_eq!(a.selected_class, Some(5));
    assert!(a.script_hotkeys.is_empty() && a.script_freezes.is_empty());
    assert_eq!(a.next_hotkey_id, 1);
    assert!(!a.project_dirty && a.settings_dirty);
    let e = a.take_effects();
    assert!(matches!(e[0], Effect::Emit(AppEvent::ProjectLoaded { .. })));
    assert!(matches!(e[1], Effect::LoadScripts { .. }));
    a.project_opened(Err("no".to_string()));
    assert_eq!(a.last_error.as_deref(), Some("Open failed: no"));
    assert_eq!(a.title(), "Next — /next");
}

#[test]
fn a_save_clears_the_marker() {
    let mut a = app();
    a.create_class(2, String::new(), String::new());
    assert_eq!(a.title(), "• Demo Project (unsaved)");
    a.project_saved("/p", Err("full".to_string()));
    assert!(a.project_dirty);
    assert_eq!(a.last_error.as_deref(), Some("Save failed: full"));
    a.project_saved_as("/p".to_string(), Ok(()));
    assert!(!a.project_dirty);
    assert_eq!(a.title(), "Demo Project — /p");
    assert_eq!(a.last_error, None);
    a.project_saved("/p", Ok(()));
    assert_eq!(a.status_msg.as_deref(), Some("Saved to /p"));
    a.project_saved_as("/q".to_string(), Err("x".to_string()));
    assert_eq!(a.last_error.as_deref(), Some("Save As failed: x"));
    a.project_created(Project::new("N".to_string()), "/n".to_string(), Ok(()));
    assert_eq!(a.status_msg.as_deref(), Some("Created project 'N' at /n"));
    a.project_created(Project::new("N".to_string()), "/n".to_string(), Err("e".to_string()));
    assert_eq!(a.last_error.as_deref(), Some("New project failed: e"));
}

#[test]
fn imports_count_as_unsaved() {
    let mut a = app();
    let p = Project::new("x".to_string());
    a.project_imported("/f.rcnet", Some("f".to_string()), Ok((p, vec!["lost".to_string()])));
    assert_eq!(a.project.name, "f");
    assert!(a.project_dirty && a.project_dir.is_none());
    assert_eq!(a.status_msg.as_deref(), Some("Imported 0 class(es) from /f.rcnet"));
    assert_eq!(a.last_error.as_deref(), Some("Import was not lossless:\n  lost"));
    a.project_imported("/f", None, Err("e".to_string()));
    assert_eq!(a.last_error.as_deref(), Some("Import failed: e"));
    a.project_exported("/o", Ok(Vec::new()));
    assert_eq!(a.status_msg.as_deref(), Some("Exported to /o"));
    a.project_exported("/o", Err(ExportError::Write("full".to_string())));
    assert_eq!(a.last_error.as_deref(), Some("Could not write /o: full"));
    a.project_exported("/o", Err(ExportError::Format("e".to_string())));
    assert_eq!(a.last_error.as_deref(), Some("Export failed: e"));
}

#[test]
fn unsaved_changes_are_asked_about() {
    let mut a = app();
    assert!(a.ask_discard(PendingDiscard::New));
    a.project_dirty = true;
    assert!(!a.ask_discard(PendingDiscard::New));
    assert_eq!(a.choose_discard(DiscardChoice::Cancel), DiscardStep::Nothing);
    assert!(a.project_dirty && a.pending_discard.is_none());
    a.ask_discard(PendingDiscard::Open);
    assert_eq!(a.choose_discard(DiscardChoice::Save), DiscardStep::SaveFirst(PendingDiscard::Open));
    assert_eq!(a.discard_saved(PendingDiscard::Open), None, "the save was cancelled");
    a.project_saved("/p", Ok(()));
    assert_eq!(a.discard_saved(PendingDiscard::Open), Some(PendingDiscard::Open));
    a.project_dirty = true;
    a.ask_discard(PendingDiscard::New);
    assert_eq!(a.choose_discard(DiscardChoice::Discard), DiscardStep::Run(PendingDiscard::New));
    assert!(!a.project_dirty);
    assert_eq!(a.choose_discard(DiscardChoice::Discard), DiscardStep::Nothing);
}

#[test]
fn settings_are_saved_in_time() {
    let mut a = app();
    assert!(!a.settings_due(29_999));
    assert!(a.settings_due(30_000));
    a.settings_dirty = true;
    assert!(!a.settings_due(1999));
    assert!(a.settings_due(2000));
    a.settings_saved(Err("x".to_string()), 2000);
    assert_eq!(a.last_error.as_deref(), Some("Settings save failed: x"));
    assert!(!a.settings_dirty && !a.settings_due(4001));
}

#[test]
fn found_addresses_go_to_the_table() {
    let mut a = app();
    let key = table_address_exec(0xBEEF);
    assert_eq!(key, "0xBEEF");
    a.freeze_found(&key, "i32", "5".to_string());
    let e = &a.cheat_table_panel.table.entries[0];
    assert!(e.frozen && e.frozen_value == "5" && e.description == "0xBEEF");
    a.freeze_found(&key, "i32", "6".to_string());
    assert_eq!(a.cheat_table_panel.table.entries.len(), 1);
    assert!(!a.cheat_table_panel.table.entries[0].frozen);
    assert_eq!(a.cheat_table_panel.table.entries[0].frozen_value, "");
    a.add_found_entry("<m>+8", "u8");
    assert_eq!(a.cheat_table_panel.table.entries[1].address, "<m>+8");
    a.freeze_hotkey_done(true);
    assert_eq!(a.cheat_table_panel.status_msg.as_deref(), Some("All entries frozen (Ctrl+F to unfreeze)"));
    a.freeze_hotkey_done(false);
    assert_eq!(a.cheat_table_panel.status_msg.as_deref(), Some("All entries unfrozen"));
}

#[test]
fn tables_are_saved_with_the_project() {
    let mut a = app();
    assert!(a.apply_cheat_table_action(CheatTablePanelAction::Save("t".to_string())).is_none());
    assert_eq!(
        a.cheat_table_panel.status_msg.as_deref(),
        Some("No project directory — save or open a project first.")
    );
    assert!(a.apply_ui_action(UiAction::LoadTable("t".to_string())).is_none());
    a.project_dir = Some("/p".to_string());
    let f = a.apply_ui_action(UiAction::SaveTable("t".to_string()));
    assert!(matches!(f, Some(TableFile::Save { dir, name }) if dir == "/p" && name == "t"));
    let f = a.apply_cheat_table_action(CheatTablePanelAction::Load("t".to_string()));
    assert!(matches!(f, Some(TableFile::Load { .. })));
    a.table_saved(Ok("/p/tables/t.toml".to_string()));
    assert_eq!(a.cheat_table_panel.status_msg.as_deref(), Some("Saved /p/tables/t.toml"));
    a.table_saved(Err("x".to_string()));
    assert_eq!(a.cheat_table_panel.status_msg.as_deref(), Some("Save failed: x"));
    a.apply_cheat_table_action(CheatTablePanelAction::GotoAddr(0x44));
    assert_eq!(a.memory_viewer.address, 0x44);
}

#[test]
fn panels_are_brought_to_the_front() {
    let mut a = app();
    a.apply_ui_action(UiAction::GotoDisasm(0x10));
    assert_eq!((a.disassembly_panel.address, a.pending_focus), (0x10, Some(TabKind::Disassembly)));
    a.apply_ui_action(UiAction::GotoMemory(0x20));
    assert_eq!((a.memory_viewer.address, a.pending_focus), (0x20, Some(TabKind::Memory)));
    a.selected_class = None;
    a.apply_ui_action(UiAction::SelectClass(9));
    assert_eq!(a.selected_class, None);
    a.apply_ui_action(UiAction::SelectClass(1));
    assert_eq!((a.selected_class, a.pending_focus), (Some(1), Some(TabKind::ClassView)));
    assert!(!a.apply_nav_action(NavAction::RunDissect), "nothing is attached");
    assert!(attached().apply_nav_action(NavAction::RunDissect));
    assert!(!a.apply_nav_action(NavAction::GotoDisasm(0x30)));
    assert_eq!(a.disassembly_panel.address, 0x30);
}

#[test]
fn script_freezes_are_written_in_time() {
    let mut a = attached();
    assert!(a.tick_script_freezes(&Vec::new(), 0).is_none());
    a.script_freezes.push(ScriptFreeze { addr: 0x10, vt: ScanValueType::I16, value: "-2".to_string() });
    a.script_freezes.push(ScriptFreeze { addr: 0x20, vt: ScanValueType::I16, value: "x".to_string() });
    let reals = vec![reading("-2"), reading("x")];
    let (pid, w) = a.tick_script_freezes(&reals, 100).unwrap();
    assert_eq!((pid, w.len()), (42, 1));
    assert_eq!((w[0].addr, w[0].bytes.clone()), (0x10, vec![0xFE, 0xFF]));
    assert!(a.tick_script_freezes(&reals, 200).is_none());
    assert!(a.tick_script_freezes(&reals, 300).is_some());
}

#[test]
fn scripts_are_lent_the_project_and_give_it_back() {
    let mut a = attached();
    let tags = TypeTags { bytes: "b".to_string(), utf8: "u".to_string(), utf16: "w".to_string() };
    let mut h = a.lend(Vec::new(), tags, Vec::<ScanCompare>::new());
    assert_eq!(h.project.name, "Demo Project");
    assert!(a.process.is_none());
    h.ui_actions.push(UiAction::GotoMemory(1));
    let actions = a.take_back(h);
    assert_eq!(actions.len(), 1);
    assert_eq!(a.project.name, "Demo Project");
    assert_eq!(a.process.as_ref().unwrap().pid, 42);
    assert_eq!(a.cheat_table_panel.table.name, "default");
}

#[test]
fn scripts_are_told_of_time_and_keys() {
    let mut a = attached();
    a.tick_scripts(false, 0);
    assert!(a.outbox.is_empty());
    a.tick_scripts(true, 0);
    a.tick_scripts(true, 50);
    let e = a.take_effects();
    assert_eq!(e.len(), 1);
    assert!(matches!(e[0], Effect::Emit(AppEvent::Tick { pid: Some(42) })));
    assert!(a.watch_scripts(true, true, 0));
    assert!(!a.watch_scripts(true, true, 999));
    assert!(!a.watch_scripts(false, true, 5000));
    let key = |id, ctrl| HotkeyReg { id, ctrl, shift: false, alt: false, key: "F5".to_string() };
    a.script_hotkeys = vec![key(1, false), key(2, true), key(3, true)];
    let down = KeysDown { keys: vec!["F5".to_string()], ctrl: true, shift: false, alt: false };
    a.press_hotkeys(&down, true, true);
    assert!(a.outbox.is_empty(), "somebody types");
    a.press_hotkeys(&down, true, false);
    let ids: Vec<u32> = a
        .take_effects()
        .iter()
        .map(|e| match e {
            Effect::Emit(AppEvent::Hotkey { id }) => *id,
            other => panic!("{other:?}"),
        })
        .collect();
    assert_eq!(ids, vec![2, 3]);
}

#[test]
fn script_loads_are_logged() {
    let mut a = app();
    a.scripts_loaded("Loaded scripts from", "/p/src", Ok(()), false);
    assert!(a.script_log.is_empty());
    a.scripts_loaded("Loaded scripts from", "/p/src", Ok(()), true);
    assert_eq!(a.script_log[0].text, "Loaded scripts from /p/src");
    a.scripts_loaded("Loaded scripts from", "/p/src", Err("bad".to_string()), true);
    assert_eq!(a.script_log[1].text, "Loaded scripts from failed: bad");
    assert_eq!(a.script_log[1].kind, LogKind::Error);
    assert!(is_script_extension("JS") && is_script_extension("ts") && !is_script_extension("rs"));
    assert_eq!(engine_status(true, true), "");
    assert!(engine_status(false, true).starts_with("Engine not running"));
    assert!(engine_status(false, false).starts_with("Built without"));
}

#[test]
fn module_lists_are_kept_for_a_while() {
    let mut a = app();
    assert!(a.modules_stale(0));
    a.modules_listed(Vec::new(), 100);
    assert!(!a.modules_stale(1099));
    assert!(a.modules_stale(1100));
}

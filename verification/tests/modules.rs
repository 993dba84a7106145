//! The modules panel.
use nemclass_ui::modules_panel::ModulesPanel;
use nemclass_ui::process_reader::{module_at, ModuleInfo, ProcessReader};

fn module(name: &str, base: usize) -> ModuleInfo {
    ModuleInfo { base, size: 0x1000, name: name.to_owned() }
}

/// A panel in which the modules of the given names are ticked.
fn panel_selecting(names: &[&str]) -> ModulesPanel {
    let list: Vec<ModuleInfo> = names.iter().map(|n| module(n, 0)).collect();
    let mut p = ModulesPanel::new();
    p.on_attach(&list);
    p.select_visible(&list, true);
    p.refresh_names(&list);
    p
}

#[test]
fn empty_selection_is_no_filter() {
    let all = vec![module("game.so", 0x1000), module("libc.so.6", 0x2000)];
    let panel = ModulesPanel::new();

    let scoped = panel.scope(&all);
    assert_eq!(scoped.len(), 2);
    assert_eq!(panel.scope_hint(&scoped), None, "unscoped runs need no banner");
}

#[test]
fn selection_narrows_by_name_regardless_of_order() {
    let panel = panel_selecting(&["game.so"]);
    // Deliberately a different order and base set from the panel's own list.
    let readers_list = vec![
        module("libc.so.6", 0x9000),
        module("game.so", 0x1000),
        module("ld.so", 0x3000),
    ];

    let scoped = panel.scope(&readers_list);
    assert_eq!(scoped.len(), 1);
    assert_eq!(scoped[0].name, "game.so");
    assert_eq!(
        panel.scope_hint(&scoped).as_deref(),
        Some("Scoped to game.so (Modules tab)")
    );
}

#[test]
fn multiple_selected_modules_summarise_as_a_count() {
    let panel = panel_selecting(&["game.so", "libc.so.6"]);
    let all = vec![
        module("game.so", 0x1000),
        module("libc.so.6", 0x2000),
        module("ld.so", 0x3000),
    ];

    let scoped = panel.scope(&all);
    assert_eq!(scoped.len(), 2);
    assert_eq!(
        panel.scope_hint(&scoped).as_deref(),
        Some("Scoped to 2 modules (Modules tab)")
    );
}

#[test]
fn selection_matching_nothing_scopes_to_nothing_and_warns() {
    let panel = panel_selecting(&["game.so"]);
    let other_process = vec![module("libc.so.6", 0x2000)];

    let scoped = panel.scope(&other_process);
    assert!(scoped.is_empty());
    let hint = panel.scope_hint(&scoped).expect("an empty scope must be explained");
    assert!(hint.contains("none loaded in this process"), "{hint}");
}

#[test]
fn detach_clears_the_scope() {
    let mut panel = panel_selecting(&["game.so"]);
    panel.on_detach();

    let all = vec![module("libc.so.6", 0x2000)];
    assert_eq!(panel.scope(&all).len(), 1);
    assert_eq!(panel.scope_hint(&all), None);
}

#[test]
fn names_of_ticked_modules_are_held_once() {
    let panel = panel_selecting(&["a.so", "b.so", "a.so"]);
    assert_eq!(panel.selected_names, vec!["a.so".to_string(), "b.so".to_string()]);
    assert_eq!(panel.selected_indices(), vec![0, 1, 2]);
}

#[test]
fn ticks_follow_the_list_and_the_filter() {
    let list = vec![module("Game.exe", 0x1000), module("libc.so", 0x2000), module("libm.so", 0x3000)];
    let mut p = ModulesPanel::new();
    p.sync(&list);
    assert_eq!(p.selected, vec![false, false, false]);
    p.filter = "LIB".to_string();
    assert!(!p.is_visible(&list[0]));
    assert!(p.is_visible(&list[1]));
    assert!(!p.all_visible_selected(&list));
    p.select_visible(&list, true);
    assert!(p.all_visible_selected(&list));
    assert_eq!(p.selected_indices(), vec![1, 2]);
    p.set_selected(0, true);
    p.sync(&list[..2]);
    assert_eq!(p.selected, vec![true, true]);
    p.clear_selection();
    assert_eq!(p.selected_indices(), Vec::<usize>::new());
}

#[test]
fn modules_are_found_by_name_and_address() {
    let list = vec![module("Game.exe", 0x1000), module("game.EXE", 0x9000)];
    assert_eq!(module_at(&list, 0x9fff), Some(1));
    assert_eq!(module_at(&list, 0xa000), None);
    let reader = ProcessReader::new(list);
    assert_eq!(reader.resolve_module("GAME.exe"), Some(0x1000));
    assert_eq!(reader.resolve_module("libc"), None);
}

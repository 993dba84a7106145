//! The cheat table.
use nemclass_ui::cheat_table::{
    resolve_entry_addr, CheatEntry, CheatTable, CheatTablePanel, CheatTablePanelAction,
    EntryReading, RowEdit, TableLoadError,
};
use nemclass_ui::process_reader::ModuleInfo;
use nemclass_ui::scalar::RealReading;
use nemclass_ui::scan_value::{
    all_value_types, bytes_to_json_num, format_value_bytes, value_text_to_bytes, write_value_bytes,
    NumValue, ScanValueType, ScanValueType as T, TypeTags,
};

fn tags() -> TypeTags {
    TypeTags { bytes: "bytes".to_string(), utf8: "utf8".to_string(), utf16: "utf16".to_string() }
}

/// What a text says as a floating-point number.
fn reading(text: &str) -> RealReading {
    let t = text.trim();
    RealReading {
        single: t.parse::<f32>().map(f32::to_bits).map_err(|e| e.to_string()),
        double: t.parse::<f64>().map(f64::to_bits).map_err(|e| e.to_string()),
    }
}

fn to_bytes(vt: ScanValueType, text: &str) -> Option<Vec<u8>> {
    value_text_to_bytes(vt, text, &reading(text))
}

/// A panel with so many entries, none of them frozen.
fn panel_with_entries(n: usize) -> CheatTablePanel {
    let mut p = CheatTablePanel::new();
    for i in 0..n {
        p.table.push(CheatEntry::new(&format!("entry{i}"), "0x0", "i32"));
    }
    p
}

#[test]
fn toggle_freeze_all_freezes_when_any_unfrozen() {
    let mut p = panel_with_entries(3);
    p.table.entries[0].frozen = true;

    let now_frozen = p.toggle_freeze_all(&tags(), &Vec::new());

    assert!(now_frozen, "should report all-frozen");
    assert!(p.table.entries.iter().all(|e| e.frozen));
}

#[test]
fn toggle_freeze_all_unfreezes_when_all_frozen() {
    let mut p = panel_with_entries(3);
    for e in &mut p.table.entries {
        e.frozen = true;
    }

    let now_frozen = p.toggle_freeze_all(&tags(), &Vec::new());

    assert!(!now_frozen, "should report all-unfrozen");
    assert!(p.table.entries.iter().all(|e| !e.frozen));
}

#[test]
fn toggle_freeze_all_empty_table_is_noop() {
    let mut p = CheatTablePanel::new();
    let result = p.toggle_freeze_all(&tags(), &Vec::new());
    assert!(!result);
    assert!(p.table.entries.is_empty());
}

#[test]
fn toggle_freeze_all_round_trips() {
    let mut p = panel_with_entries(2);
    assert!(p.toggle_freeze_all(&tags(), &Vec::new()));
    assert!(!p.toggle_freeze_all(&tags(), &Vec::new()));
}

#[test]
fn toggle_freeze_all_sets_frozen_value_for_derived_freeze() {
    let mut p = panel_with_entries(2);
    assert!(p.toggle_freeze_all(&tags(), &Vec::new()));
    for e in &p.table.entries {
        assert!(e.frozen);
        assert!(!e.frozen_value.is_empty(), "frozen_value must be captured");
    }
}

#[test]
fn value_text_to_bytes_round_trips_types() {
    assert_eq!(to_bytes(T::I32, "1337"), Some(1337i32.to_le_bytes().to_vec()));
    assert_eq!(to_bytes(T::U8, "0xFF"), Some(vec![0xFF]));
    assert_eq!(to_bytes(T::U64, "0x1000"), Some(0x1000u64.to_le_bytes().to_vec()));
    assert_eq!(to_bytes(T::F32, "1.5"), Some(1.5f32.to_le_bytes().to_vec()));
    assert_eq!(to_bytes(T::I16, " -2 "), Some((-2i16).to_le_bytes().to_vec()));
    assert_eq!(to_bytes(T::I32, "not-a-number"), None);
    assert_eq!(to_bytes(T::Bytes, "41 42"), None);
}

fn entry(address: &str) -> CheatEntry {
    CheatEntry::new("e", address, "i32")
}

#[test]
fn a_hex_literal_resolves_without_a_process() {
    assert_eq!(resolve_entry_addr(&entry("0x1234"), None), Some(0x1234));
    assert_eq!(resolve_entry_addr(&entry("1234"), None), Some(0x1234));
}

#[test]
fn a_formula_needs_a_process_but_is_no_longer_dead() {
    const BASE: usize = 0x1_0000;
    let e = entry("[<game.exe> + 0x10] + 0x4");
    assert_eq!(resolve_entry_addr(&e, None), None, "no process to walk with");
    assert_eq!(resolve_entry_addr(&e, Some(BASE + 0x44)), Some(BASE + 0x44));
}

#[test]
fn nonsense_addresses_stay_unresolved() {
    assert_eq!(resolve_entry_addr(&entry("not an address"), None), None);
    assert_eq!(resolve_entry_addr(&entry(""), None), None);
}

#[test]
fn every_type_reads_its_bytes() {
    let shown = |b: &[u8], t: T| format_value_bytes(b, t, "2.25");
    assert_eq!(shown(&[0xFF], T::I8), "-1");
    assert_eq!(shown(&[0xFF], T::U8), "255");
    assert_eq!(shown(&(-2i16).to_le_bytes(), T::I16), "-2");
    assert_eq!(shown(&0xDEAD_BEEFu32.to_le_bytes(), T::U32), "3735928559");
    assert_eq!(shown(&(-5i64).to_le_bytes(), T::I64), "-5");
    assert_eq!(shown(&2.25f64.to_le_bytes(), T::F64), "2.25");
    assert_eq!(all_value_types().len(), 13);
}

#[test]
fn signed_numbers_read_back() {
    for n in [i64::MIN, -1, 0, 1, 77, i64::MAX] {
        let bytes = to_bytes(T::I64, &n.to_string()).unwrap();
        assert_eq!(bytes_to_json_num(T::I64, &bytes), NumValue::Signed(n));
        assert_eq!(format_value_bytes(&bytes, T::I64, ""), n.to_string());
    }
}

#[test]
fn a_text_that_writes_no_value_is_told() {
    assert_eq!(write_value_bytes(T::I32, "7", &reading("7")), Ok(Some(7i32.to_le_bytes().to_vec())));
    assert_eq!(write_value_bytes(T::U8, "257", &reading("257")), Ok(Some(vec![1])));
    assert!(write_value_bytes(T::U8, "x", &reading("x")).is_err());
    assert_eq!(tags().as_tag(T::StringUtf8), "utf8");
    assert_eq!(tags().from_tag("f64"), Some(T::F64));
    assert_eq!(tags().from_tag("f128"), None);
}

#[test]
fn frozen_values_are_captured_and_written() {
    let mut p = CheatTablePanel::new();
    p.table.push(CheatEntry::new("hp", "0x1000", "i32"));
    p.table.push(CheatEntry::new("mp", "0x2000", "u8"));
    let seen = vec![
        EntryReading { bytes: Some(100i32.to_le_bytes().to_vec()), real_text: String::new() },
        EntryReading { bytes: Some(vec![9]), real_text: String::new() },
    ];
    assert!(p.toggle_freeze_all(&tags(), &seen));
    assert_eq!(p.table.entries[0].frozen_value, "100");
    assert_eq!(p.table.entries[1].frozen_value, "9");

    let reals = vec![reading("100"), reading("9")];
    let writes = p.tick_freeze(&tags(), &vec![None, None], &reals, 50).unwrap();
    assert_eq!(writes.len(), 2);
    assert_eq!((writes[0].addr, writes[0].bytes.clone()), (0x1000, vec![100, 0, 0, 0]));
    assert_eq!((writes[1].addr, writes[1].bytes.clone()), (0x2000, vec![9]));
    assert!(p.tick_freeze(&tags(), &vec![None, None], &reals, 100).is_none(), "not due yet");
    assert!(p.tick_freeze(&tags(), &vec![None, None], &reals, 260).is_some());
}

#[test]
fn detaching_forgets_the_process_and_keeps_the_table() {
    let mut p = panel_with_entries(1);
    assert!(p.needs_freeze_target(7));
    p.freeze_target_opened(7, true);
    assert!(!p.needs_freeze_target(7));
    p.cached_modules(Some(vec![ModuleInfo { base: 1, size: 2, name: "m".to_string() }]), 10);
    p.on_detach();
    assert!(p.modules.is_empty());
    assert!(p.needs_freeze_target(7));
    assert_eq!(p.table.entries.len(), 1);
}

#[test]
fn rows_are_added_edited_and_removed() {
    let mut p = CheatTablePanel::new();
    p.add_row();
    p.edit_row(0, RowEdit::Address("0xBEEF".to_string()));
    p.edit_row(0, RowEdit::Description("d".to_string()));
    p.edit_row(9, RowEdit::Description("none".to_string()));
    assert_eq!(p.table.entries[0].address, "0xBEEF");
    assert!(matches!(p.goto_row(0), CheatTablePanelAction::GotoAddr(0xBEEF)));
    assert!(matches!(p.goto_row(5), CheatTablePanelAction::Nothing));
    p.table_mut().push(CheatEntry::new("x", "1", "u8"));
    p.remove_row(0);
    assert_eq!(p.table.entries.len(), 1);
    assert_eq!(p.table.entries[0].description, "x");
    p.table_loaded(Err(TableLoadError::Parse("nope".to_string())), false);
    assert_eq!(p.status_msg.as_deref(), Some("Parse error: nope"));
    p.table_loaded(Ok(CheatTable::new("t")), false);
    assert_eq!(p.table.name, "t");
    assert_eq!(p.status_msg.as_deref(), Some("Parse error: nope"));
    p.table_loaded(Err(TableLoadError::Parse("nope".to_string())), true);
    assert_eq!(p.status_msg.as_deref(), Some("Load error: nope"));
    let unread = || TableLoadError::Read { path: "/p/a.toml".to_string(), why: "gone".to_string() };
    p.table_loaded(Err(unread()), true);
    assert_eq!(p.status_msg.as_deref(), Some("Read /p/a.toml: gone"));
    p.table_loaded(Err(unread()), false);
    assert_eq!(p.status_msg.as_deref(), Some("Load failed: gone"));
    assert!(p.load_pressed(true));
    assert_eq!(p.status_msg.as_deref(), Some("Load failed: gone"));
    assert!(!p.load_pressed(false));
    assert_eq!(p.status_msg.as_deref(), Some("No project directory — save the project first."));
    p.table_loaded(Ok(CheatTable::new("u")), true);
    assert_eq!(p.table.name, "u");
    assert_eq!(p.status_msg, None);
}

#[test]
fn one_entry_is_frozen_to_what_it_shows() {
    let mut p = CheatTablePanel::new();
    assert!(p.freeze_due(0));
    p.set_table(panel_with_entries(2).table);
    let seen = vec![
        EntryReading { bytes: Some(7i32.to_le_bytes().to_vec()), real_text: String::new() },
        EntryReading { bytes: None, real_text: String::new() },
    ];
    p.refresh_live(&tags(), &seen);
    assert_eq!(p.live_values[0], "7");
    p.toggle_freeze(0);
    assert!(p.table.entries[0].frozen);
    assert_eq!(p.table.entries[0].frozen_value, "7");
    p.value_written(0, "8".to_string(), true);
    assert_eq!(p.table.entries[0].frozen_value, "8");
    p.value_written(0, "9".to_string(), false);
    assert_eq!(p.table.entries[0].frozen_value, "8");
    p.value_written(1, "9".to_string(), true);
    assert_eq!(p.table.entries[1].frozen_value, "", "it is not frozen");
    p.toggle_freeze(0);
    assert!(!p.table.entries[0].frozen);
    p.toggle_freeze(5);
    assert_eq!(p.table.entries.len(), 2);
}

#[test]
fn a_value_that_its_type_cannot_hold_is_not_pinned() {
    assert_eq!(to_bytes(T::U8, "255"), Some(vec![255]));
    assert_eq!(to_bytes(T::U8, "256"), None);
    assert_eq!(to_bytes(T::U16, "0xffff"), Some(vec![255, 255]));
    assert_eq!(to_bytes(T::U16, "0x10000"), None);
    assert_eq!(to_bytes(T::U32, "4294967296"), None);
    assert_eq!(to_bytes(T::U64, "18446744073709551615"), Some(vec![255; 8]));
    assert_eq!(to_bytes(T::U64, "18446744073709551616"), None);
    assert_eq!(to_bytes(T::I8, "128"), None);

    let mut p = CheatTablePanel::new();
    p.table.push(CheatEntry::new("hp", "0x1000", "u8"));
    p.table.entries[0].frozen = true;
    p.table.entries[0].frozen_value = "256".to_string();
    let writes = p.tick_freeze(&tags(), &vec![None], &vec![reading("256")], 0).unwrap();
    assert!(writes.is_empty());
}

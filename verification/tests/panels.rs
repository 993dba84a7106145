//! The memory viewer, the debugger, and the smaller panels.
use nemclass_ui::bytes::{from_le, from_le_signed, to_le, to_le_signed};
use nemclass_ui::debugger::{
    breakpoint_line, dropped_label, poll_goes_on, register_lines, thread_entry, watch_label, ActiveWatch, BpAsk, BpKind,
    BpSpec, DebugEvent, DebuggerPanel, EventRoute, HwType, Registers,
};
use nemclass_ui::dock::{default_layout, TabKind};
use nemclass_ui::generator::{
    extension_for, label_for, languages, output_summary, GeneratorPanel, Language, SaveOutcome,
};
use nemclass_ui::key_file::{kernel_key_path, read_kernel_key, KeyPath};
use nemclass_ui::memory_viewer::{
    cell_label, region_label, run_hint, AddrClass, CellTone, CellValue, DisplayType, MemoryViewer,
    PointerClass, StrKind, StringRun,
};

#[test]
fn back_returns_to_where_one_was() {
    let mut v = MemoryViewer::new();
    v.goto(0x1000);
    v.goto(0x2000);
    v.goto(0x2000);
    v.navigate_back();
    assert_eq!(v.address, 0x1000);
    assert_eq!(v.address_input, "0x0000000000001000");
    v.navigate_back();
    v.navigate_back();
    assert_eq!(v.address, 0);
    v.follow_link(0x40, false);
    assert!(!v.has_index);
    v.follow_link(0x50, true);
    assert!(v.has_index);
    v.follow_link(0x60, false);
    assert!(v.has_index, "the regions that were known stay");
    v.navigate_back();
    assert_eq!(v.address, 0x50);
}

#[test]
fn the_address_box_says_what_is_wrong() {
    let mut v = MemoryViewer::new();
    v.address_input = "0x30".to_string();
    v.try_parse_address();
    assert_eq!((v.address, v.address_error.clone()), (0x30, None));
    v.address_input = "nope".to_string();
    v.try_parse_address();
    assert!(v.address_error.is_some());
    assert_eq!(v.address, 0x30);
}

#[test]
fn changed_bytes_are_marked() {
    let mut v = MemoryViewer::new();
    assert!(v.snapshot_due(0));
    v.snapshot_taken(Ok(vec![1; 64]), 10);
    v.snapshot_taken(Ok(vec![1; 64]), 20);
    assert!(v.hex_row(0).iter().all(|c| c.tone == CellTone::Plain));
    let mut next = vec![1; 64];
    next[3] = 9;
    v.snapshot_taken(Ok(next), 30);
    let row = v.hex_row(0);
    assert_eq!(row[3].tone, CellTone::Changed);
    assert_eq!(cell_label(row[3].value, ""), "09");
    assert_eq!(row[2].tone, CellTone::Plain);
    v.display_type = DisplayType::Dword;
    let row = v.hex_row(0);
    assert_eq!(row[0].value, CellValue::Dword(0x0901_0101));
    assert_eq!(cell_label(CellValue::Single(0), "1.5"), "1.5");
    v.snapshot_taken(Err("gone".to_string()), 40);
    assert!(v.status_msg.is_some());
}

#[test]
fn pointers_are_links() {
    let mut v = MemoryViewer::new();
    v.display_type = DisplayType::Qword;
    v.on_attach(Ok(()));
    v.snapshot_taken(Ok(0x4000u64.to_le_bytes().repeat(512)), 0);
    let q = v.qwords_to_classify().unwrap();
    assert_eq!(q[0], 0x4000);
    v.set_qword_classes(Some(vec![PointerClass::CodePtr; q.len()]));
    let row = v.hex_row(0);
    assert_eq!((row[0].tone, row[0].link), (CellTone::CodeLink, Some(0x4000)));
    assert_eq!(v.row_address(1), format!("0x{:016X}", 16).replace("0X", "0x"));
    v.request_disassemble();
    assert_eq!(v.take_disassemble_request(), Some(0));
    assert_eq!(v.take_disassemble_request(), None);
    v.request_dissect();
    assert_eq!(v.take_dissect_request(), Some(0));
    v.on_detach();
    assert!(!v.has_index);
    v.on_attach(Err("maps".to_string()));
    assert_eq!(v.status_msg.as_deref(), Some("RegionIndex: maps"));
}

#[test]
fn regions_and_strings_are_labelled() {
    assert!(!region_label(&None).is_empty());
    assert_ne!(
        region_label(&Some(AddrClass::Unmapped)),
        region_label(&Some(AddrClass::Executable { module: Some("m".to_string()) }))
    );
    let r = StringRun { offset: 0, len_bytes: 4, kind: StrKind::Ascii, text: "abcd".to_string() };
    assert!(run_hint(&r).contains("abcd"));
    let mut v = MemoryViewer::new();
    v.snapshot_taken(Ok(b"abcd".to_vec()), 0);
    let chars: String = v.char_row(0).iter().take(4).map(|c| c.ch).collect();
    assert_eq!(chars, "abcd");
    assert_eq!(DisplayType::Qword.unit_size(), 8);
}

fn regs() -> Registers {
    Registers {
        rip: 0x1000,
        rsp: 1,
        rflags: 2,
        rax: 3,
        rbx: 4,
        rcx: 5,
        rdx: 6,
        rsi: 7,
        rdi: 8,
        rbp: 9,
        r8: 10,
        r9: 11,
        r10: 12,
        r11: 13,
        r12: 14,
        r13: 15,
        r14: 16,
        r15: 17,
    }
}

fn event(bp: u64) -> DebugEvent {
    DebugEvent {
        pid: 1,
        tid: 2,
        address: 0x1000,
        bp,
        bp_label: format!("#{bp}"),
        spec: Some(BpSpec::Uprobe { addr: 0x1000 }),
        registers: regs(),
    }
}

#[test]
fn the_event_log_stays_bounded() {
    let mut p = DebuggerPanel::new();
    for _ in 0..250 {
        assert_eq!(p.take_event(event(1)), EventRoute::Log);
    }
    assert_eq!(p.events.len(), 200);
    p.poll_failed("gone");
    assert_eq!(p.events.len(), 200);
    assert!(p.events.last().unwrap().display_line().contains("[poll error: gone]"));
    assert!(p.latest_regs.is_some());
    p.on_detach();
    assert!(p.events.is_empty());
}

#[test]
fn hits_of_the_watchpoint_are_tallied() {
    let mut p = DebuggerPanel::new();
    p.attach_done(Ok(()));
    let r = p.watch_address(0x4000, 8, true).unwrap();
    assert_eq!((r.addr, r.len), (0x4000, 8));
    p.watch_armed(r, Ok(5));
    assert_eq!(p.take_event(event(5)), EventRoute::Tally);
    assert!(p.events.is_empty());
    assert_eq!(p.stop_watch(), Some(5));
    assert_eq!(p.take_event(event(5)), EventRoute::Log);
    p.goto_site(0x77);
    assert_eq!(p.take_goto_disasm(), Some(0x77));
}

#[test]
fn breakpoints_are_asked_for() {
    let mut p = DebuggerPanel::new();
    assert!(p.set_execute_breakpoint(0x10).is_none(), "no debugger is attached");
    p.attach_done(Err("denied".to_string()));
    assert!(p.attach_err.is_some());
    p.attach_done(Ok(()));
    let r = p.set_execute_breakpoint(0x10).unwrap();
    assert_eq!((r.kind, r.addr), (BpKind::Execute, 0x10));
    p.bp_addr_text = "zz".to_string();
    assert!(p.do_set_breakpoint().is_none());
    assert!(p.bp_err.is_some());
    assert!(p.tick_events(0));
    assert!(!p.tick_events(1));
    assert_eq!(BpKind::all().len(), 5);
    assert!(BpKind::HwWrite.needs_len() && !BpKind::Uprobe.needs_len());
    for kind in BpKind::all() {
        let same = kind.to_spec(0x10, 1) == kind.to_spec(0x10, 8);
        assert_eq!(same, !kind.needs_len());
    }
    assert_eq!(
        BpKind::HwAccess.to_spec(0x10, 4),
        BpAsk::Watch { addr: 0x10, len: 4, ty: HwType::ReadWrite }
    );
    assert_eq!(BpKind::Execute.to_spec(0x10, 4), BpAsk::Execute { addr: 0x10 });
}

#[test]
fn the_debugger_says_what_was_refused() {
    let mut p = DebuggerPanel::new();
    p.breakpoint_set(Err((true, "odd".to_string())));
    assert_eq!(p.bp_err.as_deref(), Some("Invalid spec: odd"));
    p.breakpoint_set(Err((false, "busy".to_string())));
    assert_eq!(p.bp_err.as_deref(), Some("Set breakpoint: busy"));
    p.breakpoint_set(Ok(()));
    assert_eq!(p.bp_err, None);
    p.breakpoint_cleared("#1", Err("gone".to_string()));
    assert_eq!(p.bp_err.as_deref(), Some("Clear #1: gone"));
    p.breakpoint_cleared("#1", Ok(()));
    assert_eq!(p.bp_err, None);

    assert!(p.start_watch().is_none());
    assert_eq!(p.watch_err.as_deref(), Some("Attach the debugger first."));
    p.attach_done(Ok(()));
    p.watch_addr_text = "0x40".to_string();
    p.watch_writes_only = false;
    let r = p.start_watch().unwrap();
    assert_eq!((r.addr, r.ty), (0x40, HwType::ReadWrite));
    p.watch_armed(r, Err((false, "no slot".to_string())));
    assert_eq!(p.watch_err.as_deref(), Some("Could not arm the watchpoint: no slot"));
    p.watch_armed(r, Err((true, "odd length".to_string())));
    assert_eq!(p.watch_err.as_deref(), Some("odd length"));
    p.disarm_failed("gone");
    assert_eq!(p.watch_err.as_deref(), Some("Could not disarm the watchpoint: gone"));

    assert!(p.threads_due(0));
    let threads = vec![thread_entry("9", None).unwrap(), thread_entry("4", Some("a")).unwrap()];
    p.set_threads(threads, 100);
    assert_eq!((p.threads[0].tid, p.threads[1].tid), (4, 9));
    assert!(!p.threads_due(2099));
    assert!(p.threads_due(2100));
    // Threads of one id keep their order.
    let twins = vec![
        thread_entry("9", Some("z")).unwrap(),
        thread_entry("4", Some("first")).unwrap(),
        thread_entry("4", Some("second")).unwrap(),
    ];
    p.set_threads(twins, 2100);
    let names: Vec<&str> = p.threads.iter().map(|t| t.name.as_str()).collect();
    assert_eq!(names, ["first", "second", "z"]);
}

#[test]
fn a_poll_takes_so_many_events() {
    assert!(poll_goes_on(0, true));
    assert!(poll_goes_on(4095, true));
    assert!(!poll_goes_on(4096, true));
    assert!(!poll_goes_on(0, false));
}

#[test]
fn debugger_labels() {
    let t = thread_entry("42", Some("main\n")).unwrap();
    assert_eq!((t.tid, t.name.as_str()), (42, "main"));
    assert!(thread_entry("x", None).is_none());
    assert!(breakpoint_line("1", BpSpec::Hardware { addr: 0x10, len: 4, ty: HwType::Write }).contains("0x"));
    let w = ActiveWatch { id: 1, address: 0x10, length: 4 };
    assert!(watch_label(w, 3, 2).contains('3'));
    assert_eq!(dropped_label(0), None);
    assert!(dropped_label(4).unwrap().contains('4'));
    assert!(!register_lines(&regs()).is_empty());
}

#[test]
fn every_panel_has_its_place() {
    let plan = default_layout();
    let mut tabs = plan.root.clone();
    for s in &plan.splits {
        tabs.extend(s.tabs.iter().copied());
    }
    for t in TabKind::all() {
        assert_eq!(tabs.iter().filter(|x| **x == t).count(), 1, "{}", t.title());
    }
}

#[test]
fn code_is_generated_and_saved() {
    let mut g = GeneratorPanel::default();
    assert_eq!(languages(), vec![Language::Cpp, Language::CSharp, Language::Rust]);
    assert_eq!((label_for(Language::CSharp), extension_for(Language::CSharp)), ("C#", "cs"));
    g.copied();
    assert_eq!(g.status, None, "there is nothing to copy");
    g.generated("struct A {};\n".to_string());
    g.copied();
    assert_eq!(g.status.as_deref(), Some("Copied to clipboard"));
    g.saved(SaveOutcome::Saved("/o.hpp".to_string()));
    assert_eq!(g.status.as_deref(), Some("Saved to /o.hpp"));
    g.saved(SaveOutcome::Failed("x".to_string()));
    assert_eq!(g.status.as_deref(), Some("Save failed: x"));
    g.saved(SaveOutcome::Cancelled);
    assert_eq!(g.status.as_deref(), Some("Save cancelled"));
    for code in ["", "a", "a\n", "a\nb", "\n\n", "a\n\nb\n"] {
        let want = format!("2 class(es), 1 enum(s), {} lines", code.lines().count());
        assert_eq!(output_summary(2, 1, code), want);
    }
}

#[test]
fn the_key_file_is_found() {
    assert!(matches!(kernel_key_path(Some(" /k "), Some("/h")), Some(KeyPath::At(p)) if p == "/k"));
    assert!(matches!(kernel_key_path(Some("  "), Some("/h")), Some(KeyPath::BelowHome(p)) if p == "/h"));
    assert!(kernel_key_path(None, Some("")).is_none());
    assert_eq!(kernel_key_path(Some(" /k "), None).unwrap().path(), "/k");
    assert_eq!(kernel_key_path(None, Some("/h")).unwrap().path(), "/h/.local/data/nemclass_kernel_key");
    assert_eq!(kernel_key_path(None, Some("/h/")).unwrap().path(), "/h/.local/data/nemclass_kernel_key");
    assert_eq!(read_kernel_key(Some(" deadbeef\n")).as_deref(), Some("deadbeef"));
    assert_eq!(read_kernel_key(Some(" \n")), None);
    assert_eq!(read_kernel_key(None), None);
}

#[test]
fn bytes_read_back() {
    assert_eq!(to_le(0x0102, 4), vec![2, 1, 0, 0]);
    assert_eq!(from_le(&[2, 1]), 0x0102);
    for n in [-1i64, -128, 127, 0] {
        assert_eq!(from_le_signed(&to_le_signed(n, 1)), n);
    }
}

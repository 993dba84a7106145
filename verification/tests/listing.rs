//! The disassembler, its navigation, and what a dissect finds.
use nemclass_ui::disassembly::{
    click_target, comment_address, flow_color, insn_bytes, insn_comment, module_name_at, sort_modules, DisasmAction,
    DisassemblyPanel, EmptyListing, FlowKind, FocusStep, Insn, TableActions,
};
use nemclass_ui::history::remember;
use nemclass_ui::navigator::{unnamed_function, NavAction, NavView, NavigatorPanel};
use nemclass_ui::process_reader::ModuleInfo;
use nemclass_ui::regions::{merge_regions, Region};
use nemclass_ui::xrefs::{
    compute_dissect_many, merge_dissect, referrers, sorted_unique, DissectResult, Preview, Site,
};

const BASE: usize = 0x1_0000;
const TARGET: usize = BASE + 0x800;

fn insn(address: u64, length: usize) -> Insn {
    Insn {
        address,
        length,
        data: vec![0x90; length],
        instruction: "nop".to_string(),
        kind: FlowKind::Sequential,
        target: None,
        mem_target: None,
    }
}

/// The instructions of a page of one-byte instructions with one of three bytes
/// at [`TARGET`].
fn decode(start: u64, len: usize) -> Vec<Insn> {
    let end = (start + len as u64).min(BASE as u64 + 0x1000);
    let mut at = start;
    let mut out = Vec::new();
    while at < end {
        let n = if at == TARGET as u64 { 3 } else { 1 };
        out.push(insn(at, n));
        at += n as u64;
    }
    out
}

/// Brings an address into view. No mappings are known.
fn focus(panel: &mut DisassemblyPanel, addr: usize) {
    let addr = addr as u64;
    let mut step = panel.focus_begin(addr, None);
    loop {
        step = match step {
            FocusStep::Done => return,
            FocusStep::Regions { .. } => panel.focus_regions(addr, &[]),
            FocusStep::Window { lo, len } => panel.focus_window(addr, len, Some(len), Some(lo)),
            FocusStep::Chunk { start, len, left } => {
                panel.focus_chunk(addr, start, left, Ok(decode(start, len)))
            }
        };
    }
}

fn panel_focused_on_target() -> DisassemblyPanel {
    let mut panel = DisassemblyPanel::new();
    panel.goto(TARGET);
    let addr = panel.take_focus().expect("goto queues a focus");
    focus(&mut panel, addr);
    panel
}

#[test]
fn navigating_to_an_address_decodes_the_code_before_it() {
    let panel = panel_focused_on_target();

    let idx = panel
        .linear_index_of(TARGET as u64)
        .expect("the target itself should be decoded");

    assert!(idx > 0, "expected preceding context, target is the first row");
    assert_eq!(
        panel.scroll_to_row,
        Some(idx),
        "the target row is what gets scrolled into view"
    );

    let prev = &panel.linear_insns[idx - 1];
    assert_eq!(prev.address + prev.length as u64, TARGET as u64);

    assert!(
        panel.linear_insns.len() > idx + 1,
        "expected instructions after the target"
    );
}

#[test]
fn navigating_within_the_listing_keeps_it_intact() {
    let mut panel = panel_focused_on_target();
    let first = panel.linear_insns[0].address;
    let count = panel.linear_insns.len();

    panel.goto(TARGET + 0x20);
    let addr = panel.take_focus().expect("goto queues a focus");
    focus(&mut panel, addr);

    assert_eq!(panel.linear_insns[0].address, first, "listing was rebuilt");
    assert_eq!(panel.linear_insns.len(), count, "listing was rebuilt");
    assert_eq!(
        panel.scroll_to_row,
        panel.linear_index_of((TARGET + 0x20) as u64)
    );
}

#[test]
fn back_and_forward_undo_each_other() {
    let mut p = DisassemblyPanel::new();
    p.navigate(0x1000);
    p.navigate(0x2000);
    p.navigate(0x2000);
    p.go_back();
    assert_eq!(p.address, 0x1000);
    p.go_forward();
    assert_eq!(p.address, 0x2000);
    p.go_forward();
    assert_eq!(p.address, 0x2000, "nowhere to go");
}

#[test]
fn the_history_drops_its_oldest_entry() {
    let mut h = Vec::new();
    for i in 0..1000 {
        remember(&mut h, i);
    }
    assert!(h.len() < 1000);
    assert_eq!(*h.last().unwrap(), 999);
}

#[test]
fn the_address_box_reads_hex() {
    let mut p = DisassemblyPanel::new();
    p.address_input = "0x401000".to_string();
    p.try_parse_address();
    assert_eq!(p.address_error, None);
    assert_eq!(p.pending_focus.or(p.pending_navigate), Some(0x401000));
    p.address_input = "zz".to_string();
    p.try_parse_address();
    assert!(p.address_error.is_some());
}

#[test]
fn regions_that_touch_are_one() {
    let r = |start, end| Region { start, end };
    let merged = merge_regions(&[r(0x30, 0x40), r(0x10, 0x20), r(0x20, 0x28), r(0x12, 0x14)]);
    let got: Vec<(u64, u64)> = merged.iter().map(|m| (m.start, m.end)).collect();
    assert_eq!(got, vec![(0x10, 0x28), (0x30, 0x40)]);
}

#[test]
fn a_listing_goes_on_with_the_next_region() {
    let mut p = DisassemblyPanel::new();
    let start = p.adopt_regions(&[
        Region { start: 0x1000, end: 0x1004 },
        Region { start: 0x2000, end: 0x2002 },
    ]);
    assert_eq!(start, Some(0x1000));
    assert_eq!(p.region_of(0x1003).map(|r| r.end), Some(0x1004));
    assert_eq!(p.next_region_start(0x1004), Some(0x2000));
    // The first chunk holds the whole first region.
    let step = p.focus_begin(0x1000, None);
    let FocusStep::Chunk { start, len, left } = step else { panic!("{step:?}") };
    assert_eq!((start, len), (0x1000, 4));
    let step = p.focus_chunk(0x1000, start, left, Ok((0..4).map(|i| insn(0x1000 + i, 1)).collect()));
    assert_eq!(step, FocusStep::Done);
    assert_eq!(p.scroll_to_row, Some(0));
    // It is used up, so decoding moves on to the second region.
    let c = p.plan_extension().unwrap();
    assert_eq!(c.start, 0x2000);
    assert_eq!(p.linear_index_of(0x1002), Some(2));
    p.apply_chunk(c.start, Err("unmapped".to_string()));
    assert_eq!(p.status_msg.as_deref(), Some("Disassembly failed: unmapped"));
    assert_eq!(p.linear_next, None);
}

#[test]
fn rows_say_what_they_do() {
    let mut i = insn(0x1000, 2);
    i.data = vec![0xEB, 0xFE, 0x99];
    assert_eq!(insn_bytes(&i), "eb fe");
    i.target = Some(0x1000);
    i.kind = FlowKind::Jump;
    assert_eq!(click_target(&i), Some(0x1000));
    assert_eq!(insn_comment(&i, Some("main".to_string()), None).as_deref(), Some("main"));
    assert_eq!(flow_color(FlowKind::Call), Some((120, 170, 255)));
    assert_eq!(flow_color(FlowKind::Other), None);
}

#[test]
fn modules_are_sorted_by_base() {
    let m = |base, name: &str| ModuleInfo { base, size: 0x100, name: name.to_string() };
    let sorted = sort_modules(&[m(0x3000, "c"), m(0x1000, "a"), m(0x2000, "b")]);
    let names: Vec<&str> = sorted.iter().map(|m| m.name.as_str()).collect();
    assert_eq!(names, vec!["a", "b", "c"]);
    assert_eq!(module_name_at(&sorted, 0x2080).map(String::as_str), Some("b"));
    assert_eq!(module_name_at(&sorted, 0x2100), None);
}

#[test]
fn an_empty_listing_says_why() {
    let mut p = DisassemblyPanel::new();
    assert!(matches!(p.empty_listing(), EmptyListing::NothingSelected));
    p.on_attach(&[ModuleInfo { base: 0x1000, size: 0x10, name: "a".to_string() }]);
    let spans = p.set_selected_modules(&[0]);
    assert_eq!((spans[0].base, spans[0].size), (0x1000, 0x10));
    p.apply_table_actions(TableActions {
        select: Some(3),
        navigate: None,
        action: Some(DisasmAction::AddAddressToClass(0x1000)),
    });
    assert_eq!(p.selected_row, Some(3));
    assert_eq!(p.take_action(), Some(DisasmAction::AddAddressToClass(0x1000)));
    assert_eq!(p.take_action(), None);
    p.on_detach();
    assert!(p.modules.is_empty());
}

fn found() -> DissectResult {
    let mut d = DissectResult::new();
    d.calls.append(0x2000, vec![Site(0x1000), Site(0x1010)]);
    d.strings.append(0x3000, vec![Site(0x1004)]);
    d.string_previews.push(Preview { addr: 0x3000, text: "hello".to_string() });
    d
}

#[test]
fn dissects_of_several_modules_are_merged() {
    let mut a = found();
    merge_dissect(&mut a, found());
    assert_eq!(a.calls.get(0x2000).map(Vec::len), Some(4));
    assert_eq!(a.preview(0x3000).map(String::as_str), Some("hello"));
    assert_eq!(referrers(&a, 0x3000).len(), 1);
    assert_eq!(sorted_unique(&[Site(3), Site(1), Site(3)]).len(), 2);
    assert!(compute_dissect_many(vec![Err("no".to_string())]).is_err());
    let both = compute_dissect_many(vec![Ok(found()), Ok(found())]).unwrap();
    assert_eq!(both.calls.get(0x2000).map(Vec::len), Some(2));
    assert!(both.calls.get(0x3000).is_none());
    let mut empty = DissectResult::new();
    empty.jumps.append(0x4000, Vec::new());
    let listed = compute_dissect_many(vec![Ok(empty)]).unwrap();
    assert_eq!(listed.jumps.get(0x4000).map(Vec::len), Some(0));
}

#[test]
fn the_navigator_lists_and_filters() {
    let d = found();
    let mut n = NavigatorPanel::new();
    n.refresh(Some((1, &d)));
    assert_eq!(n.strings.len(), 1);
    assert_eq!(n.functions.len(), 1);
    assert_eq!(n.calls.len(), 2);
    n.view = NavView::Strings;
    n.filter = "HELL".to_string();
    assert_eq!(n.string_rows(), vec![0]);
    assert!(matches!(n.click(0), Some(NavAction::GotoMemory(0x3000))));
    n.filter = "xyz".to_string();
    assert!(n.string_rows().is_empty());
    n.view = NavView::Functions;
    n.filter = String::new();
    assert!(matches!(n.click(0), Some(NavAction::GotoDisasm(0x2000))));
    assert_eq!(n.function_rows(), vec![0]);
    n.view = NavView::Calls;
    assert_eq!(n.call_rows(), vec![0, 1]);
    assert!(matches!(n.click(1), Some(NavAction::GotoDisasm(0x1010))));
    assert!(n.click(2).is_none());
    n.refresh(None);
    assert_eq!(n.count(), 0);
    assert_eq!(unnamed_function(0x1A), "sub_1a");
}

#[test]
fn a_dissect_is_asked_for_and_taken_in() {
    let mut p = DisassemblyPanel::new();
    assert!(p.begin_dissect(true).is_none());
    assert_eq!(p.dissect_status, None);
    assert!(p.begin_dissect(false).is_none());
    assert_eq!(p.dissect_status.as_deref(), Some("Select modules in the Modules panel first."));
    p.modules = vec![ModuleInfo { base: 0x1000, size: 0x100, name: "game".to_string() }];
    p.selected_modules = vec![0];
    let spans = p.begin_dissect(false).unwrap();
    assert_eq!((spans.len(), spans[0].base, spans[0].size), (1, 0x1000, 0x100));
    assert_eq!(p.dissect_status.as_deref(), Some("Dissecting…"));
    let epoch = p.dissect_epoch();
    p.apply_dissect(Ok(found()));
    assert_eq!(p.dissect_epoch(), epoch + 1);
    assert_eq!(p.dissect_status.as_deref(), Some("1 call targets, 0 jump targets, 1 strings"));
    assert!(p.dissect_result().is_some());
    p.apply_dissect(Err("no code".to_string()));
    assert!(p.dissect_result().is_none());
    assert_eq!(p.dissect_epoch(), epoch + 1);
    assert_eq!(p.dissect_status.as_deref(), Some("Dissect failed: no code"));
}

#[test]
fn keys_walk_the_listing() {
    let mut p = DisassemblyPanel::new();
    p.linear_insns = vec![insn(0x10, 1), insn(0x11, 1), insn(0x12, 1)];
    p.linear_insns[1].target = Some(0x40);
    p.handle_keyboard(false, false, false, true);
    assert_eq!(p.selected_row, Some(0));
    p.handle_keyboard(false, false, false, true);
    assert_eq!(p.take_scroll(), Some(1));
    assert_eq!(p.take_scroll(), None);
    p.handle_keyboard(true, false, true, false);
    assert_eq!(p.pending_navigate, Some(0x40), "the branch of the row that was selected");
    assert_eq!(p.selected_row, Some(0));
    p.navigate(0x10);
    p.navigate(0x12);
    p.handle_keyboard(false, true, false, false);
    assert_eq!(p.address, 0x10);
    assert_eq!(p.selected_row, None);
    assert_eq!(p.count_label(), "3 instructions");
    p.linear_next = Some(0x13);
    assert_eq!(p.count_label(), "3+ instructions");
    assert!(p.wants_more(3, 0));
    assert!(!p.wants_more(100_000, 0));
    p.linear_next = None;
    assert!(!p.wants_more(3, 2));
}

#[test]
fn patches_and_signatures_are_reported() {
    let mut p = DisassemblyPanel::new();
    p.linear_insns = vec![insn(0x10, 1)];
    p.nop_written(0x10, 2, false);
    assert_eq!(p.status_msg.as_deref(), Some("NOP write failed at 0x10"));
    assert_eq!(p.linear_insns.len(), 1);
    p.nop_written(0x10, 2, true);
    assert_eq!(p.status_msg.as_deref(), Some("Wrote 2 NOP byte(s) at 0x10"));
    assert!(p.linear_insns.is_empty());

    p.modules = vec![
        ModuleInfo { base: 0x1000, size: 0, name: "empty".to_string() },
        ModuleInfo { base: 0x2000, size: 0x3000, name: "game".to_string() },
    ];
    let (span, offset) = p.request_signature(0x2010).unwrap();
    assert_eq!((span.base, span.size, offset), (0x2000, 0x3000, 0x10));
    assert!(p.request_signature(0x9000).is_none());
    assert_eq!(p.last_signature, Some(Err("0x9000 not found in any loaded module".to_string())));
    p.signature_made(Ok(Some("48 8b".to_string())));
    assert_eq!(p.last_signature, Some(Ok("48 8b".to_string())));
    p.signature_made(Ok(None));
    assert_eq!(
        p.last_signature,
        Some(Err("Not unique within module (try longer max_len)".to_string()))
    );
    p.signature_made(Err("gone".to_string()));
    assert_eq!(p.last_signature, Some(Err("Read failed: gone".to_string())));
    assert_eq!(p.sample_module(Some("empt")), Some(0));
    assert_eq!(p.sample_module(None), Some(1));
    assert_eq!(p.sample_module(Some("none")), None);
}

#[test]
fn a_comment_is_about_the_target_before_the_operand() {
    let mut i = insn(0x1000, 5);
    assert_eq!(comment_address(&i), None);
    i.mem_target = Some(0x3000);
    assert_eq!(comment_address(&i), Some(0x3000));
    i.target = Some(0x2000);
    assert_eq!(comment_address(&i), Some(0x2000));
}

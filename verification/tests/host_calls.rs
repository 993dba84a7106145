//! The calls that scripts make.
use nemclass_ui::cheat_table::CheatTable;
use nemclass_ui::class_names::free_name;
use nemclass_ui::disassembly::{FlowKind, Insn};
use nemclass_ui::host_api::{CallContext, LogKind, UiAction, UiHostApi};
use nemclass_ui::host_classes::{finish_dissect, finish_resolve_base, formula_checked, NodeKind};
use nemclass_ui::host_disasm::{finish_disasm, finish_xrefs, CodeRegion, RefScan};
use nemclass_ui::host_error::{HostError, Stage};
use nemclass_ui::host_mem::{
    finish_is_valid, finish_read_bytes, finish_read_number, finish_read_pointer, finish_read_struct,
    finish_read_struct_array, finish_read_text, finish_read_values, finish_resolve_rip,
    finish_write, next_link, next_unit, wrap_sum, write_typed_value,
};
use nemclass_ui::host_ops::{HostOp, HostStep, NumberForm, PathStart, Reply};
use nemclass_ui::host_proc::{
    as_double_exec, finish_exports, finish_regions, finish_resolve_export, finish_text, regions, Target,
};
use nemclass_ui::host_scan::{
    anchor_path, finish_first_scan, finish_hits, finish_next_scan, finish_pointer_scan, finish_rescan,
    finish_rip_deref, needle_parsed, range_read, rip_of_hits, rip_resolved, value_scan, RipNext,
    ScanCompare, ScanHit,
};
use nemclass_ui::json::{Json, JsonKind, JsonNumber, RealParts};
use nemclass_ui::model::{plain_node, EnumDescription, Project, Shape};
use nemclass_ui::process_reader::ModuleInfo;
use nemclass_ui::scalar::RealReading;
use nemclass_ui::scan_value::{bytes_to_json_num, NumValue, ScanValueType as T, TypeTags};

fn parts(x: f64) -> RealParts {
    RealParts {
        negative: x < 0.0,
        to_usize: x as usize,
        to_isize: x as isize,
        to_u64: x as u64,
        to_i64: x as i64,
        to_u8: x as u8,
        single: (x as f32).to_bits(),
        double: x.to_bits(),
    }
}

fn whole(n: i64) -> Json {
    Json {
        kind: JsonKind::Number(JsonNumber {
            unsigned: u64::try_from(n).ok(),
            signed: Some(n),
            real_parts: Some(parts(n as f64)),
        }),
        printed: n.to_string(),
    }
}

fn fractional(x: f64) -> Json {
    Json {
        kind: JsonKind::Number(JsonNumber { unsigned: None, signed: None, real_parts: Some(parts(x)) }),
        printed: format!("{x:?}"),
    }
}

fn text(s: &str) -> Json {
    Json { kind: JsonKind::Text(s.to_string()), printed: format!("{s:?}") }
}

fn boolean(b: bool) -> Json {
    Json { kind: JsonKind::Bool(b), printed: b.to_string() }
}

fn list(items: Vec<Json>) -> Json {
    let printed: Vec<String> = items.iter().map(|i| i.printed.clone()).collect();
    Json { printed: format!("[{}]", printed.join(",")), kind: JsonKind::List(items) }
}

fn record(items: Vec<(&str, Json)>) -> Json {
    let items: Vec<(String, Json)> = items.into_iter().map(|(k, v)| (k.to_string(), v)).collect();
    Json { printed: "{}".to_string(), kind: JsonKind::Record(items) }
}

fn module(name: &str, base: usize, size: usize) -> ModuleInfo {
    ModuleInfo { base, size, name: name.to_string() }
}

fn kind(tag: &str, size: usize) -> NodeKind {
    NodeKind {
        tag: tag.to_string(),
        memory_size: size,
        container: false,
        takes_target: tag == "Pointer",
        pointer_sized: tag == "Pointer",
        shape: Shape::Scalar,
    }
}

fn compare(tag: &str, needs_needle: bool, needs_previous: bool) -> ScanCompare {
    ScanCompare {
        tag: tag.to_string(),
        name: tag.to_string(),
        needs_needle,
        needs_previous,
        baseline: false,
    }
}

fn host(attached: bool) -> UiHostApi {
    UiHostApi {
        project: Project::new("p".to_string()),
        kinds: vec![kind("Int32", 4), kind("Hex64", 8), kind("Pointer", 8)],
        process: if attached {
            Some(Target {
                pid: 42,
                name: Some("game".to_string()),
                modules: Ok(vec![module("game.exe", 0x40_0000, 0x1000), module("libc.so", 0x7000, 0x100)]),
            })
        } else {
            None
        },
        log: Vec::new(),
        last_error: None,
        ui_actions: Vec::new(),
        cheat_table: CheatTable::new("default"),
        script_hotkeys: Vec::new(),
        next_hotkey_id: 1,
        script_freezes: Vec::new(),
        session: None,
        tags: TypeTags {
            bytes: "bytes".to_string(),
            utf8: "utf8".to_string(),
            utf16: "utf16".to_string(),
        },
        compares: vec![compare("exact", true, false), compare("changed", false, true)],
    }
}

fn reading(t: &str) -> RealReading {
    RealReading {
        single: t.trim().parse::<f32>().map(f32::to_bits).map_err(|e| e.to_string()),
        double: t.trim().parse::<f64>().map(f64::to_bits).map_err(|e| e.to_string()),
    }
}

fn call_with(h: &mut UiHostApi, method: &str, args: Vec<Json>, fresh: u128, typed: &str) -> HostStep {
    h.call(method, &list(args), &CallContext { fresh, reading: reading(typed) })
}

fn call(h: &mut UiHostApi, method: &str, args: Vec<Json>) -> HostStep {
    call_with(h, method, args, 7, "")
}

fn answer(step: HostStep) -> Reply {
    match step {
        HostStep::Done(Ok(r)) => r,
        other => panic!("expected an answer, got {other:?}"),
    }
}

fn refusal(step: HostStep) -> String {
    match step {
        HostStep::Done(Err(e)) => e.message(),
        other => panic!("expected an error, got {other:?}"),
    }
}

fn asks(step: HostStep) -> HostOp {
    match step {
        HostStep::Ask(op) => op,
        other => panic!("expected a request, got {other:?}"),
    }
}

/// What a number is as a floating-point number.
fn as_f64(v: NumValue) -> Option<f64> {
    match v {
        NumValue::Null => None,
        NumValue::Signed(n) => Some(n as f64),
        NumValue::Unsigned(n) => Some(n as f64),
        NumValue::Single(b) => Some(f32::from_bits(b) as f64),
        NumValue::Double(b) => Some(f64::from_bits(b)),
    }
}

#[test]
fn bytes_to_json_num_parses_each_type() {
    assert_eq!(as_f64(bytes_to_json_num(T::I32, &1337i32.to_le_bytes())), Some(1337.0));
    assert_eq!(as_f64(bytes_to_json_num(T::U8, &[0xFF])), Some(255.0));
    assert_eq!(as_f64(bytes_to_json_num(T::I8, &[0xFF])), Some(-1.0));
    assert_eq!(as_f64(bytes_to_json_num(T::I16, &(-2i16).to_le_bytes())), Some(-2.0));
    assert_eq!(
        as_f64(bytes_to_json_num(T::U32, &0xDEADBEEFu32.to_le_bytes())),
        Some(0xDEADBEEFu32 as f64)
    );
    assert_eq!(as_f64(bytes_to_json_num(T::F32, &1.5f32.to_le_bytes())), Some(1.5));
    assert_eq!(as_f64(bytes_to_json_num(T::F64, &2.25f64.to_le_bytes())), Some(2.25));
    assert_eq!(bytes_to_json_num(T::Bytes, &[1, 2, 3, 4]), NumValue::Null);
}

#[test]
fn only_numbers_are_written_by_type() {
    let tags = host(true).tags;
    assert_eq!(write_typed_value(&tags, T::U16, &whole(0x0102)).unwrap(), vec![2, 1]);
    let refused = write_typed_value(&tags, T::Bytes, &whole(1)).unwrap_err();
    assert_eq!(refused.message(), "writeValues: unsupported type bytes");
}

#[test]
fn code_is_asked_for_within_limits() {
    let mut h = host(true);
    assert!(matches!(
        asks(call(&mut h, "disasm.func", vec![whole(0x7010)])),
        HostOp::DisassembleFunction { addr: 0x7010, max: 4096 }
    ));
    assert!(matches!(
        asks(call(&mut h, "scan.makeSignature", vec![whole(0x7010)])),
        HostOp::MakeSignature { base: 0x7000, size: 0x100, off: 0x10, min_len: 8, max_len: 128 }
    ));
}

#[test]
fn unknown_methods_are_refused() {
    let mut h = host(true);
    assert_eq!(refusal(call(&mut h, "mem.nope", vec![])), "unknown host method: mem.nope");
    assert_eq!(refusal(call(&mut h, "nope", vec![])), "unknown host method: nope");
}

#[test]
fn memory_is_read_only_from_a_process() {
    let mut h = host(false);
    let e = refusal(call(&mut h, "mem.readU32", vec![whole(0x10)]));
    assert!(e.contains("not attached"), "{e}");
    assert!(matches!(answer(call(&mut h, "proc.attached", vec![])), Reply::Bool(false)));
    let mut h = host(true);
    assert!(matches!(answer(call(&mut h, "proc.attached", vec![])), Reply::Bool(true)));
    assert!(matches!(answer(call(&mut h, "proc.pid", vec![])), Reply::Pid(42)));
}

#[test]
fn addresses_can_be_numbers_or_hex() {
    let mut h = host(true);
    for a in [whole(0x1234), text("0x1234"), fractional(4660.0)] {
        match asks(call(&mut h, "mem.readBytes", vec![a, whole(4)])) {
            HostOp::ReadBytes { addr, len } => assert_eq!((addr, len), (0x1234, 4)),
            op => panic!("{op:?}"),
        }
    }
    assert!(!refusal(call(&mut h, "mem.readBytes", vec![whole(-1), whole(4)])).is_empty());
    assert!(!refusal(call(&mut h, "mem.readBytes", vec![text("zz"), whole(4)])).is_empty());
    assert!(!refusal(call(&mut h, "mem.readBytes", vec![])).is_empty());
    assert!(!refusal(call(&mut h, "mem.readBytes", vec![whole(1), whole(1 << 40)])).is_empty());
    assert!(matches!(finish_read_bytes(Ok(vec![1, 2])), Ok(Reply::Bytes(b)) if b == vec![1, 2]));
    assert!(matches!(
        finish_read_bytes(Err("gone".to_string())),
        Err(HostError::Failed(Stage::Read, _))
    ));
}

#[test]
fn numbers_are_written_and_read_back() {
    let mut h = host(true);
    let op = asks(call(&mut h, "mem.writeI32", vec![whole(0x10), whole(-5)]));
    let HostOp::Write { writes, then } = op else { panic!("no write") };
    assert_eq!((writes[0].addr, writes[0].bytes.clone()), (0x10, (-5i32).to_le_bytes().to_vec()));
    assert!(finish_write(Ok(()), then).is_ok());
    let r = finish_read_number(T::I32, NumberForm::Real, Ok(writes[0].bytes.clone()));
    assert!(matches!(r, Ok(Reply::Real(NumValue::Signed(-5)))));
    let op = asks(call(&mut h, "mem.writeF32", vec![whole(0x10), fractional(1.5)]));
    let HostOp::Write { writes, .. } = op else { panic!("no write") };
    assert_eq!(writes[0].bytes, 1.5f32.to_le_bytes().to_vec());
    let r = finish_read_number(T::U64, NumberForm::Decimal, Ok(u64::MAX.to_le_bytes().to_vec()));
    assert!(matches!(r, Ok(Reply::Text(t)) if t == "18446744073709551615"));
}

#[test]
fn texts_are_written_and_read_back() {
    let mut h = host(true);
    let op = asks(call(&mut h, "mem.writeString", vec![whole(0x10), text("h€")]));
    let HostOp::Write { writes, .. } = op else { panic!("no write") };
    let mut memory: Vec<u8> = writes.iter().flat_map(|w| w.bytes.clone()).collect();
    assert_eq!(memory, "h€\0".as_bytes());
    assert_eq!(writes[2].addr, 0x12);
    memory.extend_from_slice(b"rest");
    assert!(matches!(finish_read_text(Ok(memory)), Ok(Reply::Text(t)) if t == "h€"));
    // Bytes that are no text are replaced.
    assert!(matches!(finish_read_text(Ok(vec![b'a', 0xFF, 0])), Ok(Reply::Text(t)) if t == "a\u{FFFD}"));
}

#[test]
fn wide_texts_are_read_unit_by_unit() {
    let unit = |n: u16| Ok::<u16, String>(n);
    let step = next_unit(0x10, 8, Vec::new(), unit('h' as u16));
    let HostOp::ReadUnit { at, units, .. } = asks(step) else { panic!("no unit") };
    assert_eq!((at, units.len()), (0x12, 1));
    let step = next_unit(0x10, 8, units, unit(0x20AC));
    let HostOp::ReadUnit { units, .. } = asks(step) else { panic!("no unit") };
    assert!(matches!(answer(next_unit(0x10, 8, units, unit(0))), Reply::Text(t) if t == "h€"));
    // Half a pair is replaced.
    assert!(matches!(answer(next_unit(0x10, 8, vec![0xD800], unit(0))), Reply::Text(t) if t == "\u{FFFD}"));
}

#[test]
fn chains_follow_their_pointers() {
    let mut h = host(true);
    let step = call(&mut h, "mem.readChain", vec![whole(0x1000), list(vec![whole(0x10), whole(-8)])]);
    let HostOp::ReadLink { at, offsets, next } = asks(step) else { panic!("no link") };
    let step = next_link(offsets, next, Ok(0x2000));
    match step {
        HostStep::Ask(HostOp::ReadLink { at: second, offsets, next }) => {
            assert_eq!(at, 0x1000);
            assert_eq!(second, 0x2010);
            assert!(matches!(answer(next_link(offsets, next, Ok(0x3000))), Reply::Address(0x2FF8)));
        }
        other => panic!("{other:?}"),
    }
    assert_eq!(wrap_sum(usize::MAX, 2), 1);
    assert_eq!(wrap_sum(0, -1), usize::MAX);
}

#[test]
fn records_are_read_by_their_layout() {
    let mut h = host(true);
    let objects = list(vec![
        record(vec![("name", text("hp")), ("type", text("i32"))]),
        record(vec![("name", text("mp")), ("type", text("u8"))]),
    ]);
    let op = asks(call(&mut h, "mem.readStruct", vec![whole(0x100), objects]));
    let HostOp::ReadFields { fields, error, .. } = op else { panic!("no fields") };
    assert_eq!(fields.len(), 2);
    assert_eq!((fields[1].name.as_str(), fields[1].off, fields[1].width), ("mp", 4, 1));
    let r = finish_read_struct(&fields, &vec![5i32.to_le_bytes().to_vec(), vec![9]], None, error);
    match r {
        Ok(Reply::Record(v)) => {
            assert_eq!(v[0], ("hp".to_string(), NumValue::Signed(5)));
            assert_eq!(v[1], ("mp".to_string(), NumValue::Unsigned(9)));
        }
        other => panic!("{other:?}"),
    }
    let buf = [5i32.to_le_bytes().to_vec(), vec![9, 0, 0, 0], 6i32.to_le_bytes().to_vec(), vec![8, 0, 0, 0]].concat();
    match finish_read_struct_array(&fields, 8, Ok(buf)) {
        Ok(Reply::Records(v)) => {
            assert_eq!(v.len(), 2);
            assert_eq!(v[1][0].1, NumValue::Signed(6));
        }
        other => panic!("{other:?}"),
    }
    match finish_read_values(T::U16, 2, Ok(vec![1, 0, 2, 0])) {
        Ok(Reply::Reals(v)) => assert_eq!(v, vec![NumValue::Unsigned(1), NumValue::Unsigned(2)]),
        other => panic!("{other:?}"),
    }
}

#[test]
fn relative_addresses_are_resolved() {
    assert!(matches!(finish_resolve_rip(0x1000, 7, Ok(-7)), Ok(Reply::Address(0x1000))));
    assert!(matches!(rip_of_hits(&vec![], 3), RipNext::Null));
    assert!(matches!(rip_of_hits(&vec![0x2000], 3), RipNext::ReadDisplacement { at: 0x2003, insn: 0x2000 }));
    assert!(matches!(answer(rip_resolved(0x2000, 7, false, Ok(0x10))), Reply::Address(0x2017)));
    assert!(matches!(asks(rip_resolved(0x2000, 7, true, Ok(0x10))), HostOp::ReadPointer { addr: 0x2017 }));
    assert!(matches!(finish_is_valid(Ok(true)), Ok(Reply::Bool(true))));
}

#[test]
fn modules_answer_by_name_and_address() {
    let mut h = host(true);
    assert!(matches!(
        answer(call(&mut h, "proc.module", vec![text("GAME.EXE")])),
        Reply::Module(m) if m.base == 0x40_0000
    ));
    assert!(matches!(answer(call(&mut h, "proc.module", vec![text("none")])), Reply::Null));
    assert!(matches!(
        answer(call(&mut h, "proc.moduleAt", vec![whole(0x7080)])),
        Reply::Module(m) if m.name == "libc.so"
    ));
    assert!(matches!(answer(call(&mut h, "proc.baseAddress", vec![])), Reply::Address(0x40_0000)));
    assert!(matches!(answer(call(&mut h, "proc.modules", vec![])), Reply::Modules(v) if v.len() == 2));
    assert!(matches!(finish_text(Ok(None)), Ok(Reply::Null)));
    assert!(finish_exports(Err("x".to_string())).is_err());
    assert_eq!(as_double_exec((1 << 53) + 1), 1 << 53);
    assert_eq!(as_double_exec(12345), 12345);
}

#[test]
fn mappings_are_parsed() {
    let maps = "00400000-00401000 r-xp 00000000 08:01 1 /bin/a\nnonsense\n7000-7100 rw-p 0 0:0 0\n";
    let r = regions(maps);
    assert_eq!(r.len(), 2);
    assert_eq!((r[0].start, r[0].size, r[0].end, r[0].perms.as_str()), (0x40_0000, 0x1000, 0x40_1000, "r-xp"));
    match finish_regions(Some(maps.to_string()), Some(0x70FF)) {
        Reply::Region(r) => assert_eq!(r.start, 0x7000),
        other => panic!("{other:?}"),
    }
    assert!(matches!(finish_regions(Some(maps.to_string()), Some(0x7100)), Reply::Null));
}

#[test]
fn scans_keep_a_session() {
    let mut h = host(true);
    assert!(!refusal(call(&mut h, "scan.next", vec![text("changed")])).is_empty());
    let op = asks(call(&mut h, "scan.first", vec![text("i32"), whole(7), text("exact")]));
    let HostOp::FirstScan { vt, value, .. } = op else { panic!("no scan") };
    assert_eq!((vt, value.as_deref()), (T::I32, Some("7")));
    let hit = |a: usize| ScanHit { address: a, previous: 7i32.to_le_bytes().to_vec() };
    let r = finish_first_scan(&mut h.session, T::I32, Ok(vec![hit(0x10), hit(0x20)]));
    assert!(matches!(r, Ok(Reply::Count(2))));
    let r = finish_next_scan(&mut h.session, Ok(vec![hit(0x20)]));
    assert!(matches!(r, Ok(Reply::Count(1))));
    assert!(matches!(answer(call(&mut h, "scan.results", vec![])), Reply::Addresses(a) if a == vec![0x20]));
    let hits = finish_hits(T::I32, &vec![hit(0x20)], &vec![Some(8i32.to_le_bytes().to_vec())]);
    match hits {
        Reply::Hits(v) => {
            assert_eq!((v[0].value, v[0].previous), (NumValue::Signed(8), NumValue::Signed(7)));
        }
        other => panic!("{other:?}"),
    }
    answer(call(&mut h, "scan.reset", vec![]));
    assert!(h.session.is_none());
    assert!(finish_first_scan(&mut h.session, T::I32, Err((Stage::Attach, "no".to_string()))).is_err());
}

#[test]
fn value_scans_are_capped() {
    let (hits, cut) = value_scan(0x1000, &vec![false, true, true]);
    assert_eq!((hits, cut), (vec![0x1001, 0x1002], false));
    let (hits, cut) = value_scan(0, &vec![true; 10_001]);
    assert_eq!((hits.len(), cut), (10_000, true));
}

#[test]
fn paths_are_anchored_in_modules() {
    let mods = vec![module("game.exe", 0x40_0000, 0x1000)];
    let p = anchor_path(PathStart { base: 0x40_0010, offsets: vec![0x8] }, &mods);
    assert_eq!((p.module.as_str(), p.module_base, p.base), ("game.exe", 0x40_0000, 0x40_0010));
    let p = anchor_path(PathStart { base: 0x10, offsets: vec![] }, &mods);
    assert_eq!(p.module, "unknown");
    match finish_rescan(&vec![Some(5), None, Some(9), Some(5)], 5) {
        Reply::Kept(k) => assert_eq!(k, vec![0, 3]),
        other => panic!("{other:?}"),
    }
}

#[test]
fn code_is_disassembled() {
    let mut h = host(true);
    assert!(matches!(
        asks(call(&mut h, "disasm.decodeBytes", vec![list(vec![whole(0x90), whole(0xC3)]), whole(0x1000)])),
        HostOp::Decode { base: 0x1000, bytes } if bytes == vec![0x90, 0xC3]
    ));
    let i = Insn {
        address: 0x1000,
        length: 1,
        data: vec![0x90],
        instruction: "nop".to_string(),
        kind: FlowKind::Sequential,
        target: None,
        mem_target: None,
    };
    match finish_disasm(Ok(vec![i]), 10) {
        Ok(Reply::Instructions(v)) => {
            assert_eq!((v[0].address, v[0].bytes.as_str(), v[0].text.as_str()), (0x1000, "90", "nop"));
        }
        other => panic!("{other:?}"),
    }
}

#[test]
fn references_are_counted_once() {
    let mut s = RefScan::new(vec![CodeRegion { start: 0x1000, end: 0x1010 }]);
    assert_eq!(s.next_chunk().map(|c| c.0), Some(0x1000));
    s.chunk_done(&vec![0x1004, 0x1008]);
    assert_eq!(s.next_chunk(), None);
    assert!(matches!(finish_xrefs(s), Reply::Addresses(a) if a == vec![0x1004, 0x1008]));
}

#[test]
fn classes_are_made_and_changed() {
    let mut h = host(true);
    let id = match answer(call_with(&mut h, "classes.create", vec![text("Player")], 0xAB, "")) {
        Reply::Text(t) => t,
        other => panic!("{other:?}"),
    };
    assert_eq!(id, "00000000-0000-0000-0000-0000000000ab");
    assert_eq!(h.project.classes[0].name, "Player");
    // A class is named by its id or by its name, in any case of its letters.
    answer(call(&mut h, "classes.addNode", vec![text(&id), text("Int32"), text("hp")]));
    answer(call(&mut h, "classes.addNode", vec![text("PLAYER"), text("Hex64"), text("x")]));
    assert_eq!(h.project.classes[0].children.len(), 2);
    assert_eq!(
        refusal(call(&mut h, "classes.addNode", vec![text("Player"), text("Quux")])),
        "unknown node type: Quux"
    );
    assert!(matches!(
        answer(call(&mut h, "classes.addNode", vec![text("Nobody"), text("Int32")])),
        Reply::Bool(false)
    ));
    answer(call(&mut h, "classes.setNodeName", vec![text(&id), list(vec![whole(0)]), text("health")]));
    assert_eq!(h.project.classes[0].children[0].name, "health");
    answer(call(&mut h, "classes.removeNode", vec![text(&id), list(vec![whole(1)])]));
    assert_eq!(h.project.classes[0].children.len(), 1);
    match answer(call(&mut h, "classes.list", vec![])) {
        Reply::Classes(v) => assert_eq!((v[0].name.as_str(), v[0].size), ("Player", 4)),
        other => panic!("{other:?}"),
    }
    match answer(call(&mut h, "classes.get", vec![text("player")])) {
        Reply::Class { nodes, .. } => assert_eq!(nodes[0].name, "health"),
        other => panic!("{other:?}"),
    }
}

#[test]
fn a_field_is_placed_at_its_offset() {
    let mut h = host(true);
    answer(call_with(&mut h, "classes.create", vec![text("C")], 1, ""));
    answer(call(&mut h, "classes.addNodeAt", vec![text("C"), whole(0x0D), text("Int32"), text("v")]));
    let c = &h.project.classes[0];
    let names: Vec<&str> = c.children.iter().map(|n| n.tag.as_str()).collect();
    assert_eq!(names, vec!["Hex64", "Hex32", "Hex8", "Int32"]);
    let before: usize = c.children[..3].iter().map(|n| n.memory_size).sum();
    assert_eq!(before, 0x0D);
    assert_eq!(
        refusal(call(&mut h, "classes.addNodeAt", vec![text("C"), whole(0x0E), text("Int32")])),
        "offset 0xe falls inside an existing field"
    );
}

#[test]
fn values_are_frozen_once_per_address() {
    let mut h = host(true);
    answer(call_with(&mut h, "mem.freeze", vec![whole(0x10), text("i32"), whole(5)], 7, "5"));
    answer(call_with(&mut h, "mem.freeze", vec![whole(0x20), text("i32"), whole(6)], 7, "6"));
    answer(call_with(&mut h, "mem.freeze", vec![whole(0x10), text("i32"), whole(9)], 7, "9"));
    let frozen: Vec<(usize, &str)> =
        h.script_freezes.iter().map(|f| (f.addr, f.value.as_str())).collect();
    assert_eq!(frozen.len(), 2);
    assert!(frozen.contains(&(0x10, "9")));
    answer(call(&mut h, "mem.unfreeze", vec![whole(0x10)]));
    assert_eq!(h.script_freezes.len(), 1);
    assert_eq!(
        refusal(call(&mut h, "mem.freeze", vec![whole(0x10), text("quux"), whole(1)])),
        "mem.freeze: unknown type \"quux\""
    );
    let e = refusal(call_with(&mut h, "mem.freeze", vec![whole(0x10), text("i32"), text("a\"b")], 7, "a\"b"));
    assert!(e.starts_with("mem.freeze: value \"a\\\"b\" not valid for type "), "{e}");
}

#[test]
fn the_panels_do_what_scripts_ask() {
    let mut h = host(true);
    answer(call(&mut h, "ui.gotoMemory", vec![text("0x10")]));
    answer(call(&mut h, "ui.gotoDisasm", vec![text("0x20")]));
    answer(call(&mut h, "table.save", vec![text("t")]));
    assert!(matches!(h.ui_actions[0], UiAction::GotoMemory(0x10)));
    assert!(matches!(h.ui_actions[1], UiAction::GotoDisasm(0x20)));
    assert!(matches!(&h.ui_actions[2], UiAction::SaveTable(n) if n == "t"));
    answer(call(&mut h, "ui.notify", vec![text("hello")]));
    assert_eq!(h.log.last().unwrap().text, "hello");
}

#[test]
fn the_cheat_table_is_filled() {
    let mut h = host(true);
    let e = record(vec![("address", text("0x10")), ("type", text("i32")), ("description", text("hp"))]);
    answer(call(&mut h, "table.add", vec![e]));
    assert_eq!(h.cheat_table.entries.len(), 1);
    assert_eq!(h.cheat_table.entries[0].address, "0x10");
    match answer(call(&mut h, "table.list", vec![])) {
        Reply::Entries(v) => assert_eq!((v[0].index, v[0].frozen), (0, false)),
        other => panic!("{other:?}"),
    }
    answer(call(&mut h, "table.freeze", vec![whole(0), text("7")]));
    assert!(h.cheat_table.entries[0].frozen);
    answer(call(&mut h, "table.unfreeze", vec![whole(0)]));
    assert!(!h.cheat_table.entries[0].frozen);
    answer(call(&mut h, "table.remove", vec![whole(0)]));
    assert!(h.cheat_table.entries.is_empty());
}

#[test]
fn enums_are_defined_once() {
    let mut h = host(false);
    let define = |h: &mut UiHostApi, v: i64| {
        let values = record(vec![("Red", whole(v))]);
        let opts = record(vec![("size", whole(2)), ("flags", boolean(true))]);
        call(h, "enums.define", vec![text("Team"), values, opts])
    };
    answer(define(&mut h, 0));
    answer(define(&mut h, 5));
    assert_eq!(h.project.enums.len(), 1);
    assert_eq!(h.project.enums[0].values, vec![("Red".to_string(), 5)]);
    assert_eq!((h.project.enums[0].size, h.project.enums[0].use_flags), (2, true));
    let opts = record(vec![("size", whole(3))]);
    assert_eq!(
        refusal(call(&mut h, "enums.define", vec![text("T"), record(vec![]), opts])),
        "enums.define: size must be 1/2/4/8, got 3"
    );
    let bad = record(vec![("A", text("x"))]);
    assert_eq!(
        refusal(call(&mut h, "enums.define", vec![text("T"), bad])),
        "enums.define: value for \"A\" must be an integer"
    );
    assert!(matches!(answer(call(&mut h, "enums.get", vec![text("None")])), Reply::Null));
    h.declare_type(EnumDescription::new("Other".to_string()));
    assert_eq!(h.project.enums.len(), 2);
}

#[test]
fn hotkeys_get_new_ids() {
    let mut h = host(false);
    assert!(matches!(answer(call(&mut h, "hotkeys.register", vec![text("Ctrl+F5")])), Reply::HotkeyId(1)));
    assert!(matches!(answer(call(&mut h, "hotkeys.register", vec![text("Alt+K")])), Reply::HotkeyId(2)));
    assert!(h.script_hotkeys[0].ctrl && !h.script_hotkeys[0].alt);
    answer(call(&mut h, "hotkeys.unregister", vec![whole(1)]));
    assert_eq!(h.script_hotkeys.len(), 1);
    assert_eq!(
        refusal(call(&mut h, "hotkeys.register", vec![text("Nope+1+2")])),
        "hotkeys.register: bad combo \"Nope+1+2\""
    );
}

#[test]
fn declared_classes_are_updated_by_name() {
    let mut h = host(false);
    h.declare_class("P".to_string(), "0x10".to_string(), 1);
    h.declare_class("P".to_string(), "0x20".to_string(), 2);
    assert_eq!(h.project.classes.len(), 1);
    assert_eq!(h.project.classes[0].address_formula, "0x20");
    h.log(LogKind::Error, "boom".to_string());
    h.log(LogKind::Error, "second".to_string());
    assert_eq!(h.last_error.as_deref(), Some("boom"), "the first error stays");
    assert_eq!(free_name("Class ", &h.project.classes), "Class 1");
}

#[test]
fn patterns_are_scanned_for_in_a_module() {
    let mut h = host(true);
    let step = h.pattern_scan("GAME.exe".to_string(), "48 8b".to_string());
    assert!(matches!(asks(step), HostOp::PatternScan { base: 0x40_0000, size: 0x1000, .. }));
    h.pattern_scanned("game.exe", "48 8b", 2);
    assert_eq!(h.log.last().unwrap().text, "pattern_scan(\"game.exe\", \"48 8b\"): 2 hit(s)");
    assert!(!refusal(host(false).pattern_scan("m".to_string(), "90".to_string())).is_empty());
    assert!(matches!(finish_rip_deref(Ok(9)), Ok(Reply::Address(9))));
    assert_eq!(finish_rip_deref(Err("x".to_string())).unwrap_err().message(), "deref: x");
}

#[test]
fn value_scans_answer_with_addresses() {
    let mut h = host(true);
    let r = h.finish_value_scan(0x100, Ok(vec![true, false, true])).unwrap();
    assert!(matches!(r, Reply::Addresses(hits) if hits == [0x100, 0x102]));
    assert!(h.log.is_empty());
    assert!(h.finish_value_scan(0, Err("no number".to_string())).is_err());
    assert!(matches!(range_read(Ok(()), "i32"), Ok(T::I32)));
    assert_eq!(range_read(Err("x".to_string()), "i32").unwrap_err().message(), "read: x");
    assert!(range_read(Ok(()), "i99").is_err());
    let t = host(true).tags;
    assert!(needle_parsed(Some("5".to_string()), T::I32, &t, Ok(())).is_ok());
    assert!(needle_parsed(None, T::I32, &t, Err("x".to_string())).is_ok());
    assert!(needle_parsed(Some("z".to_string()), T::I32, &t, Err("x".to_string())).is_err());
}

#[test]
fn a_pointer_path_becomes_a_class() {
    let mut h = host(true);
    assert!(matches!(h.finish_from_pointer(None, None, 3), Reply::Null));
    assert!(h.project.classes.is_empty());
    let r = h.finish_from_pointer(Some("[<game.exe>+8]".to_string()), Some("P".to_string()), 3);
    assert!(matches!(r, Reply::Text(t) if t == "00000000-0000-0000-0000-000000000003"));
    assert_eq!(h.project.classes[0].name, "P");
    assert_eq!(h.project.classes[0].address_formula, "[<game.exe>+8]");
    assert_eq!(h.log.last().unwrap().text, "classes.fromPointer: created \"P\"");

    let mods = vec![module("game.exe", 0x40_0000, 0x1000)];
    let path = PathStart { base: 0x40_0010, offsets: vec![8] };
    let r = finish_pointer_scan(Ok(vec![path]), &mods).unwrap();
    assert!(matches!(r, Reply::Paths(p) if p.len() == 1 && p[0].base == 0x40_0010));
    let e = finish_pointer_scan(Err((Stage::PointerScan, "x".to_string())), &mods).unwrap_err();
    assert_eq!(e.message(), "pointer_scan: x");
}

#[test]
fn formulas_are_checked_before_they_are_set() {
    let mut h = host(true);
    answer(call(&mut h, "classes.create", vec![text("P")]));
    let bad = formula_checked(&mut h.project, "P", "0x0x1".to_string(), Err("odd".to_string()));
    assert_eq!(bad.unwrap_err().message(), "invalid address formula \"0x0x1\": odd");
    assert_eq!(h.project.classes[0].address_formula, "");
    let r = formula_checked(&mut h.project, "P", "0x10".to_string(), Ok(()));
    assert!(matches!(r, Ok(Reply::Bool(true))));
    assert_eq!(h.project.classes[0].address_formula, "0x10");
    let r = formula_checked(&mut h.project, "Q", "0x10".to_string(), Ok(()));
    assert!(matches!(r, Ok(Reply::Bool(false))));
    assert!(matches!(finish_resolve_base(Some(5)), Reply::Address(5)));
    assert!(matches!(finish_resolve_base(None), Reply::Null));
}

#[test]
fn found_fields_replace_those_of_the_class() {
    let mut h = host(true);
    answer(call(&mut h, "classes.create", vec![text("P")]));
    let id = h.project.classes[0].id;
    let field = plain_node("Int32", "x".to_string(), 4);
    let r = finish_dissect(&mut h.project, id, Ok(vec![field]));
    assert!(matches!(r, Ok(Reply::Count(1))));
    assert_eq!(h.project.classes[0].children[0].name, "x");
    let r = finish_dissect(&mut h.project, id, Err((Stage::ResolveBase, "x".to_string())));
    assert_eq!(r.unwrap_err().message(), "resolve base: x");
    assert_eq!(h.project.classes[0].children.len(), 1);
}

#[test]
fn pointers_and_exports_are_answered() {
    let mut h = host(true);
    let op = asks(call(&mut h, "mem.readPointer", vec![whole(0x10)]));
    assert!(matches!(op, HostOp::ReadPointer { addr: 0x10 }));
    assert!(matches!(finish_read_pointer(Ok(7)), Ok(Reply::Address(7))));
    assert_eq!(finish_read_pointer(Err("x".to_string())).unwrap_err().message(), "read: x");
    assert!(matches!(finish_resolve_export(Ok(Some(7))), Ok(Reply::Address(7))));
    assert!(matches!(finish_resolve_export(Ok(None)), Ok(Reply::Null)));
    assert_eq!(finish_resolve_export(Err("x".to_string())).unwrap_err().message(), "resolve: x");
}

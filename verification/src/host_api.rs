//! What scripts can call: the project, the target, the cheat table and the
//! panels, by the names of the methods.
use vstd::prelude::*;
use vstd::string::StringExecFns;

use crate::address::{hotkey_of, parse_hotkey};
use crate::class_names::{free_name, is_free_name};
use crate::cheat_table::{CheatEntry, CheatTable};
use crate::host_classes::{
    add_class, add_node, add_node_at, adds_node, adds_node_at, ask_set_formula, asks_set_formula,
    class_added, class_key, classes_dissect, dissect_step, find_class_uuid, get_class, gets_class,
    hyphenated, list_classes, lists_classes, remove_class_node,
    removes_node, resolve_base, resolve_base_step, same_project, set_node_text, set_target,
    sets_target, sets_text, uuid_text, NodeKind,
};
use crate::host_disasm::{disasm_call, disasm_called};
use crate::host_error::{quoted, quoted_text, HostError, Misuse, Stage};
use crate::host_mem::{mem_call, mem_called};
use crate::host_ops::{EntryReply, EnumReply, HostOp, HostStep, Reply};
use crate::host_proc::{asked_module, asked_module_exec, fail, pid_of, pid_of_exec, proc_call,
    proc_called, Target};
use crate::host_scan::{
    scan_call, scan_called, scan_session_reset, value_hits, value_scan, ScanCompare, ScanSession,
    VALUE_SCAN_CAP,
};
use crate::json::{
    addr_arg, addr_at, arg, arg_at, as_u64_flex, bool_of, bool_value, deref, find_member, get, index_arg, index_at, member,
    member_in, opt_arg, opt_arg_at, opt_text, opt_text_arg, str_of, str_value, text_arg, text_at,
    uint_of, unsigned_of, unsigned_value, Json, JsonKind,
};
use crate::model::{ClassNode, EnumDescription, Project};
use crate::scalar::RealReading;
use crate::scan_value::{pinned_bytes, value_text_to_bytes, ScanValueType, TypeTags};
use crate::text::{decimal, decimal_exec, same_str, says, string_of};

verus! {

/// What a script asks of the panels. It is done after the call.
#[derive(Debug)]
pub enum UiAction {
    /// Show an address in the memory view.
    GotoMemory(usize),
    /// Show an address in the disassembly.
    GotoDisasm(usize),
    /// Show a class.
    SelectClass(u128),
    /// Save the cheat table under a name.
    SaveTable(String),
    /// Load a cheat table by its name.
    LoadTable(String),
}

/// A hotkey that a script registered.
#[derive(Debug)]
pub struct HotkeyReg {
    /// The id that the script was given.
    pub id: u32,
    pub ctrl: bool,
    pub shift: bool,
    pub alt: bool,
    /// The name of the key.
    pub key: String,
}

#[derive(Clone, Copy, Debug, PartialEq, Eq, Structural)]
pub enum LogKind {
    Info,
    /// What became of the scripts and of a class that a script resolves.
    Lifecycle,
    Warn,
    Error,
}

/// A line of the script log.
#[derive(Debug)]
pub struct LogLine {
    pub kind: LogKind,
    pub text: String,
}

/// A value that a script pins in memory.
#[derive(Debug)]
pub struct ScriptFreeze {
    pub addr: usize,
    pub vt: ScanValueType,
    pub value: String,
}

/// What the caller brings into a call: an id that no class has, and what the
/// value of `mem.freeze` says as a floating-point number.
#[derive(Debug)]
pub struct CallContext {
    pub fresh: u128,
    pub reading: RealReading,
}

/// What scripts work on.
#[derive(Debug)]
pub struct UiHostApi {
    pub project: Project,
    /// The kinds of nodes that can be made.
    pub kinds: Vec<NodeKind>,
    /// The attached process.
    pub process: Option<Target>,
    pub log: Vec<LogLine>,
    /// The error that the status bar shows.
    pub last_error: Option<String>,
    pub ui_actions: Vec<UiAction>,
    pub cheat_table: CheatTable,
    pub script_hotkeys: Vec<HotkeyReg>,
    pub next_hotkey_id: u32,
    pub script_freezes: Vec<ScriptFreeze>,
    pub session: Option<ScanSession>,
    pub tags: TypeTags,
    /// The ways to compare; the first is the exact one.
    pub compares: Vec<ScanCompare>,
}

/// A line was added to the log.
pub open spec fn logged(
    was: Seq<LogLine>,
    now: Seq<LogLine>,
    kind: LogKind,
    text: Seq<char>,
) -> bool {
    &&& now.len() == was.len() + 1
    &&& now.drop_last() == was
    &&& now.last().kind == kind
    &&& now.last().text@ == text
}

fn push_log(log: &mut Vec<LogLine>, kind: LogKind, text: String)
    ensures
        logged(old(log)@, final(log)@, kind, text@),
{
    log.push(LogLine { kind, text });
    assert(log@.drop_last() =~= old(log)@);
}

fn quoted_line(head: &str, name: &str) -> (s: String)
    ensures
        s@ == head@ + quoted_text(name@),
{
    let mut s = head.to_string();
    let q = quoted(name);
    s.append(q.as_str());
    s
}

/// The place of the enum of that name.
pub open spec fn enum_index(enums: Seq<EnumDescription>, name: Seq<char>) -> Option<int>
    decreases enums.len(),
{
    if enums.len() == 0 {
        None
    } else {
        match enum_index(enums.drop_last(), name) {
            Some(i) => Some(i),
            None => if enums.last().name@ == name {
                Some(enums.len() - 1)
            } else {
                None
            },
        }
    }
}

proof fn lemma_enum_stays(enums: Seq<EnumDescription>, name: Seq<char>, n: int)
    requires
        0 <= n <= enums.len(),
        enum_index(enums.subrange(0, n), name) is Some,
    ensures
        enum_index(enums, name) == enum_index(enums.subrange(0, n), name),
    decreases enums.len() - n,
{
    if n < enums.len() {
        assert(enums.subrange(0, n + 1).drop_last() =~= enums.subrange(0, n));
        lemma_enum_stays(enums, name, n + 1);
    } else {
        assert(enums.subrange(0, n) =~= enums);
    }
}

fn find_enum(enums: &Vec<EnumDescription>, name: &str) -> (r: Option<usize>)
    ensures
        match r {
            Some(i) => i < enums@.len() && enum_index(enums@, name@) == Some(i as int),
            None => enum_index(enums@, name@) is None,
        },
{
    let mut i: usize = 0;
    while i < enums.len()
        invariant
            i <= enums@.len(),
            enum_index(enums@.subrange(0, i as int), name@) is None,
        decreases enums@.len() - i,
    {
        assert(enums@.subrange(0, i + 1).drop_last() =~= enums@.subrange(0, i as int));
        if same_str(enums[i].name.as_str(), name) {
            proof {
                lemma_enum_stays(enums@, name@, i + 1);
            }
            return Some(i);
        }
        i += 1;
    }
    assert(enums@.subrange(0, enums@.len() as int) =~= enums@);
    None
}

/// The place of the class with exactly that name.
pub open spec fn class_spelled(classes: Seq<ClassNode>, name: Seq<char>) -> Option<int>
    decreases classes.len(),
{
    if classes.len() == 0 {
        None
    } else {
        match class_spelled(classes.drop_last(), name) {
            Some(i) => Some(i),
            None => if classes.last().name@ == name {
                Some(classes.len() - 1)
            } else {
                None
            },
        }
    }
}

proof fn lemma_spelled_stays(classes: Seq<ClassNode>, name: Seq<char>, n: int)
    requires
        0 <= n <= classes.len(),
        class_spelled(classes.subrange(0, n), name) is Some,
    ensures
        class_spelled(classes, name) == class_spelled(classes.subrange(0, n), name),
    decreases classes.len() - n,
{
    if n < classes.len() {
        assert(classes.subrange(0, n + 1).drop_last() =~= classes.subrange(0, n));
        lemma_spelled_stays(classes, name, n + 1);
    } else {
        assert(classes.subrange(0, n) =~= classes);
    }
}

fn find_spelled(classes: &Vec<ClassNode>, name: &str) -> (r: Option<usize>)
    ensures
        match r {
            Some(i) => i < classes@.len() && class_spelled(classes@, name@) == Some(i as int),
            None => class_spelled(classes@, name@) is None,
        },
{
    let mut i: usize = 0;
    while i < classes.len()
        invariant
            i <= classes@.len(),
            class_spelled(classes@.subrange(0, i as int), name@) is None,
        decreases classes@.len() - i,
    {
        assert(classes@.subrange(0, i + 1).drop_last() =~= classes@.subrange(0, i as int));
        if same_str(classes[i].name.as_str(), name) {
            proof {
                lemma_spelled_stays(classes@, name@, i + 1);
            }
            return Some(i);
        }
        i += 1;
    }
    assert(classes@.subrange(0, classes@.len() as int) =~= classes@);
    None
}

/// An enum was declared: it takes the place of the one of its name, or comes
/// last.
pub open spec fn type_declared(pre: UiHostApi, post: UiHostApi, ty: EnumDescription) -> bool {
    &&& post == UiHostApi { project: post.project, log: post.log, ..pre }
    &&& post.project == Project { enums: post.project.enums, ..pre.project }
    &&& match enum_index(pre.project.enums@, ty.name@) {
        Some(i) => post.project.enums@ == pre.project.enums@.update(i, ty) && logged(
            pre.log@,
            post.log@,
            LogKind::Info,
            "declare_type: updated enum "@ + quoted_text(ty.name@),
        ),
        None => post.project.enums@ == pre.project.enums@.push(ty) && logged(
            pre.log@,
            post.log@,
            LogKind::Info,
            "declare_type: added enum "@ + quoted_text(ty.name@),
        ),
    }
}

/// The place of the first frozen value at an address.
pub open spec fn freeze_slot(freezes: Seq<ScriptFreeze>, addr: usize) -> Option<int>
    decreases freezes.len(),
{
    if freezes.len() == 0 {
        None
    } else {
        match freeze_slot(freezes.drop_last(), addr) {
            Some(i) => Some(i),
            None => if freezes.last().addr == addr {
                Some(freezes.len() - 1)
            } else {
                None
            },
        }
    }
}

proof fn lemma_slot_stays(freezes: Seq<ScriptFreeze>, addr: usize, n: int)
    requires
        0 <= n <= freezes.len(),
        freeze_slot(freezes.subrange(0, n), addr) is Some,
    ensures
        freeze_slot(freezes, addr) == freeze_slot(freezes.subrange(0, n), addr),
    decreases freezes.len() - n,
{
    if n < freezes.len() {
        assert(freezes.subrange(0, n + 1).drop_last() =~= freezes.subrange(0, n));
        lemma_slot_stays(freezes, addr, n + 1);
    } else {
        assert(freezes.subrange(0, n) =~= freezes);
    }
}

/// The frozen values with one more: in place of the one at its address, or last.
pub open spec fn with_freeze(freezes: Seq<ScriptFreeze>, f: ScriptFreeze) -> Seq<ScriptFreeze> {
    match freeze_slot(freezes, f.addr) {
        Some(i) => freezes.update(i, f),
        None => freezes.push(f),
    }
}

fn set_freeze(freezes: &mut Vec<ScriptFreeze>, f: ScriptFreeze)
    ensures
        final(freezes)@ == with_freeze(old(freezes)@, f),
{
    let mut i: usize = 0;
    let ghost all = freezes@;
    while i < freezes.len()
        invariant
            i <= freezes@.len(),
            freezes@ == all,
            all == old(freezes)@,
            freeze_slot(all.subrange(0, i as int), f.addr) is None,
        decreases freezes@.len() - i,
    {
        assert(all.subrange(0, i + 1).drop_last() =~= all.subrange(0, i as int));
        if freezes[i].addr == f.addr {
            proof {
                lemma_slot_stays(all, f.addr, i + 1);
            }
            freezes.set(i, f);
            return ;
        }
        i += 1;
    }
    assert(all.subrange(0, all.len() as int) =~= all);
    freezes.push(f);
}

/// The frozen values but for those at an address.
pub open spec fn without_freeze(freezes: Seq<ScriptFreeze>, addr: usize) -> Seq<ScriptFreeze>
    decreases freezes.len(),
{
    if freezes.len() == 0 {
        Seq::empty()
    } else if freezes.last().addr != addr {
        without_freeze(freezes.drop_last(), addr).push(freezes.last())
    } else {
        without_freeze(freezes.drop_last(), addr)
    }
}

fn drop_freezes(freezes: &mut Vec<ScriptFreeze>, addr: usize)
    ensures
        final(freezes)@ == without_freeze(old(freezes)@, addr),
{
    let ghost all = freezes@;
    let mut kept: Vec<ScriptFreeze> = Vec::new();
    let mut i: usize = 0;
    while i < freezes.len()
        invariant
            i <= freezes@.len(),
            freezes@ == all,
            kept@ == without_freeze(all.subrange(0, i as int), addr),
        decreases freezes@.len() - i,
    {
        assert(all.subrange(0, i + 1).drop_last() =~= all.subrange(0, i as int));
        if freezes[i].addr != addr {
            let f = &freezes[i];
            kept.push(ScriptFreeze { addr: f.addr, vt: f.vt, value: f.value.clone() });
        }
        i += 1;
    }
    assert(all.subrange(0, all.len() as int) =~= all);
    *freezes = kept;
}

/// The hotkeys but for those with an id.
pub open spec fn without_hotkey(keys: Seq<HotkeyReg>, id: u32) -> Seq<HotkeyReg>
    decreases keys.len(),
{
    if keys.len() == 0 {
        Seq::empty()
    } else if keys.last().id != id {
        without_hotkey(keys.drop_last(), id).push(keys.last())
    } else {
        without_hotkey(keys.drop_last(), id)
    }
}

fn drop_hotkeys(keys: &mut Vec<HotkeyReg>, id: u32)
    ensures
        final(keys)@ == without_hotkey(old(keys)@, id),
{
    let ghost all = keys@;
    let mut kept: Vec<HotkeyReg> = Vec::new();
    let mut i: usize = 0;
    while i < keys.len()
        invariant
            i <= keys@.len(),
            keys@ == all,
            kept@ == without_hotkey(all.subrange(0, i as int), id),
        decreases keys@.len() - i,
    {
        assert(all.subrange(0, i + 1).drop_last() =~= all.subrange(0, i as int));
        if keys[i].id != id {
            let h = &keys[i];
            kept.push(
                HotkeyReg {
                    id: h.id,
                    ctrl: h.ctrl,
                    shift: h.shift,
                    alt: h.alt,
                    key: h.key.clone(),
                },
            );
        }
        i += 1;
    }
    assert(all.subrange(0, all.len() as int) =~= all);
    *keys = kept;
}

/// The values that `enums.define` is given: integers, or numbers that are cast.
pub open spec fn enum_values(s: Seq<(String, Json)>) -> Result<Seq<(String, i64)>, HostError>
    decreases s.len(),
{
    if s.len() == 0 {
        Ok(Seq::empty())
    } else {
        match enum_values(s.drop_last()) {
            Err(e) => Err(e),
            Ok(p) => match enum_value(s.last().1) {
                None => Err(HostError::EnumValueNotInteger(s.last().0)),
                Some(n) => Ok(p.push((s.last().0, n))),
            },
        }
    }
}

/// The integer that a number is, or that it is cast to.
pub open spec fn enum_value(v: Json) -> Option<i64> {
    match v.kind {
        JsonKind::Number(n) => match (n.signed, n.real_parts) {
            (Some(i), _) => Some(i),
            (None, Some(f)) => Some(f.to_i64),
            (None, None) => None,
        },
        _ => None,
    }
}

fn enum_value_exec(v: &Json) -> (r: Option<i64>)
    ensures
        r == enum_value(*v),
{
    match &v.kind {
        JsonKind::Number(n) => match n.signed {
            Some(i) => Some(i),
            None => match n.real_parts {
                Some(f) => Some(f.to_i64),
                None => None,
            },
        },
        _ => None,
    }
}

proof fn lemma_enum_values_fail(s: Seq<(String, Json)>, n: int)
    requires
        0 <= n <= s.len(),
        enum_values(s.subrange(0, n)) is Err,
    ensures
        enum_values(s) == enum_values(s.subrange(0, n)),
    decreases s.len() - n,
{
    if n < s.len() {
        assert(s.subrange(0, n + 1).drop_last() =~= s.subrange(0, n));
        lemma_enum_values_fail(s, n + 1);
    } else {
        assert(s.subrange(0, n) =~= s);
    }
}

fn enum_values_exec(s: &Vec<(String, Json)>) -> (r: Result<Vec<(String, i64)>, HostError>)
    ensures
        match r {
            Ok(v) => enum_values(s@) == Ok::<Seq<(String, i64)>, HostError>(v@),
            Err(e) => enum_values(s@) == Err::<Seq<(String, i64)>, HostError>(e),
        },
{
    let mut out: Vec<(String, i64)> = Vec::new();
    let mut i: usize = 0;
    while i < s.len()
        invariant
            i <= s@.len(),
            enum_values(s@.subrange(0, i as int)) == Ok::<Seq<(String, i64)>, HostError>(out@),
        decreases s@.len() - i,
    {
        assert(s@.subrange(0, i + 1).drop_last() =~= s@.subrange(0, i as int));
        match enum_value_exec(&s[i].1) {
            Some(n) => {
                out.push((s[i].0.clone(), n));
            },
            None => {
                let e = HostError::EnumValueNotInteger(s[i].0.clone());
                proof {
                    lemma_enum_values_fail(s@, i + 1);
                }
                return Err(e);
            },
        }
        i += 1;
    }
    assert(s@.subrange(0, s@.len() as int) =~= s@);
    Ok(out)
}

/// The size and the flags that the options of `enums.define` give: 4 bytes and
/// no flags unless they say otherwise.
pub open spec fn enum_options(opts: Option<Json>) -> Result<(u8, bool), HostError> {
    let flags = match bool_of(member(opts, "flags"@)) {
        Some(b) => b,
        None => false,
    };
    match unsigned_of(member(opts, "size"@)) {
        None => Ok((4, flags)),
        Some(s) => if s == 1 || s == 2 || s == 4 || s == 8 {
            Ok((s as u8, flags))
        } else {
            Err(HostError::EnumBadSize(s))
        },
    }
}

fn enum_options_exec(opts: Option<&Json>) -> (r: Result<(u8, bool), HostError>)
    ensures
        r == enum_options(deref(opts)),
{
    let flags = match bool_value(get(opts, "flags")) {
        Some(b) => b,
        None => false,
    };
    match unsigned_value(get(opts, "size")) {
        None => Ok((4, flags)),
        Some(s) => if s == 1 || s == 2 || s == 4 || s == 8 {
            Ok((s as u8, flags))
        } else {
            Err(HostError::EnumBadSize(s))
        },
    }
}

/// An enum as it is answered.
pub open spec fn answers_enum(r: EnumReply, e: EnumDescription) -> bool {
    r.name == e.name && r.size == e.size && r.use_flags == e.use_flags && r.values@ == e.values@
}

pub fn enum_to_json(e: &EnumDescription) -> (r: EnumReply)
    ensures
        answers_enum(r, *e),
{
    let mut values: Vec<(String, i64)> = Vec::new();
    while values.len() < e.values.len()
        invariant
            values@.len() <= e.values@.len(),
            values@ == e.values@.subrange(0, values@.len() as int),
        decreases e.values@.len() - values@.len(),
    {
        let ghost before = values@;
        let i: usize = values.len();
        values.push((e.values[i].0.clone(), e.values[i].1));
        assert(values@ =~= e.values@.subrange(0, values@.len() as int));
    }
    assert(e.values@.subrange(0, e.values@.len() as int) =~= e.values@);
    EnumReply { name: e.name.clone(), size: e.size, use_flags: e.use_flags, values }
}

/// An entry of the table as it is answered.
pub open spec fn answers_entry(r: EntryReply, i: int, e: CheatEntry) -> bool {
    r.index == i && r.description == e.description && r.address == e.address && r.value_type
        == e.value_type && r.frozen == e.frozen
}

/// `mem.freeze(addr, type, value)`.
pub open spec fn freezes(
    pre: UiHostApi,
    post: UiHostApi,
    args: Json,
    reading: RealReading,
    step: HostStep,
) -> bool {
    match (addr_at(args, 0), text_at(args, 1)) {
        (Err(e), _) => post == pre && step == HostStep::Done(Err(HostError::Arg(e))),
        (Ok(_), Err(e)) => post == pre && step == HostStep::Done(Err(HostError::Arg(e))),
        (Ok(addr), Ok(ty)) => match pre.tags.of(ty@) {
            None => post == pre && step == HostStep::Done(Err(HostError::FreezeUnknownType(ty))),
            Some(vt) => match text_at(args, 2) {
                Err(e) => post == pre && step == HostStep::Done(Err(HostError::Arg(e))),
                Ok(value) => if pinned_bytes(vt, value@, reading) is None {
                    post == pre && step == HostStep::Done(
                        Err(HostError::FreezeBadValue(value, ty)),
                    )
                } else {
                    &&& post == UiHostApi { script_freezes: post.script_freezes, ..pre }
                    &&& post.script_freezes@ == with_freeze(
                        pre.script_freezes@,
                        ScriptFreeze { addr, vt, value },
                    )
                    &&& step == HostStep::Done(Ok(Reply::Bool(true)))
                },
            },
        },
    }
}

/// `mem.unfreeze(addr)`.
pub open spec fn unfreezes(pre: UiHostApi, post: UiHostApi, args: Json, step: HostStep) -> bool {
    match addr_at(args, 0) {
        Err(e) => post == pre && step == HostStep::Done(Err(HostError::Arg(e))),
        Ok(addr) => {
            &&& post == UiHostApi { script_freezes: post.script_freezes, ..pre }
            &&& post.script_freezes@ == without_freeze(pre.script_freezes@, addr)
            &&& step == HostStep::Done(
                Ok(Reply::Bool(post.script_freezes@.len() != pre.script_freezes@.len())),
            )
        },
    }
}

/// `classes.create(name?)`: a class without fields, under the name or the next
/// numbered one.
pub open spec fn creates_class(
    pre: UiHostApi,
    post: UiHostApi,
    args: Json,
    fresh: u128,
    step: HostStep,
) -> bool {
    &&& post == UiHostApi { project: post.project, log: post.log, ..pre }
    &&& step matches HostStep::Done(Ok(Reply::Text(t)))
    &&& t@ == hyphenated(fresh)
    &&& post.project.classes@.len() > 0
    &&& ({
        let name = post.project.classes@.last().name@;
        &&& match opt_text(opt_arg_at(args, 0)) {
            Some(n) => name == n@,
            None => is_free_name("Class "@, pre.project.classes@, name),
        }
        &&& class_added(pre.project, post.project, fresh, name, Seq::empty())
        &&& logged(
            pre.log@,
            post.log@,
            LogKind::Info,
            "classes.create: "@ + quoted_text(name),
        )
    })
}

/// `ui.notify(message)`: the message is logged and shown in the status bar.
pub open spec fn notifies(pre: UiHostApi, post: UiHostApi, args: Json, step: HostStep) -> bool {
    match text_at(args, 0) {
        Err(e) => post == pre && step == HostStep::Done(Err(HostError::Arg(e))),
        Ok(msg) => {
            &&& post == UiHostApi { log: post.log, last_error: post.last_error, ..pre }
            &&& logged(pre.log@, post.log@, LogKind::Info, msg@)
            &&& post.last_error == Some(msg)
            &&& step == HostStep::Done(Ok(Reply::Null))
        },
    }
}

/// An action is handed to the panels.
pub open spec fn queues(pre: UiHostApi, post: UiHostApi, action: UiAction, step: HostStep) -> bool {
    &&& post == UiHostApi { ui_actions: post.ui_actions, ..pre }
    &&& post.ui_actions@ == pre.ui_actions@.push(action)
    &&& step == HostStep::Done(Ok(Reply::Null))
}

/// `ui.selectClass(key)`.
pub open spec fn selects_class(pre: UiHostApi, post: UiHostApi, args: Json, step: HostStep) -> bool {
    match text_at(args, 0) {
        Err(e) => post == pre && step == HostStep::Done(Err(HostError::Arg(e))),
        Ok(key) => match class_key(pre.project.classes@, key@) {
            None => post == pre && step == HostStep::Done(Err(HostError::ClassNotFound(key))),
            Some(id) => queues(pre, post, UiAction::SelectClass(id), step),
        },
    }
}

/// The text of a member, or another text where it has none.
pub open spec fn member_text(s: Seq<(String, Json)>, name: Seq<char>, other: Seq<char>) -> Seq<
    char,
> {
    match str_of(member_in(s, name)) {
        Some(t) => t@,
        None => other,
    }
}

/// `table.add(entry)`.
pub open spec fn adds_entry(pre: UiHostApi, post: UiHostApi, args: Json, step: HostStep) -> bool {
    match arg_at(args, 0) {
        Err(e) => post == pre && step == HostStep::Done(Err(HostError::Arg(e))),
        Ok(v) => match v.kind {
            JsonKind::Record(s) => {
                let entries = post.cheat_table.entries@;
                &&& post == UiHostApi { cheat_table: post.cheat_table, ..pre }
                &&& post.cheat_table.name == pre.cheat_table.name
                &&& entries.len() == pre.cheat_table.entries@.len() + 1
                &&& entries.drop_last() == pre.cheat_table.entries@
                &&& entries.last().description@ == member_text(s@, "description"@, ""@)
                &&& entries.last().address@ == member_text(s@, "address"@, ""@)
                &&& entries.last().value_type@ == member_text(s@, "type"@, "i32"@)
                &&& entries.last().frozen == match bool_of(member_in(s@, "frozen"@)) {
                    Some(b) => b,
                    None => false,
                }
                &&& entries.last().frozen_value@ == member_text(s@, "value"@, ""@)
                &&& entries.last().group@ == Seq::<char>::empty()
                &&& step == HostStep::Done(
                    Ok(Reply::Index(pre.cheat_table.entries@.len() as usize)),
                )
            },
            _ => post == pre && step == HostStep::Done(
                Err(HostError::Misuse(Misuse::TableAddNeedsObject)),
            ),
        },
    }
}

/// `table.list()`.
pub open spec fn lists_entries(pre: UiHostApi, step: HostStep) -> bool {
    step matches HostStep::Done(Ok(Reply::Entries(out))) && out@.len()
        == pre.cheat_table.entries@.len() && forall|i: int|
        0 <= i < out@.len() ==> answers_entry(#[trigger] out@[i], i, pre.cheat_table.entries@[i])
}

/// `table.remove(index)`.
pub open spec fn removes_entry(pre: UiHostApi, post: UiHostApi, args: Json, step: HostStep) -> bool {
    match index_at(args, 0) {
        Err(e) => post == pre && step == HostStep::Done(Err(HostError::Arg(e))),
        Ok(i) => {
            let there = i < pre.cheat_table.entries@.len();
            &&& step == HostStep::Done(Ok(Reply::Bool(there)))
            &&& post == UiHostApi { cheat_table: post.cheat_table, ..pre }
            &&& post.cheat_table.name == pre.cheat_table.name
            &&& post.cheat_table.entries@ == if there {
                pre.cheat_table.entries@.remove(i as int)
            } else {
                pre.cheat_table.entries@
            }
        },
    }
}

/// `table.freeze(index, value?)`, and `table.unfreeze(index)` where `frozen` does
/// not hold.
pub open spec fn sets_frozen(
    pre: UiHostApi,
    post: UiHostApi,
    args: Json,
    frozen: bool,
    step: HostStep,
) -> bool {
    match index_at(args, 0) {
        Err(e) => post == pre && step == HostStep::Done(Err(HostError::Arg(e))),
        Ok(i) => {
            let there = i < pre.cheat_table.entries@.len();
            let e = pre.cheat_table.entries@[i as int];
            let value = opt_text(opt_arg_at(args, 1));
            &&& step == HostStep::Done(Ok(Reply::Bool(there)))
            &&& post == UiHostApi { cheat_table: post.cheat_table, ..pre }
            &&& post.cheat_table.name == pre.cheat_table.name
            &&& post.cheat_table.entries@ == if there {
                pre.cheat_table.entries@.update(
                    i as int,
                    if frozen && value is Some {
                        CheatEntry { frozen: true, frozen_value: value->0, ..e }
                    } else {
                        CheatEntry { frozen, ..e }
                    },
                )
            } else {
                pre.cheat_table.entries@
            }
        },
    }
}

/// `enums.define(name, values, opts?)`.
pub open spec fn defines_enum(pre: UiHostApi, post: UiHostApi, args: Json, step: HostStep) -> bool {
    match (text_at(args, 0), arg_at(args, 1)) {
        (Err(e), _) => post == pre && step == HostStep::Done(Err(HostError::Arg(e))),
        (Ok(_), Err(e)) => post == pre && step == HostStep::Done(Err(HostError::Arg(e))),
        (Ok(name), Ok(v)) => match v.kind {
            JsonKind::Record(s) => match enum_values(s@) {
                Err(e) => post == pre && step == HostStep::Done(Err(e)),
                Ok(values) => match enum_options(opt_arg_at(args, 2)) {
                    Err(e) => post == pre && step == HostStep::Done(Err(e)),
                    Ok((size, flags)) => {
                        &&& step == HostStep::Done(Ok(Reply::Bool(true)))
                        &&& exists|ty: EnumDescription|
                            ty.name == name && ty.size == size && ty.use_flags == flags
                                && ty.values@ == values && #[trigger] type_declared(pre, post, ty)
                    },
                },
            },
            _ => post == pre && step == HostStep::Done(
                Err(HostError::Misuse(Misuse::EnumValuesNeedObject)),
            ),
        },
    }
}

/// `enums.list()`.
pub open spec fn lists_enums(pre: UiHostApi, step: HostStep) -> bool {
    step matches HostStep::Done(Ok(Reply::Enums(out))) && out@.len() == pre.project.enums@.len()
        && forall|i: int|
        0 <= i < out@.len() ==> answers_enum(#[trigger] out@[i], pre.project.enums@[i])
}

/// `enums.get(name)`.
pub open spec fn gets_enum(pre: UiHostApi, args: Json, step: HostStep) -> bool {
    match text_at(args, 0) {
        Err(e) => step == HostStep::Done(Err(HostError::Arg(e))),
        Ok(name) => match enum_index(pre.project.enums@, name@) {
            None => step == HostStep::Done(Ok(Reply::Null)),
            Some(i) => step matches HostStep::Done(Ok(Reply::Enum(r))) && answers_enum(
                r,
                pre.project.enums@[i],
            ),
        },
    }
}

/// `hotkeys.register(combo)`.
pub open spec fn registers(pre: UiHostApi, post: UiHostApi, args: Json, step: HostStep) -> bool {
    match text_at(args, 0) {
        Err(e) => post == pre && step == HostStep::Done(Err(HostError::Arg(e))),
        Ok(combo) => match hotkey_of(combo@) {
            None => post == pre && step == HostStep::Done(Err(HostError::BadCombo(combo))),
            Some(h) => {
                let keys = post.script_hotkeys@;
                &&& post == UiHostApi {
                    script_hotkeys: post.script_hotkeys,
                    next_hotkey_id: post.next_hotkey_id,
                    ..pre
                }
                &&& post.next_hotkey_id == pre.next_hotkey_id.wrapping_add(1)
                &&& keys.len() == pre.script_hotkeys@.len() + 1
                &&& keys.drop_last() == pre.script_hotkeys@
                &&& keys.last().id == pre.next_hotkey_id
                &&& keys.last().ctrl == h.ctrl
                &&& keys.last().shift == h.shift
                &&& keys.last().alt == h.alt
                &&& h.key == Some(keys.last().key@)
                &&& step == HostStep::Done(Ok(Reply::HotkeyId(pre.next_hotkey_id)))
            },
        },
    }
}

/// `hotkeys.unregister(id)`: the low 32 bits of the number count.
pub open spec fn unregisters(pre: UiHostApi, post: UiHostApi, args: Json, step: HostStep) -> bool {
    match arg_at(args, 0) {
        Err(e) => post == pre && step == HostStep::Done(Err(HostError::Arg(e))),
        Ok(v) => match uint_of(v) {
            Err(e) => post == pre && step == HostStep::Done(Err(HostError::Arg(e))),
            Ok(n) => {
                &&& post == UiHostApi { script_hotkeys: post.script_hotkeys, ..pre }
                &&& post.script_hotkeys@ == without_hotkey(
                    pre.script_hotkeys@,
                    (n % 0x1_0000_0000) as u32,
                )
                &&& step == HostStep::Done(
                    Ok(Reply::Bool(post.script_hotkeys@.len() != pre.script_hotkeys@.len())),
                )
            },
        },
    }
}

/// A method on the project changes nothing else.
pub open spec fn on_project(pre: UiHostApi, post: UiHostApi) -> bool {
    post == UiHostApi { project: post.project, ..pre }
}

/// What the methods do that read or change what the application holds.
pub open spec fn state_called(
    pre: UiHostApi,
    post: UiHostApi,
    method: Seq<char>,
    args: Json,
    ctx: CallContext,
    step: HostStep,
) -> bool {
    let classes = pre.project.classes@;
    if method == "mem.freeze"@ {
        freezes(pre, post, args, ctx.reading, step)
    } else if method == "mem.unfreeze"@ {
        unfreezes(pre, post, args, step)
    } else if method == "scan.reset"@ {
        post == UiHostApi { session: None, ..pre } && step == HostStep::Done(
            Ok(Reply::Bool(pre.session is Some)),
        )
    } else if method == "classes.list"@ {
        post == pre && (step matches HostStep::Done(Ok(Reply::Classes(out))) && lists_classes(
            classes,
            out@,
        ))
    } else if method == "classes.create"@ {
        creates_class(pre, post, args, ctx.fresh, step)
    } else if method == "classes.get"@ {
        post == pre && gets_class(args, classes, step)
    } else if method == "classes.setFormula"@ {
        on_project(pre, post) && asks_set_formula(args, pre.project, post.project, step)
    } else if method == "classes.addNode"@ {
        on_project(pre, post) && adds_node(args, pre.kinds@, pre.project, post.project, step)
    } else if method == "classes.addNodeAt"@ {
        on_project(pre, post) && adds_node_at(args, pre.kinds@, pre.project, post.project, step)
    } else if method == "classes.setPointerTarget"@ {
        on_project(pre, post) && sets_target(args, pre.project, post.project, step)
    } else if method == "classes.removeNode"@ {
        on_project(pre, post) && removes_node(args, pre.project, post.project, step)
    } else if method == "classes.setNodeName"@ {
        on_project(pre, post) && sets_text(args, false, pre.project, post.project, step)
    } else if method == "classes.setNodeComment"@ {
        on_project(pre, post) && sets_text(args, true, pre.project, post.project, step)
    } else if method == "classes.resolveBase"@ {
        post == pre && step == resolve_base_step(args, classes, pre.process)
    } else if method == "classes.dissect"@ {
        post == pre && step == dissect_step(args, classes, pre.process)
    } else if method == "ui.notify"@ {
        notifies(pre, post, args, step)
    } else if method == "ui.gotoMemory"@ {
        match addr_at(args, 0) {
            Err(e) => post == pre && step == HostStep::Done(Err(HostError::Arg(e))),
            Ok(a) => queues(pre, post, UiAction::GotoMemory(a), step),
        }
    } else if method == "ui.gotoDisasm"@ {
        match addr_at(args, 0) {
            Err(e) => post == pre && step == HostStep::Done(Err(HostError::Arg(e))),
            Ok(a) => queues(pre, post, UiAction::GotoDisasm(a), step),
        }
    } else if method == "ui.selectClass"@ {
        selects_class(pre, post, args, step)
    } else if method == "table.add"@ {
        adds_entry(pre, post, args, step)
    } else if method == "table.list"@ {
        post == pre && lists_entries(pre, step)
    } else if method == "table.remove"@ {
        removes_entry(pre, post, args, step)
    } else if method == "table.freeze"@ {
        sets_frozen(pre, post, args, true, step)
    } else if method == "table.unfreeze"@ {
        sets_frozen(pre, post, args, false, step)
    } else if method == "table.save"@ {
        match text_at(args, 0) {
            Err(e) => post == pre && step == HostStep::Done(Err(HostError::Arg(e))),
            Ok(n) => queues(pre, post, UiAction::SaveTable(n), step),
        }
    } else if method == "table.load"@ {
        match text_at(args, 0) {
            Err(e) => post == pre && step == HostStep::Done(Err(HostError::Arg(e))),
            Ok(n) => queues(pre, post, UiAction::LoadTable(n), step),
        }
    } else if method == "enums.define"@ {
        defines_enum(pre, post, args, step)
    } else if method == "enums.list"@ {
        post == pre && lists_enums(pre, step)
    } else if method == "enums.get"@ {
        post == pre && gets_enum(pre, args, step)
    } else if method == "hotkeys.register"@ {
        registers(pre, post, args, step)
    } else if method == "hotkeys.unregister"@ {
        unregisters(pre, post, args, step)
    } else {
        post == pre && (step matches HostStep::Done(Err(HostError::UnknownMethod(m))) && m@
            == method)
    }
}

/// What a call does: the methods on the target, or else those on what the
/// application holds. A method that is none of them is an error.
pub open spec fn called(
    pre: UiHostApi,
    post: UiHostApi,
    method: Seq<char>,
    args: Json,
    ctx: CallContext,
    step: HostStep,
) -> bool {
    let pid = pid_of(pre.process);
    if !mem_called(method, args, pid, pre.tags, None) {
        post == pre && mem_called(method, args, pid, pre.tags, Some(step))
    } else if !proc_called(method, args, pre.process, None) {
        post == pre && proc_called(method, args, pre.process, Some(step))
    } else if !scan_called(
        method,
        args,
        pre.process,
        pre.tags,
        pre.compares@,
        pre.session,
        None,
    ) {
        post == pre && scan_called(
            method,
            args,
            pre.process,
            pre.tags,
            pre.compares@,
            pre.session,
            Some(step),
        )
    } else if !disasm_called(method, args, pre.process, None) {
        post == pre && disasm_called(method, args, pre.process, Some(step))
    } else {
        state_called(pre, post, method, args, ctx, step)
    }
}

impl UiHostApi {
    /// There is a way to compare, and room for another class.
    pub open spec fn wf(&self) -> bool {
        self.compares@.len() > 0 && self.project.classes@.len() < usize::MAX
    }

    /// Scans a module for a pattern: where to look, or why not.
    pub fn pattern_scan(&self, module: String, pattern: String) -> (step: HostStep)
        ensures
            step == match asked_module(self.process, Some(module)) {
                Err(e) => HostStep::Done(Err::<Reply, HostError>(e)),
                Ok(m) => HostStep::Ask(
                    HostOp::PatternScan { base: m.base, size: m.size, pattern },
                ),
            },
    {
        match asked_module_exec(&self.process, Some(module)) {
            Err(e) => fail(e),
            Ok(m) => HostStep::Ask(
                HostOp::PatternScan { base: m.base, size: m.size, pattern },
            ),
        }
    }

    /// Logs how many hits a pattern had.
    pub fn pattern_scanned(&mut self, module: &str, pattern: &str, hits: usize)
        ensures
            *final(self) == (UiHostApi { log: final(self).log, ..*old(self) }),
            logged(
                old(self).log@,
                final(self).log@,
                LogKind::Info,
                "pattern_scan("@ + quoted_text(module@) + ", "@ + quoted_text(pattern@) + "): "@
                    + decimal(hits as nat) + " hit(s)"@,
            ),
    {
        let mut s = quoted_line("pattern_scan(", module);
        s.append(", ");
        let q = quoted(pattern);
        s.append(q.as_str());
        s.append("): ");
        let n = string_of(decimal_exec(hits as u64).as_slice());
        s.append(n.as_str());
        s.append(" hit(s)");
        push_log(&mut self.log, LogKind::Info, s);
    }

    /// Declares an enum: it takes the place of the one of its name, or comes
    /// last.
    pub fn declare_type(&mut self, ty: EnumDescription)
        ensures
            type_declared(*old(self), *final(self), ty),
    {
        match find_enum(&self.project.enums, ty.name.as_str()) {
            Some(i) => {
                let line = quoted_line("declare_type: updated enum ", ty.name.as_str());
                self.project.enums.set(i, ty);
                push_log(&mut self.log, LogKind::Info, line);
            },
            None => {
                let line = quoted_line("declare_type: added enum ", ty.name.as_str());
                self.project.enums.push(ty);
                push_log(&mut self.log, LogKind::Info, line);
            },
        }
    }

    /// Declares a class: a class of exactly that name gets the formula, else one
    /// is added.
    pub fn declare_class(&mut self, name: String, formula: String, fresh: u128)
        ensures
            *final(self) == (UiHostApi {
                project: final(self).project,
                log: final(self).log,
                ..*old(self)
            }),
            match class_spelled(old(self).project.classes@, name@) {
                Some(i) => {
                    &&& same_project(old(self).project, final(self).project)
                    &&& final(self).project.classes@ == old(self).project.classes@.update(
                        i,
                        ClassNode { address_formula: formula, ..old(self).project.classes@[i] },
                    )
                    &&& logged(
                        old(self).log@,
                        final(self).log@,
                        LogKind::Info,
                        "declare_class: updated formula for "@ + quoted_text(name@),
                    )
                },
                None => {
                    &&& class_added(
                        old(self).project,
                        final(self).project,
                        fresh,
                        name@,
                        formula@,
                    )
                    &&& logged(
                        old(self).log@,
                        final(self).log@,
                        LogKind::Info,
                        "declare_class: added class "@ + quoted_text(name@),
                    )
                },
            },
    {
        match find_spelled(&self.project.classes, name.as_str()) {
            Some(i) => {
                let c = &mut self.project.classes[i];
                c.address_formula = formula;
                push_log(
                    &mut self.log,
                    LogKind::Info,
                    quoted_line("declare_class: updated formula for ", name.as_str()),
                );
            },
            None => {
                let line = quoted_line("declare_class: added class ", name.as_str());
                add_class(&mut self.project, fresh, name, formula);
                push_log(&mut self.log, LogKind::Info, line);
            },
        }
    }

    /// Logs a line of a script. The first error is shown in the status bar.
    pub fn log(&mut self, kind: LogKind, msg: String)
        ensures
            *final(self) == (UiHostApi {
                log: final(self).log,
                last_error: final(self).last_error,
                ..*old(self)
            }),
            logged(old(self).log@, final(self).log@, kind, msg@),
            final(self).last_error == if kind == LogKind::Error && old(self).last_error is None {
                Some(msg)
            } else {
                old(self).last_error
            },
    {
        push_log(&mut self.log, kind, msg.clone());
        if kind == LogKind::Error && self.last_error.is_none() {
            self.last_error = Some(msg);
        }
    }
}

fn done(r: Reply) -> (s: HostStep)
    ensures
        s == HostStep::Done(Ok::<Reply, HostError>(r)),
{
    HostStep::Done(Ok(r))
}

impl UiHostApi {
    fn freeze(&mut self, args: &Json, reading: &RealReading) -> (step: HostStep)
        ensures
            freezes(*old(self), *final(self), *args, *reading, step),
    {
        let addr: usize = match addr_arg(args, 0) {
            Ok(a) => a,
            Err(e) => return fail(HostError::Arg(e)),
        };
        let ty = match text_arg(args, 1) {
            Ok(t) => t,
            Err(e) => return fail(HostError::Arg(e)),
        };
        let vt = match self.tags.from_tag(ty.as_str()) {
            Some(vt) => vt,
            None => return fail(HostError::FreezeUnknownType(ty)),
        };
        let value = match text_arg(args, 2) {
            Ok(t) => t,
            Err(e) => return fail(HostError::Arg(e)),
        };
        if value_text_to_bytes(vt, value.as_str(), reading).is_none() {
            return fail(HostError::FreezeBadValue(value, ty));
        }
        set_freeze(&mut self.script_freezes, ScriptFreeze { addr, vt, value });
        done(Reply::Bool(true))
    }

    fn unfreeze(&mut self, args: &Json) -> (step: HostStep)
        ensures
            unfreezes(*old(self), *final(self), *args, step),
    {
        let addr: usize = match addr_arg(args, 0) {
            Ok(a) => a,
            Err(e) => return fail(HostError::Arg(e)),
        };
        let before: usize = self.script_freezes.len();
        drop_freezes(&mut self.script_freezes, addr);
        done(Reply::Bool(self.script_freezes.len() != before))
    }

    fn create_class(&mut self, args: &Json, fresh: u128) -> (step: HostStep)
        requires
            old(self).project.classes@.len() < usize::MAX,
        ensures
            creates_class(*old(self), *final(self), *args, fresh, step),
    {
        let name = match opt_text_arg(opt_arg(args, 0)) {
            Some(n) => n,
            None => free_name("Class ", &self.project.classes),
        };
        let line = quoted_line("classes.create: ", name.as_str());
        add_class(&mut self.project, fresh, name, String::new());
        push_log(&mut self.log, LogKind::Info, line);
        done(Reply::Text(uuid_text(fresh)))
    }

    fn notify(&mut self, args: &Json) -> (step: HostStep)
        ensures
            notifies(*old(self), *final(self), *args, step),
    {
        let msg = match text_arg(args, 0) {
            Ok(t) => t,
            Err(e) => return fail(HostError::Arg(e)),
        };
        push_log(&mut self.log, LogKind::Info, msg.clone());
        self.last_error = Some(msg);
        done(Reply::Null)
    }

    fn queue(&mut self, action: UiAction) -> (step: HostStep)
        ensures
            queues(*old(self), *final(self), action, step),
    {
        self.ui_actions.push(action);
        done(Reply::Null)
    }

    fn select_class(&mut self, args: &Json) -> (step: HostStep)
        ensures
            selects_class(*old(self), *final(self), *args, step),
    {
        let key = match text_arg(args, 0) {
            Ok(t) => t,
            Err(e) => return fail(HostError::Arg(e)),
        };
        match find_class_uuid(&self.project.classes, key.as_str()) {
            None => fail(HostError::ClassNotFound(key)),
            Some(id) => self.queue(UiAction::SelectClass(id)),
        }
    }

    fn add_entry(&mut self, args: &Json) -> (step: HostStep)
        ensures
            adds_entry(*old(self), *final(self), *args, step),
    {
        let v = match arg(args, 0) {
            Ok(v) => v,
            Err(e) => return fail(HostError::Arg(e)),
        };
        let s = match &v.kind {
            JsonKind::Record(s) => s,
            _ => return fail(HostError::Misuse(Misuse::TableAddNeedsObject)),
        };
        let description = member_text_exec(s, "description", "");
        let address = member_text_exec(s, "address", "");
        let value_type = member_text_exec(s, "type", "i32");
        let frozen = match bool_value(find_member(s, "frozen")) {
            Some(b) => b,
            None => false,
        };
        let frozen_value = member_text_exec(s, "value", "");
        let index: usize = self.cheat_table.entries.len();
        self.cheat_table.push(
            CheatEntry {
                description,
                address,
                value_type,
                frozen,
                frozen_value,
                group: String::new(),
            },
        );
        assert(self.cheat_table.entries@.drop_last() =~= old(self).cheat_table.entries@);
        done(Reply::Index(index))
    }

    fn list_entries(&self) -> (step: HostStep)
        ensures
            lists_entries(*self, step),
    {
        let mut out: Vec<EntryReply> = Vec::new();
        while out.len() < self.cheat_table.entries.len()
            invariant
                out@.len() <= self.cheat_table.entries@.len(),
                forall|i: int|
                    0 <= i < out@.len() ==> answers_entry(
                        #[trigger] out@[i],
                        i,
                        self.cheat_table.entries@[i],
                    ),
            decreases self.cheat_table.entries@.len() - out@.len(),
        {
            let i: usize = out.len();
            let e = &self.cheat_table.entries[i];
            out.push(
                EntryReply {
                    index: i,
                    description: e.description.clone(),
                    address: e.address.clone(),
                    value_type: e.value_type.clone(),
                    frozen: e.frozen,
                },
            );
        }
        done(Reply::Entries(out))
    }

    fn remove_entry(&mut self, args: &Json) -> (step: HostStep)
        ensures
            removes_entry(*old(self), *final(self), *args, step),
    {
        let i: usize = match index_arg(args, 0) {
            Ok(i) => i,
            Err(e) => return fail(HostError::Arg(e)),
        };
        let r = self.cheat_table.remove(i);
        done(Reply::Bool(r.is_some()))
    }

    fn set_frozen(&mut self, args: &Json, frozen: bool) -> (step: HostStep)
        ensures
            sets_frozen(*old(self), *final(self), *args, frozen, step),
    {
        let i: usize = match index_arg(args, 0) {
            Ok(i) => i,
            Err(e) => return fail(HostError::Arg(e)),
        };
        let value = opt_text_arg(opt_arg(args, 1));
        if i >= self.cheat_table.entries.len() {
            return done(Reply::Bool(false));
        }
        let mut e = self.cheat_table.entries[i].clone();
        e.frozen = frozen;
        if frozen {
            if let Some(v) = value {
                e.frozen_value = v;
            }
        }
        self.cheat_table.entries.set(i, e);
        done(Reply::Bool(true))
    }

    fn define_enum(&mut self, args: &Json) -> (step: HostStep)
        ensures
            defines_enum(*old(self), *final(self), *args, step),
    {
        let name = match text_arg(args, 0) {
            Ok(t) => t,
            Err(e) => return fail(HostError::Arg(e)),
        };
        let v = match arg(args, 1) {
            Ok(v) => v,
            Err(e) => return fail(HostError::Arg(e)),
        };
        let s = match &v.kind {
            JsonKind::Record(s) => s,
            _ => return fail(HostError::Misuse(Misuse::EnumValuesNeedObject)),
        };
        let values = match enum_values_exec(s) {
            Ok(v) => v,
            Err(e) => return fail(e),
        };
        let (size, use_flags) = match enum_options_exec(opt_arg(args, 2)) {
            Ok(p) => p,
            Err(e) => return fail(e),
        };
        let ty = EnumDescription { name, size, use_flags, values };
        let ghost declared = ty;
        self.declare_type(ty);
        assert(type_declared(*old(self), *self, declared));
        done(Reply::Bool(true))
    }

    fn list_enums(&self) -> (step: HostStep)
        ensures
            lists_enums(*self, step),
    {
        let mut out: Vec<EnumReply> = Vec::new();
        while out.len() < self.project.enums.len()
            invariant
                out@.len() <= self.project.enums@.len(),
                forall|i: int|
                    0 <= i < out@.len() ==> answers_enum(
                        #[trigger] out@[i],
                        self.project.enums@[i],
                    ),
            decreases self.project.enums@.len() - out@.len(),
        {
            let i: usize = out.len();
            out.push(enum_to_json(&self.project.enums[i]));
        }
        done(Reply::Enums(out))
    }

    fn get_enum(&self, args: &Json) -> (step: HostStep)
        ensures
            gets_enum(*self, *args, step),
    {
        let name = match text_arg(args, 0) {
            Ok(t) => t,
            Err(e) => return fail(HostError::Arg(e)),
        };
        match find_enum(&self.project.enums, name.as_str()) {
            None => done(Reply::Null),
            Some(i) => done(Reply::Enum(enum_to_json(&self.project.enums[i]))),
        }
    }

    fn register(&mut self, args: &Json) -> (step: HostStep)
        ensures
            registers(*old(self), *final(self), *args, step),
    {
        let combo = match text_arg(args, 0) {
            Ok(t) => t,
            Err(e) => return fail(HostError::Arg(e)),
        };
        let h = match parse_hotkey(combo.as_str()) {
            Some(h) => h,
            None => return fail(HostError::BadCombo(combo)),
        };
        let key = match h.key {
            Some(k) => k,
            None => return fail(HostError::BadCombo(combo)),
        };
        let id: u32 = self.next_hotkey_id;
        self.next_hotkey_id = id.wrapping_add(1);
        self.script_hotkeys.push(
            HotkeyReg { id, ctrl: h.ctrl, shift: h.shift, alt: h.alt, key },
        );
        assert(self.script_hotkeys@.drop_last() =~= old(self).script_hotkeys@);
        done(Reply::HotkeyId(id))
    }

    fn unregister(&mut self, args: &Json) -> (step: HostStep)
        ensures
            unregisters(*old(self), *final(self), *args, step),
    {
        let v = match arg(args, 0) {
            Ok(v) => v,
            Err(e) => return fail(HostError::Arg(e)),
        };
        let n: u64 = match as_u64_flex(v) {
            Ok(n) => n,
            Err(e) => return fail(HostError::Arg(e)),
        };
        let before: usize = self.script_hotkeys.len();
        drop_hotkeys(&mut self.script_hotkeys, (n % 0x1_0000_0000) as u32);
        done(Reply::Bool(self.script_hotkeys.len() != before))
    }

    #[verifier::rlimit(40)]
    fn state_call(&mut self, method: &str, args: &Json, ctx: &CallContext) -> (step: HostStep)
        requires
            old(self).project.classes@.len() < usize::MAX,
        ensures
            state_called(*old(self), *final(self), method@, *args, *ctx, step),
    {
        if same_str(method, "mem.freeze") {
            return self.freeze(args, &ctx.reading);
        }
        if same_str(method, "mem.unfreeze") {
            return self.unfreeze(args);
        }
        if same_str(method, "scan.reset") {
            return scan_session_reset(&mut self.session);
        }
        if same_str(method, "classes.list") {
            return done(Reply::Classes(list_classes(&self.project)));
        }
        if same_str(method, "classes.create") {
            return self.create_class(args, ctx.fresh);
        }
        if same_str(method, "classes.get") {
            return get_class(args, &self.project);
        }
        if same_str(method, "classes.setFormula") {
            return ask_set_formula(args, &mut self.project);
        }
        if same_str(method, "classes.addNode") {
            return add_node(args, &self.kinds, &mut self.project);
        }
        if same_str(method, "classes.addNodeAt") {
            return add_node_at(args, &self.kinds, &mut self.project);
        }
        if same_str(method, "classes.setPointerTarget") {
            return set_target(args, &mut self.project);
        }
        if same_str(method, "classes.removeNode") {
            return remove_class_node(args, &mut self.project);
        }
        if same_str(method, "classes.setNodeName") {
            return set_node_text(args, false, &mut self.project);
        }
        if same_str(method, "classes.setNodeComment") {
            return set_node_text(args, true, &mut self.project);
        }
        if same_str(method, "classes.resolveBase") {
            return resolve_base(args, &self.project, &self.process);
        }
        if same_str(method, "classes.dissect") {
            return classes_dissect(args, &self.project, &self.process);
        }
        if same_str(method, "ui.notify") {
            return self.notify(args);
        }
        if same_str(method, "ui.gotoMemory") {
            return match addr_arg(args, 0) {
                Ok(a) => self.queue(UiAction::GotoMemory(a)),
                Err(e) => fail(HostError::Arg(e)),
            };
        }
        if same_str(method, "ui.gotoDisasm") {
            return match addr_arg(args, 0) {
                Ok(a) => self.queue(UiAction::GotoDisasm(a)),
                Err(e) => fail(HostError::Arg(e)),
            };
        }
        if same_str(method, "ui.selectClass") {
            return self.select_class(args);
        }
        if same_str(method, "table.add") {
            return self.add_entry(args);
        }
        if same_str(method, "table.list") {
            return self.list_entries();
        }
        if same_str(method, "table.remove") {
            return self.remove_entry(args);
        }
        if same_str(method, "table.freeze") {
            return self.set_frozen(args, true);
        }
        if same_str(method, "table.unfreeze") {
            return self.set_frozen(args, false);
        }
        if same_str(method, "table.save") {
            return match text_arg(args, 0) {
                Ok(n) => self.queue(UiAction::SaveTable(n)),
                Err(e) => fail(HostError::Arg(e)),
            };
        }
        if same_str(method, "table.load") {
            return match text_arg(args, 0) {
                Ok(n) => self.queue(UiAction::LoadTable(n)),
                Err(e) => fail(HostError::Arg(e)),
            };
        }
        if same_str(method, "enums.define") {
            return self.define_enum(args);
        }
        if same_str(method, "enums.list") {
            return self.list_enums();
        }
        if same_str(method, "enums.get") {
            return self.get_enum(args);
        }
        if same_str(method, "hotkeys.register") {
            return self.register(args);
        }
        if same_str(method, "hotkeys.unregister") {
            return self.unregister(args);
        }
        fail(HostError::UnknownMethod(method.to_string()))
    }

    /// Calls a method by its name. The call is answered, or says what it needs of
    /// the target before it can be.
    #[verifier::rlimit(40)]
    pub fn call(&mut self, method: &str, args: &Json, ctx: &CallContext) -> (step: HostStep)
        requires
            old(self).wf(),
        ensures
            called(*old(self), *final(self), method@, *args, *ctx, step),
    {
        let pid = pid_of_exec(&self.process);
        match mem_call(method, args, pid, &self.tags) {
            Some(s) => return s,
            None => {},
        }
        match proc_call(method, args, &self.process) {
            Some(s) => return s,
            None => {},
        }
        match scan_call(
            method,
            args,
            &self.process,
            &self.tags,
            &self.compares,
            &self.session,
        ) {
            Some(s) => return s,
            None => {},
        }
        match disasm_call(method, args, &self.process) {
            Some(s) => return s,
            None => {},
        }
        self.state_call(method, args, ctx)
    }

    /// Answers `classes.fromPointer`: a class of the first path's formula, or null
    /// where there was no path.
    pub fn finish_from_pointer(
        &mut self,
        formula: Option<String>,
        name: Option<String>,
        fresh: u128,
    ) -> (r: Reply)
        requires
            old(self).project.classes@.len() < usize::MAX,
        ensures
            match formula {
                None => *final(self) == *old(self) && r == Reply::Null,
                Some(f) => {
                    let added = final(self).project.classes@.last().name@;
                    &&& *final(self) == (UiHostApi {
                        project: final(self).project,
                        log: final(self).log,
                        ..*old(self)
                    })
                    &&& match name {
                        Some(n) => added == n@,
                        None => is_free_name("Class "@, old(self).project.classes@, added),
                    }
                    &&& class_added(
                        old(self).project,
                        final(self).project,
                        fresh,
                        added,
                        f@,
                    )
                    &&& logged(
                        old(self).log@,
                        final(self).log@,
                        LogKind::Info,
                        "classes.fromPointer: created "@ + quoted_text(added),
                    )
                    &&& r matches Reply::Text(t)
                    &&& t@ == hyphenated(fresh)
                },
            },
    {
        let f = match formula {
            Some(f) => f,
            None => return Reply::Null,
        };
        let name = match name {
            Some(n) => n,
            None => free_name("Class ", &self.project.classes),
        };
        let line = quoted_line("classes.fromPointer: created ", name.as_str());
        add_class(&mut self.project, fresh, name, f);
        push_log(&mut self.log, LogKind::Info, line);
        Reply::Text(uuid_text(fresh))
    }

    /// Answers `scan.value` and `scan.range`. `matched` says for each offset
    /// whether the value stands there. A scan that is cut short is logged.
    pub fn finish_value_scan(&mut self, base: usize, matched: Result<Vec<bool>, String>) -> (r:
        Result<Reply, HostError>)
        ensures
            *final(self) == (UiHostApi { log: final(self).log, ..*old(self) }),
            match matched {
                Err(e) => final(self).log == old(self).log && r == Err::<Reply, HostError>(
                    HostError::Failed(Stage::Needle, e),
                ),
                Ok(m) => {
                    &&& r matches Ok(Reply::Addresses(hits))
                    &&& hits@ == value_hits(base, m@)
                    &&& if hits@.len() >= VALUE_SCAN_CAP {
                        logged(
                            old(self).log@,
                            final(self).log@,
                            LogKind::Warn,
                            "scan.value: truncated at "@ + decimal(VALUE_SCAN_CAP as nat)
                                + " hits"@,
                        )
                    } else {
                        final(self).log == old(self).log
                    }
                },
            },
    {
        match matched {
            Err(e) => Err(HostError::Failed(Stage::Needle, e)),
            Ok(m) => {
                let (hits, cut) = value_scan(base, &m);
                if cut {
                    let mut s = "scan.value: truncated at ".to_string();
                    let n = string_of(decimal_exec(VALUE_SCAN_CAP as u64).as_slice());
                    s.append(n.as_str());
                    s.append(" hits");
                    push_log(&mut self.log, LogKind::Warn, s);
                }
                Ok(Reply::Addresses(hits))
            },
        }
    }
}

fn member_text_exec(s: &Vec<(String, Json)>, name: &str, other: &str) -> (t: String)
    ensures
        t@ == member_text(s@, name@, other@),
{
    match str_value(find_member(s, name)) {
        Some(t) => t,
        None => other.to_string(),
    }
}

/// A method is one of those that only read or write the target, scan it or
/// disassemble it.
pub open spec fn is_target_method(pre: UiHostApi, method: Seq<char>, args: Json) -> bool {
    ||| !mem_called(method, args, pid_of(pre.process), pre.tags, None)
    ||| !proc_called(method, args, pre.process, None)
    ||| !scan_called(method, args, pre.process, pre.tags, pre.compares@, pre.session, None)
    ||| !disasm_called(method, args, pre.process, None)
}

/// A call that is about the target changes nothing that the application holds.
pub proof fn target_calls_change_nothing(
    pre: UiHostApi,
    post: UiHostApi,
    method: Seq<char>,
    args: Json,
    ctx: CallContext,
    step: HostStep,
)
    requires
        called(pre, post, method, args, ctx, step),
        is_target_method(pre, method, args),
    ensures
        post == pre,
{
}

/// A freeze is undone by an unfreeze: where nothing was frozen at the address,
/// the frozen values are what they were.
pub proof fn unfreeze_undoes_freeze(frozen: Seq<ScriptFreeze>, f: ScriptFreeze)
    requires
        freeze_slot(frozen, f.addr) is None,
    ensures
        without_freeze(with_freeze(frozen, f), f.addr) == frozen,
{
    assert(frozen.push(f).drop_last() =~= frozen);
    lemma_nothing_frozen(frozen, f.addr);
}

proof fn lemma_nothing_frozen(frozen: Seq<ScriptFreeze>, addr: usize)
    requires
        freeze_slot(frozen, addr) is None,
    ensures
        without_freeze(frozen, addr) == frozen,
    decreases frozen.len(),
{
    if frozen.len() > 0 {
        lemma_nothing_frozen(frozen.drop_last(), addr);
        assert(frozen.drop_last().push(frozen.last()) =~= frozen);
    }
}

/// No address is frozen twice: setting a value keeps the addresses distinct.
pub open spec fn frozen_once(frozen: Seq<ScriptFreeze>) -> bool {
    forall|i: int, j: int|
        0 <= i < j < frozen.len() ==> (#[trigger] frozen[i]).addr != (#[trigger] frozen[j]).addr
}

proof fn lemma_freeze_slot(frozen: Seq<ScriptFreeze>, addr: usize)
    ensures
        match freeze_slot(frozen, addr) {
            Some(i) => 0 <= i < frozen.len() && frozen[i].addr == addr,
            None => forall|j: int| 0 <= j < frozen.len() ==> (#[trigger] frozen[j]).addr != addr,
        },
    decreases frozen.len(),
{
    if frozen.len() > 0 {
        let rest = frozen.drop_last();
        lemma_freeze_slot(rest, addr);
        assert forall|j: int| 0 <= j < rest.len() implies (#[trigger] frozen[j]).addr == rest[j].addr by {}
    }
}

/// A freeze keeps every address frozen at most once.
pub proof fn freeze_keeps_addresses_distinct(frozen: Seq<ScriptFreeze>, f: ScriptFreeze)
    requires
        frozen_once(frozen),
    ensures
        frozen_once(with_freeze(frozen, f)),
{
    lemma_freeze_slot(frozen, f.addr);
}

} // verus!

//! What other panels and scripts ask of the cheat table, the viewers and the
//! classes.
use vstd::prelude::*;
use vstd::string::StringExecFns;

use crate::app_class::{class_address_set, code_field_added};
use crate::app_state::{due, is_due, memory_cleared, NemclassApp};
use crate::cheat_table::{pinned_to, CheatEntry, CheatTablePanel, CheatTablePanelAction};
use crate::debugger::{asks_execute, BpRequest};
use crate::disassembly::{DisasmAction, DisassemblyPanel};
use crate::dock::TabKind;
use crate::history::remembered;
use crate::host_api::{ScriptFreeze, UiAction};
use crate::host_ops::{writes_view, MemWrite, WriteView};
use crate::host_proc::{pid_of, pid_of_exec};
use crate::memory_viewer::went_to;
use crate::model::{class_index, find_class};
use crate::navigator::NavAction;
use crate::scalar::RealReading;
use crate::scan_value::{pinned_bytes, value_text_to_bytes};
use crate::text::{hex_upper, hex_upper_exec, same_str, says, string_of};

verus! {

/// How often the values that scripts freeze are written, in milliseconds.
pub const SCRIPT_FREEZE_INTERVAL: u64 = 200;

/// A file of the cheat table: where the project lies, and the name of the table.
#[derive(Debug)]
pub enum TableFile {
    Save { dir: String, name: String },
    Load { dir: String, name: String },
}

/// An address as the table writes it.
pub open spec fn table_address(addr: usize) -> Seq<char> {
    "0x"@ + hex_upper(addr as nat)
}

pub fn table_address_exec(addr: usize) -> (s: String)
    ensures
        s@ == table_address(addr),
{
    let mut s = "0x".to_string();
    let d = string_of(hex_upper_exec(addr as u64).as_slice());
    s.append(d.as_str());
    s
}

/// The first entry at an address, as it is written.
pub open spec fn entry_at(entries: Seq<CheatEntry>, address: Seq<char>) -> Option<int>
    decreases entries.len(),
{
    if entries.len() == 0 {
        None
    } else {
        match entry_at(entries.drop_last(), address) {
            Some(i) => Some(i),
            None => if entries.last().address@ == address {
                Some(entries.len() - 1)
            } else {
                None
            },
        }
    }
}

proof fn lemma_entry_at(entries: Seq<CheatEntry>, address: Seq<char>)
    ensures
        match entry_at(entries, address) {
            Some(i) => 0 <= i < entries.len() && entries[i].address@ == address && forall|j: int|
                0 <= j < i ==> (#[trigger] entries[j]).address@ != address,
            None => forall|j: int|
                0 <= j < entries.len() ==> (#[trigger] entries[j]).address@ != address,
        },
    decreases entries.len(),
{
    if entries.len() > 0 {
        let rest = entries.drop_last();
        lemma_entry_at(rest, address);
        assert forall|j: int| 0 <= j < rest.len() implies (#[trigger] entries[j]).address@
            == rest[j].address@ by {}
    }
}

fn find_entry(entries: &Vec<CheatEntry>, address: &str) -> (r: Option<usize>)
    ensures
        match r {
            Some(i) => i < entries@.len() && entry_at(entries@, address@) == Some(i as int),
            None => entry_at(entries@, address@) is None,
        },
{
    let mut i: usize = 0;
    while i < entries.len()
        invariant
            i <= entries@.len(),
            forall|j: int| 0 <= j < i ==> (#[trigger] entries@[j]).address@ != address@,
        decreases entries@.len() - i,
    {
        if same_str(entries[i].address.as_str(), address) {
            proof {
                lemma_entry_at(entries@, address@);
            }
            return Some(i);
        }
        i += 1;
    }
    proof {
        lemma_entry_at(entries@, address@);
    }
    None
}

/// An entry for an address that another panel found.
pub open spec fn is_found_entry(
    e: CheatEntry,
    address: Seq<char>,
    tag: Seq<char>,
    frozen: bool,
    value: Seq<char>,
) -> bool {
    &&& e.description@ == address
    &&& e.address@ == address
    &&& e.value_type@ == tag
    &&& e.frozen == frozen
    &&& e.frozen_value@ == value
    &&& e.group@.len() == 0
}

/// The entries changed, and nothing else.
pub open spec fn entries_changed(pre: NemclassApp, post: NemclassApp) -> bool {
    &&& post == (NemclassApp { cheat_table_panel: post.cheat_table_panel, ..pre })
    &&& post.cheat_table_panel == (CheatTablePanel {
        table: post.cheat_table_panel.table,
        ..pre.cheat_table_panel
    })
    &&& post.cheat_table_panel.table.name == pre.cheat_table_panel.table.name
}

/// Freezing from a scan freezes an entry of the table: the first at that address
/// is turned over, and there is a new one where there was none.
pub open spec fn frozen_from_scan(
    was: Seq<CheatEntry>,
    now: Seq<CheatEntry>,
    address: Seq<char>,
    tag: Seq<char>,
    value: Seq<char>,
) -> bool {
    match entry_at(was, address) {
        Some(i) => {
            &&& now.len() == was.len()
            &&& now == was.update(i, now[i])
            &&& pinned_to(now[i], was[i], !was[i].frozen, value)
        },
        None => {
            &&& now.len() == was.len() + 1
            &&& now.drop_last() == was
            &&& is_found_entry(now.last(), address, tag, true, value)
        },
    }
}

/// The memory viewer shows an address, in front.
pub open spec fn shows_memory(pre: NemclassApp, post: NemclassApp, addr: usize) -> bool {
    &&& went_to(pre.memory_viewer, post.memory_viewer, addr)
    &&& post == (NemclassApp {
        memory_viewer: post.memory_viewer,
        pending_focus: Some(TabKind::Memory),
        ..pre
    })
}

/// The disassembler shows an address, in front.
pub open spec fn shows_code(pre: NemclassApp, post: NemclassApp, addr: usize) -> bool {
    let a = pre.disassembly_panel;
    let b = post.disassembly_panel;
    &&& DisassemblyPanel::focused((DisassemblyPanel { back: b.back, forward: b.forward, ..a }), b, addr)
    &&& b.back@ == if a.address != 0 && a.address != addr {
        remembered(a.back@, a.address)
    } else {
        a.back@
    }
    &&& b.forward@.len() == 0
    &&& post == (NemclassApp {
        disassembly_panel: b,
        pending_focus: Some(TabKind::Disassembly),
        ..pre
    })
}

/// What the table asks for. Without a project there is nowhere to save it.
pub open spec fn table_asked(
    pre: NemclassApp,
    post: NemclassApp,
    action: CheatTablePanelAction,
    file: Option<TableFile>,
) -> bool {
    match action {
        CheatTablePanelAction::Nothing => post == pre && file is None,
        CheatTablePanelAction::Save(name) => match pre.project_dir {
            Some(dir) => post == pre && file == Some(TableFile::Save { dir, name }),
            None => {
                &&& file is None
                &&& says(
                    post.cheat_table_panel.status_msg,
                    "No project directory — save or open a project first."@,
                )
                &&& post == (NemclassApp {
                    cheat_table_panel: (CheatTablePanel {
                        status_msg: post.cheat_table_panel.status_msg,
                        ..pre.cheat_table_panel
                    }),
                    ..pre
                })
            },
        },
        CheatTablePanelAction::Load(name) => post == pre && file == match pre.project_dir {
            Some(dir) => Some(TableFile::Load { dir, name }),
            None => None,
        },
        CheatTablePanelAction::GotoAddr(addr) => shows_memory(pre, post, addr) && file is None,
    }
}

/// What a script asks of the panels.
pub open spec fn action_applied(
    pre: NemclassApp,
    post: NemclassApp,
    action: UiAction,
    file: Option<TableFile>,
) -> bool {
    match action {
        UiAction::GotoMemory(addr) => shows_memory(pre, post, addr) && file is None,
        UiAction::GotoDisasm(addr) => shows_code(pre, post, addr) && file is None,
        UiAction::SelectClass(id) => {
            &&& file is None
            &&& if class_index(pre.project.classes@, id) is Some {
                memory_cleared(
                    NemclassApp {
                        selected_class: Some(id),
                        pending_focus: Some(TabKind::ClassView),
                        ..pre
                    },
                    post,
                )
            } else {
                post == pre
            }
        },
        UiAction::SaveTable(name) => table_asked(
            pre,
            post,
            CheatTablePanelAction::Save(name),
            file,
        ),
        UiAction::LoadTable(name) => table_asked(
            pre,
            post,
            CheatTablePanelAction::Load(name),
            file,
        ),
    }
}

/// The writes that keep what scripts froze; texts that write no value are passed
/// over.
pub open spec fn script_writes(freezes: Seq<ScriptFreeze>, reals: Seq<RealReading>) -> Seq<WriteView>
    decreases freezes.len(),
{
    if freezes.len() == 0 {
        Seq::empty()
    } else {
        let k = freezes.len() - 1;
        let before = script_writes(freezes.drop_last(), reals);
        match pinned_bytes(freezes[k].vt, freezes[k].value@, reals[k]) {
            Some(b) => before.push(WriteView { addr: freezes[k].addr, bytes: b }),
            None => before,
        }
    }
}

fn script_writes_exec(freezes: &Vec<ScriptFreeze>, reals: &Vec<RealReading>) -> (w: Vec<MemWrite>)
    requires
        reals@.len() == freezes@.len(),
    ensures
        writes_view(w@) == script_writes(freezes@, reals@),
{
    let mut w: Vec<MemWrite> = Vec::new();
    let mut i: usize = 0;
    assert(writes_view(w@) =~= Seq::<WriteView>::empty());
    while i < freezes.len()
        invariant
            i <= freezes@.len(),
            reals@.len() == freezes@.len(),
            writes_view(w@) == script_writes(freezes@.subrange(0, i as int), reals@),
        decreases freezes@.len() - i,
    {
        assert(freezes@.subrange(0, i + 1).drop_last() =~= freezes@.subrange(0, i as int));
        let ghost before = w@;
        let f = &freezes[i];
        if let Some(bytes) = value_text_to_bytes(f.vt, f.value.as_str(), &reals[i]) {
            w.push(MemWrite { addr: f.addr, bytes });
            assert(writes_view(w@) =~= writes_view(before).push(w@.last()@));
        }
        i += 1;
    }
    assert(freezes@.subrange(0, freezes@.len() as int) =~= freezes@);
    w
}

/// The message after all entries were frozen or released.
pub open spec fn freeze_all_text(frozen: bool) -> Seq<char> {
    if frozen {
        "All entries frozen (Ctrl+F to unfreeze)"@
    } else {
        "All entries unfrozen"@
    }
}

impl NemclassApp {
    /// An entry for an address that another panel found.
    pub fn add_found_entry(&mut self, address: &str, tag: &str)
        ensures
            entries_changed(*old(self), *final(self)),
            ({
                let was = old(self).cheat_table_panel.table.entries@;
                let now = final(self).cheat_table_panel.table.entries@;
                &&& now.len() == was.len() + 1
                &&& now.drop_last() == was
                &&& is_found_entry(now.last(), address@, tag@, false, Seq::empty())
            }),
    {
        let ghost was = self.cheat_table_panel.table.entries@;
        self.cheat_table_panel.table.push(CheatEntry::new(address, address, tag));
        assert(self.cheat_table_panel.table.entries@.drop_last() =~= was);
    }

    /// Freezes what another panel found, or releases it where it is frozen.
    pub fn freeze_found(&mut self, address: &str, tag: &str, value: String)
        ensures
            entries_changed(*old(self), *final(self)),
            frozen_from_scan(
                old(self).cheat_table_panel.table.entries@,
                final(self).cheat_table_panel.table.entries@,
                address@,
                tag@,
                value@,
            ),
    {
        let ghost was = self.cheat_table_panel.table.entries@;
        match find_entry(&self.cheat_table_panel.table.entries, address) {
            Some(i) => {
                let frozen = !self.cheat_table_panel.table.entries[i].frozen;
                let e = &mut self.cheat_table_panel.table.entries[i];
                e.frozen = frozen;
                e.frozen_value = if frozen {
                    value
                } else {
                    String::new()
                };
                assert(self.cheat_table_panel.table.entries@ =~= was.update(
                    i as int,
                    self.cheat_table_panel.table.entries@[i as int],
                ));
            },
            None => {
                let mut e = CheatEntry::new(address, address, tag);
                e.frozen = true;
                e.frozen_value = value;
                self.cheat_table_panel.table.push(e);
                assert(self.cheat_table_panel.table.entries@.drop_last() =~= was);
            },
        }
    }

    /// Shows an address in the memory viewer.
    pub fn goto_memory(&mut self, addr: usize)
        ensures
            shows_memory(*old(self), *final(self), addr),
            old(self).wf() ==> final(self).wf(),
    {
        self.pending_focus = Some(TabKind::Memory);
        self.memory_viewer.goto(addr);
    }

    /// Shows an address in the disassembler.
    pub fn goto_code(&mut self, addr: usize)
        requires
            old(self).wf(),
        ensures
            shows_code(*old(self), *final(self), addr),
            final(self).wf(),
    {
        self.pending_focus = Some(TabKind::Disassembly);
        self.disassembly_panel.goto(addr);
    }

    /// Does what the cheat table asks for; a file is left to be saved or loaded.
    pub fn apply_cheat_table_action(&mut self, action: CheatTablePanelAction) -> (file: Option<
        TableFile,
    >)
        ensures
            table_asked(*old(self), *final(self), action, file),
            old(self).wf() ==> final(self).wf(),
    {
        match action {
            CheatTablePanelAction::Nothing => None,
            CheatTablePanelAction::Save(name) => match &self.project_dir {
                Some(d) => Some(TableFile::Save { dir: d.clone(), name }),
                None => {
                    self.cheat_table_panel.status_msg = Some(
                        "No project directory — save or open a project first.".to_string(),
                    );
                    None
                },
            },
            CheatTablePanelAction::Load(name) => match &self.project_dir {
                Some(d) => Some(TableFile::Load { dir: d.clone(), name }),
                None => None,
            },
            CheatTablePanelAction::GotoAddr(addr) => {
                self.goto_memory(addr);
                None
            },
        }
    }

    /// The cheat table was saved at a path, or the message says why not.
    pub fn table_saved(&mut self, saved: Result<String, String>)
        ensures
            *final(self) == (NemclassApp {
                cheat_table_panel: (CheatTablePanel {
                    status_msg: final(self).cheat_table_panel.status_msg,
                    ..old(self).cheat_table_panel
                }),
                ..*old(self)
            }),
            says(
                final(self).cheat_table_panel.status_msg,
                match saved {
                    Ok(p) => "Saved "@ + p@,
                    Err(e) => "Save failed: "@ + e@,
                },
            ),
    {
        let text = match saved {
            Ok(p) => {
                let mut s = "Saved ".to_string();
                s.append(p.as_str());
                s
            },
            Err(e) => {
                let mut s = "Save failed: ".to_string();
                s.append(e.as_str());
                s
            },
        };
        self.cheat_table_panel.status_msg = Some(text);
    }

    /// Does what a script asks of the panels.
    pub fn apply_ui_action(&mut self, action: UiAction) -> (file: Option<TableFile>)
        requires
            old(self).wf(),
        ensures
            final(self).wf(),
            action_applied(*old(self), *final(self), action, file),
    {
        match action {
            UiAction::GotoMemory(addr) => {
                self.goto_memory(addr);
                None
            },
            UiAction::GotoDisasm(addr) => {
                self.goto_code(addr);
                None
            },
            UiAction::SelectClass(id) => {
                if find_class(&self.project.classes, id).is_some() {
                    self.selected_class = Some(id);
                    self.clear_memory_state();
                    self.pending_focus = Some(TabKind::ClassView);
                }
                None
            },
            UiAction::SaveTable(name) => self.apply_cheat_table_action(
                CheatTablePanelAction::Save(name),
            ),
            UiAction::LoadTable(name) => self.apply_cheat_table_action(
                CheatTablePanelAction::Load(name),
            ),
        }
    }

    /// Does what the navigator asks for: whether to dissect.
    pub fn apply_nav_action(&mut self, action: NavAction) -> (dissect: bool)
        requires
            old(self).wf(),
        ensures
            final(self).wf(),
            dissect == (action is RunDissect && old(self).process is Some),
            match action {
                NavAction::GotoDisasm(addr) => shows_code(*old(self), *final(self), addr),
                NavAction::GotoMemory(addr) => shows_memory(*old(self), *final(self), addr),
                NavAction::RunDissect => *final(self) == *old(self),
            },
    {
        match action {
            NavAction::GotoDisasm(addr) => {
                self.goto_code(addr);
                false
            },
            NavAction::GotoMemory(addr) => {
                self.goto_memory(addr);
                false
            },
            NavAction::RunDissect => self.process.is_some(),
        }
    }

    /// Does what a row of the disassembler asks for; a breakpoint is left to be
    /// set.
    pub fn apply_disasm_action(&mut self, action: DisasmAction) -> (bp: Option<BpRequest>)
        ensures
            match action {
                DisasmAction::SetBreakpoint(addr) => {
                    let b = final(self).debugger_panel;
                    &&& *final(self) == (NemclassApp { debugger_panel: b, ..*old(self) })
                    &&& asks_execute(old(self).debugger_panel, b, addr, bp)
                },
                DisasmAction::SetClassAddress(addr) => bp is None && class_address_set(
                    *old(self),
                    *final(self),
                    addr,
                ),
                DisasmAction::AddAddressToClass(addr) => bp is None && code_field_added(
                    *old(self),
                    *final(self),
                    addr,
                ),
            },
            old(self).wf() ==> final(self).wf(),
    {
        match action {
            DisasmAction::SetClassAddress(addr) => {
                self.set_class_address(addr);
                None
            },
            DisasmAction::AddAddressToClass(addr) => {
                self.add_code_address(addr);
                None
            },
            DisasmAction::SetBreakpoint(addr) => self.debugger_panel.set_execute_breakpoint(addr),
        }
    }

    /// All entries were frozen or released by the hotkey, which the message says.
    pub fn freeze_hotkey_done(&mut self, frozen: bool)
        ensures
            *final(self) == (NemclassApp {
                cheat_table_panel: (CheatTablePanel {
                    status_msg: final(self).cheat_table_panel.status_msg,
                    ..old(self).cheat_table_panel
                }),
                ..*old(self)
            }),
            says(final(self).cheat_table_panel.status_msg, freeze_all_text(frozen)),
    {
        self.cheat_table_panel.status_msg = Some(
            if frozen {
                "All entries frozen (Ctrl+F to unfreeze)".to_string()
            } else {
                "All entries unfrozen".to_string()
            },
        );
    }

    /// Starts a round of writing what scripts froze: to which process, and what.
    /// `reals` are what the values say as floating-point numbers.
    pub fn tick_script_freezes(&mut self, reals: &Vec<RealReading>, now: u64) -> (w: Option<
        (u32, Vec<MemWrite>),
    >)
        requires
            reals@.len() == old(self).script_freezes@.len(),
        ensures
            ({
                let all = script_writes(old(self).script_freezes@, reals@);
                if old(self).script_freezes@.len() == 0 || !is_due(
                    old(self).last_script_freeze,
                    now,
                    SCRIPT_FREEZE_INTERVAL,
                ) {
                    w is None && *final(self) == *old(self)
                } else {
                    &&& *final(self) == (NemclassApp {
                        last_script_freeze: Some(now),
                        ..*old(self)
                    })
                    &&& match w {
                        None => old(self).process is None || all.len() == 0,
                        Some((pid, writes)) => {
                            &&& pid_of(old(self).process) == Some(pid)
                            &&& writes_view(writes@) == all
                            &&& all.len() > 0
                        },
                    }
                }
            }),
    {
        if self.script_freezes.len() == 0 || !due(
            self.last_script_freeze,
            now,
            SCRIPT_FREEZE_INTERVAL,
        ) {
            return None;
        }
        self.last_script_freeze = Some(now);
        match pid_of_exec(&self.process) {
            None => None,
            Some(pid) => {
                let writes = script_writes_exec(&self.script_freezes, reals);
                assert(writes_view(writes@).len() == writes@.len());
                if writes.len() == 0 {
                    None
                } else {
                    Some((pid, writes))
                }
            },
        }
    }
}

/// Freezing twice from a scan releases the entry again, and makes no second one.
pub proof fn second_freeze_releases(
    was: Seq<CheatEntry>,
    mid: Seq<CheatEntry>,
    now: Seq<CheatEntry>,
    address: Seq<char>,
    tag: Seq<char>,
    value: Seq<char>,
    again: Seq<char>,
)
    requires
        entry_at(was, address) is None,
        frozen_from_scan(was, mid, address, tag, value),
        frozen_from_scan(mid, now, address, tag, again),
    ensures
        now.len() == was.len() + 1,
        now.drop_last() == was,
        is_found_entry(now.last(), address, tag, false, Seq::empty()),
{
    assert(entry_at(mid, address) == Some(mid.len() - 1));
    assert(now.drop_last() =~= was);
}

/// A table is saved under its name in the directory of the project and loaded from
/// there, and without a project neither file is touched.
pub proof fn table_file_is_the_named_one(
    pre: NemclassApp,
    post: NemclassApp,
    action: CheatTablePanelAction,
    file: Option<TableFile>,
)
    requires
        table_asked(pre, post, action, file),
    ensures
        pre.project_dir is None ==> file is None,
        match file {
            Some(TableFile::Save { dir, name }) => pre.project_dir == Some(dir) && action
                == CheatTablePanelAction::Save(name),
            Some(TableFile::Load { dir, name }) => pre.project_dir == Some(dir) && action
                == CheatTablePanelAction::Load(name),
            None => pre.project_dir is Some ==> !(action is Save) && !(action is Load),
        },
        action is Save && pre.project_dir is None ==> post.cheat_table_panel.status_msg is Some,
        post.cheat_table_panel.table == pre.cheat_table_panel.table,
{
}

} // verus!

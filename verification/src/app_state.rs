//! The state of the application: the attached process, the project, the class
//! that is shown, and the panels.
use vstd::prelude::*;
use vstd::string::StringExecFns;

use crate::auto_dissect::AutoDissectPreview;
use crate::cheat_table::{elapsed, CheatTablePanel};
use crate::class_actions::NodeEditOp;
use crate::class_view::{LiveNode, NodeSnapshot};
use crate::debugger::DebuggerPanel;
use crate::disassembly::{modules_by_base, DisassemblyPanel};
use crate::dock::TabKind;
use crate::edit_state::EditState;
use crate::generator::GeneratorPanel;
use crate::host_api::{HotkeyReg, LogLine, ScriptFreeze};
use crate::host_proc::Target;
use crate::host_scan::ScanSession;
use crate::memory_viewer::MemoryViewer;
use crate::model::{Node, Project};
use crate::modules_panel::ModulesPanel;
use crate::navigator::NavigatorPanel;
use crate::node_edit::EditHistory;
use crate::process_reader::ModuleInfo;
use crate::processes::{called_name, display_name, ProcessEntry};
use crate::selection::Selection;
use crate::text::{decimal, decimal_exec, same_str, says, string_of};

verus! {

/// How often it is looked whether the attached process still runs, in
/// milliseconds.
pub const LIVENESS_INTERVAL: u64 = 1000;

/// How long a list of modules is used, in milliseconds.
pub const MODULE_CACHE_TTL: u64 = 1000;

/// What scripts and plugins are told.
#[derive(Debug)]
pub enum AppEvent {
    Attached { pid: u32, name: String },
    Detached,
    ProjectLoaded { path: String },
    Tick { pid: Option<u32> },
    Hotkey { id: u32 },
}

/// What is to be done outside, in this order.
#[derive(Debug)]
pub enum Effect {
    /// Tell scripts and plugins.
    Emit(AppEvent),
    /// Load the scripts of the project in this directory.
    LoadScripts { dir: String },
    /// Unbind the panels that work in the background from the process.
    UnbindWorkers,
}

/// What is done with unsaved changes in the way.
#[derive(Clone, Copy, Debug, PartialEq, Eq, Structural)]
pub enum PendingDiscard {
    New,
    Open,
}

/// The application.
#[derive(Debug)]
pub struct NemclassApp {
    pub backend_names: Vec<String>,
    pub selected_backend: String,
    pub process_list: Vec<ProcessEntry>,
    pub process_list_status: String,
    pub process_filter: String,
    pub selected_process_idx: Option<usize>,
    /// The attached process.
    pub process: Option<Target>,
    pub attached_name: Option<String>,
    pub last_error: Option<String>,
    pub status_msg: Option<String>,
    /// Changes with every detach. A process that was opened for another epoch is
    /// not attached.
    pub attach_epoch: u64,
    pub last_liveness_check: Option<u64>,
    pub project: Project,
    /// The directory of the project; `None` where it was not saved.
    pub project_dir: Option<String>,
    /// Whether there are unsaved changes.
    pub project_dirty: bool,
    pub selected_class: Option<u128>,
    pub node_snapshots: Vec<NodeSnapshot>,
    /// Where the class lies.
    pub class_base: Option<usize>,
    pub mem_buf: Vec<u8>,
    pub edit_state: Option<EditState>,
    /// The rows of the class that are selected.
    pub selection: Selection,
    pub history: EditHistory,
    /// Fields that were copied, to be pasted.
    pub node_clipboard: Vec<Node>,
    /// Changes that are made together, as one that can be undone.
    pub pending_node_edits: Vec<NodeEditOp>,
    /// Where a script or a followed pointer says that the class lies. It wins over
    /// the formula of the class.
    pub script_resolved_base: Option<usize>,
    pub last_snapshot: Option<u64>,
    pub last_tick: Option<u64>,
    /// How often the class is read, in milliseconds.
    pub snapshot_interval: u64,
    pub collapsed: Vec<String>,
    pub expanded_ptrs: Vec<String>,
    pub live_cache: Vec<LiveNode>,
    pub dissect_len_text: String,
    pub dissect_preview: Option<AutoDissectPreview>,
    pub pending_discard: Option<PendingDiscard>,
    /// The panel that is to be brought to the front.
    pub pending_focus: Option<TabKind>,
    pub script_log: Vec<LogLine>,
    pub script_hotkeys: Vec<HotkeyReg>,
    pub next_hotkey_id: u32,
    pub script_freezes: Vec<ScriptFreeze>,
    pub script_scanner: Option<ScanSession>,
    pub last_script_freeze: Option<u64>,
    pub last_script_watch: Option<u64>,
    pub module_cache: Vec<ModuleInfo>,
    pub module_cache_at: Option<u64>,
    pub settings_dirty: bool,
    pub last_settings_save: Option<u64>,
    pub memory_viewer: MemoryViewer,
    pub disassembly_panel: DisassemblyPanel,
    pub modules_panel: ModulesPanel,
    pub debugger_panel: DebuggerPanel,
    pub cheat_table_panel: CheatTablePanel,
    pub navigator_panel: NavigatorPanel,
    pub generator_panel: GeneratorPanel,
    /// What is still to be done outside.
    pub outbox: Vec<Effect>,
}

/// What was read of a class is gone, and with it what hangs on it.
pub open spec fn memory_cleared(pre: NemclassApp, post: NemclassApp) -> bool {
    &&& post.node_snapshots@.len() == 0
    &&& post.mem_buf@.len() == 0
    &&& post == (NemclassApp {
        class_base: None,
        node_snapshots: post.node_snapshots,
        mem_buf: post.mem_buf,
        edit_state: None,
        script_resolved_base: None,
        ..pre
    })
}

/// The process was detached: every panel forgot what belonged to it, scripts
/// were told, and a process that is being opened will not be attached.
pub open spec fn detached(pre: NemclassApp, post: NemclassApp) -> bool {
    &&& post.attach_epoch == pre.attach_epoch.wrapping_add(1)
    &&& if pre.process is None {
        post == (NemclassApp { attach_epoch: post.attach_epoch, ..pre })
    } else {
        &&& post.outbox@ == pre.outbox@.push(Effect::Emit(AppEvent::Detached)).push(
            Effect::UnbindWorkers,
        )
        &&& post.node_snapshots@.len() == 0
        &&& post.mem_buf@.len() == 0
        &&& DebuggerPanel::detached(pre.debugger_panel, post.debugger_panel)
        &&& MemoryViewer::detached(pre.memory_viewer, post.memory_viewer)
        &&& DisassemblyPanel::reset(pre.disassembly_panel, post.disassembly_panel)
        &&& post.disassembly_panel.modules@.len() == 0
        &&& post.modules_panel.cleared()
        &&& CheatTablePanel::detached(pre.cheat_table_panel, post.cheat_table_panel)
        &&& post == (NemclassApp {
            attach_epoch: post.attach_epoch,
            process: None,
            attached_name: None,
            class_base: None,
            node_snapshots: post.node_snapshots,
            mem_buf: post.mem_buf,
            edit_state: None,
            script_resolved_base: None,
            script_scanner: None,
            debugger_panel: post.debugger_panel,
            memory_viewer: post.memory_viewer,
            disassembly_panel: post.disassembly_panel,
            modules_panel: post.modules_panel,
            cheat_table_panel: post.cheat_table_panel,
            outbox: post.outbox,
            ..pre
        })
    }
}

/// A process that was opened: what is known of it, and whether its mappings
/// could be read.
#[derive(Debug)]
pub struct Opened {
    pub modules: Result<Vec<ModuleInfo>, String>,
    pub index: Result<(), String>,
}

/// A process that is to be opened, and for which epoch.
#[derive(Debug)]
pub struct AttachRequest {
    pub epoch: u64,
    pub pid: u32,
    pub name: String,
}

/// The modules of an opened process; none where they could not be listed.
pub open spec fn listed(modules: Result<Vec<ModuleInfo>, String>) -> Seq<ModuleInfo> {
    match modules {
        Ok(m) => m@,
        Err(_) => Seq::empty(),
    }
}

/// The process was attached, and scripts were told.
pub open spec fn process_attached(
    pre: NemclassApp,
    post: NemclassApp,
    pid: u32,
    name: String,
    opened: Opened,
) -> bool {
    &&& post.process == Some(Target { pid, name: Some(name), modules: opened.modules })
    &&& says(post.attached_name, called_name(name@, pid))
    &&& MemoryViewer::attached(pre.memory_viewer, post.memory_viewer, opened.index)
    &&& DisassemblyPanel::reset(pre.disassembly_panel, post.disassembly_panel)
    &&& modules_by_base(listed(opened.modules), post.disassembly_panel.modules@)
    &&& post.modules_panel.filter == pre.modules_panel.filter
    &&& post.modules_panel.selected@ == Seq::new(listed(opened.modules).len(), |i: int| false)
    &&& post.modules_panel.selected_names@.len() == 0
    &&& post.outbox@ == pre.outbox@.push(Effect::Emit(AppEvent::Attached { pid, name }))
    &&& post == (NemclassApp {
        process: post.process,
        attached_name: post.attached_name,
        memory_viewer: post.memory_viewer,
        disassembly_panel: post.disassembly_panel,
        modules_panel: post.modules_panel,
        last_error: None,
        status_msg: None,
        last_snapshot: None,
        outbox: post.outbox,
        ..pre
    })
}

/// A process was attached for the disassembler, under its id.
pub open spec fn sample_attached(
    pre: NemclassApp,
    post: NemclassApp,
    pid: u32,
    opened: Opened,
) -> bool {
    &&& post.process == Some(Target { pid, name: None, modules: opened.modules })
    &&& says(post.attached_name, "pid:"@ + decimal(pid as nat))
    &&& MemoryViewer::attached(pre.memory_viewer, post.memory_viewer, opened.index)
    &&& DisassemblyPanel::reset(pre.disassembly_panel, post.disassembly_panel)
    &&& modules_by_base(listed(opened.modules), post.disassembly_panel.modules@)
    &&& post.modules_panel.filter == pre.modules_panel.filter
    &&& post.modules_panel.selected@ == Seq::new(listed(opened.modules).len(), |i: int| false)
    &&& post.modules_panel.selected_names@.len() == 0
    &&& post == (NemclassApp {
        process: post.process,
        attached_name: post.attached_name,
        memory_viewer: post.memory_viewer,
        disassembly_panel: post.disassembly_panel,
        modules_panel: post.modules_panel,
        last_error: None,
        pending_focus: Some(TabKind::Disassembly),
        ..pre
    })
}

/// A process that was opened arrived. One for another epoch is dropped.
pub open spec fn attach_taken(
    pre: NemclassApp,
    post: NemclassApp,
    request: AttachRequest,
    result: Result<Opened, String>,
) -> bool {
    if request.epoch != pre.attach_epoch {
        post == pre
    } else {
        match result {
            Ok(opened) => process_attached(pre, post, request.pid, request.name, opened),
            Err(e) => {
                &&& says(post.last_error, "Attach failed: "@ + e@)
                &&& post == (NemclassApp {
                    last_error: post.last_error,
                    status_msg: None,
                    ..pre
                })
            },
        }
    }
}

/// The error that keeps a process from being attached; `None` where nothing
/// does.
pub open spec fn attach_refusal(app: NemclassApp, known: bool) -> Option<Seq<char>> {
    match app.selected_process_idx {
        None => Some("No process selected."@),
        Some(i) => if i >= app.process_list@.len() {
            Some("Selection out of range."@)
        } else if !known {
            Some("Backend '"@ + app.selected_backend@ + "' not found."@)
        } else {
            None
        },
    }
}

/// So much time has passed since `last`, or there was no last time.
pub open spec fn is_due(last: Option<u64>, now: u64, interval: u64) -> bool {
    match last {
        Some(t) => elapsed(t, now) >= interval,
        None => true,
    }
}

pub fn due(last: Option<u64>, now: u64, interval: u64) -> (r: bool)
    ensures
        r == is_due(last, now, interval),
{
    match last {
        Some(t) => now.saturating_sub(t) >= interval,
        None => true,
    }
}

impl NemclassApp {
    /// The panels are in order.
    pub open spec fn wf(&self) -> bool {
        &&& self.memory_viewer.wf()
        &&& self.disassembly_panel.wf()
        &&& self.modules_panel.wf()
    }

    /// Forgets what was read of the class.
    pub fn clear_memory_state(&mut self)
        ensures
            memory_cleared(*old(self), *final(self)),
    {
        self.class_base = None;
        self.node_snapshots = Vec::new();
        self.mem_buf = Vec::new();
        self.edit_state = None;
        self.script_resolved_base = None;
    }

    /// Unbinds everything from the process.
    pub fn detach_all(&mut self)
        requires
            old(self).wf(),
        ensures
            final(self).wf(),
            detached(*old(self), *final(self)),
    {
        self.attach_epoch = self.attach_epoch.wrapping_add(1);
        if self.process.is_none() {
            return ;
        }
        self.outbox.push(Effect::Emit(AppEvent::Detached));
        self.process = None;
        self.attached_name = None;
        self.clear_memory_state();
        self.debugger_panel.on_detach();
        self.memory_viewer.on_detach();
        self.disassembly_panel.on_detach();
        self.modules_panel.on_detach();
        self.cheat_table_panel.on_detach();
        self.script_scanner = None;
        self.outbox.push(Effect::UnbindWorkers);
    }

    /// "Detach" was clicked.
    pub fn do_detach(&mut self)
        requires
            old(self).wf(),
        ensures
            final(self).wf(),
            exists|mid: NemclassApp|
                #[trigger] detached(*old(self), mid) && *final(self) == (NemclassApp {
                    last_error: None,
                    ..mid
                }),
    {
        self.detach_all();
        let ghost mid = *self;
        self.last_error = None;
        assert(detached(*old(self), mid));
    }

    /// "Refresh" was clicked: whether processes are to be listed.
    pub fn do_refresh(&mut self, running: bool, known: bool) -> (go: bool)
        ensures
            go == (!running && known),
            *final(self) == (NemclassApp {
                process_list_status: final(self).process_list_status,
                ..*old(self)
            }),
            if running {
                final(self).process_list_status == old(self).process_list_status
            } else if !known {
                final(self).process_list_status@ == "Backend '"@ + old(self).selected_backend@
                    + "' not found."@
            } else {
                final(self).process_list_status@ == "Enumerating…"@
            },
    {
        if running {
            return false;
        }
        if !known {
            let mut s = "Backend '".to_string();
            s.append(self.selected_backend.as_str());
            s.append("' not found.");
            self.process_list_status = s;
            return false;
        }
        self.process_list_status = "Enumerating…".to_string();
        true
    }

    /// The processes were listed by a backend. A list of another backend than the
    /// selected one is dropped.
    pub fn ingest_enumerate(&mut self, backend: &str, result: Result<Vec<ProcessEntry>, String>)
        ensures
            if backend@ != old(self).selected_backend@ {
                *final(self) == *old(self)
            } else {
                &&& *final(self) == (NemclassApp {
                    process_list: final(self).process_list,
                    process_list_status: final(self).process_list_status,
                    selected_process_idx: final(self).selected_process_idx,
                    ..*old(self)
                })
                &&& match result {
                    Ok(list) => {
                        &&& final(self).process_list == list
                        &&& final(self).process_list_status@ == decimal(list@.len()) + " processes"@
                        &&& final(self).selected_process_idx is None
                    },
                    Err(e) => {
                        &&& final(self).process_list@.len() == 0
                        &&& final(self).process_list_status@ == "Error: "@ + e@
                        &&& final(self).selected_process_idx == old(self).selected_process_idx
                    },
                }
            },
    {
        if !same_str(backend, self.selected_backend.as_str()) {
            return ;
        }
        match result {
            Ok(list) => {
                let mut s = string_of(decimal_exec(list.len() as u64).as_slice());
                s.append(" processes");
                self.process_list_status = s;
                self.process_list = list;
                self.selected_process_idx = None;
            },
            Err(e) => {
                let mut s = "Error: ".to_string();
                s.append(e.as_str());
                self.process_list_status = s;
                self.process_list = Vec::new();
            },
        }
    }

    /// "Attach" was clicked: the process to open. What can be refused is refused
    /// before the current process is detached.
    pub fn do_attach(&mut self, running: bool, known: bool) -> (r: Option<AttachRequest>)
        requires
            old(self).wf(),
        ensures
            final(self).wf(),
            if running {
                r is None && *final(self) == *old(self)
            } else {
                match attach_refusal(*old(self), known) {
                    Some(why) => {
                        &&& r is None
                        &&& says(final(self).last_error, why)
                        &&& *final(self) == (NemclassApp {
                            last_error: final(self).last_error,
                            ..*old(self)
                        })
                    },
                    None => {
                        let e = old(self).process_list@[old(self).selected_process_idx->0 as int];
                        &&& r == Some(
                            AttachRequest {
                                epoch: final(self).attach_epoch,
                                pid: e.id,
                                name: e.name,
                            },
                        )
                        &&& says(
                            final(self).status_msg,
                            "Attaching to "@ + called_name(e.name@, e.id) + "…"@,
                        )
                        &&& exists|mid: NemclassApp|
                            #[trigger] detached(*old(self), mid) && *final(self) == (NemclassApp {
                                last_error: None,
                                status_msg: final(self).status_msg,
                                ..mid
                            })
                    },
                }
            },
    {
        if running {
            return None;
        }
        let idx: usize = match self.selected_process_idx {
            None => {
                self.last_error = Some("No process selected.".to_string());
                return None;
            },
            Some(i) => i,
        };
        if idx >= self.process_list.len() {
            self.last_error = Some("Selection out of range.".to_string());
            return None;
        }
        let pid: u32 = self.process_list[idx].id;
        let name = self.process_list[idx].name.clone();
        if !known {
            let mut s = "Backend '".to_string();
            s.append(self.selected_backend.as_str());
            s.append("' not found.");
            self.last_error = Some(s);
            return None;
        }
        self.detach_all();
        let ghost mid = *self;
        assert(detached(*old(self), mid));
        self.last_error = None;
        let mut s = "Attaching to ".to_string();
        let shown = display_name(name.as_str(), pid);
        s.append(shown.as_str());
        s.append("…");
        self.status_msg = Some(s);
        Some(AttachRequest { epoch: self.attach_epoch, pid, name })
    }

    /// The process was opened, or could not be. It is attached unless there was a
    /// detach since.
    pub fn ingest_attach(&mut self, request: AttachRequest, result: Result<Opened, String>)
        requires
            old(self).wf(),
        ensures
            final(self).wf(),
            attach_taken(*old(self), *final(self), request, result),
    {
        if request.epoch != self.attach_epoch {
            return ;
        }
        self.status_msg = None;
        match result {
            Err(e) => {
                let mut s = "Attach failed: ".to_string();
                s.append(e.as_str());
                self.last_error = Some(s);
            },
            Ok(opened) => {
                let name = request.name;
                self.attached_name = Some(display_name(name.as_str(), request.pid));
                let ghost index = opened.index;
                self.memory_viewer.on_attach(opened.index);
                let none: Vec<ModuleInfo> = Vec::new();
                let list = match &opened.modules {
                    Ok(m) => m,
                    Err(_) => &none,
                };
                assert(list@ =~= listed(opened.modules));
                self.disassembly_panel.on_attach(list.as_slice());
                self.modules_panel.on_attach(list.as_slice());
                let told = name.clone();
                self.process = Some(
                    Target { pid: request.pid, name: Some(name), modules: opened.modules },
                );
                self.last_error = None;
                self.last_snapshot = None;
                self.outbox.push(
                    Effect::Emit(AppEvent::Attached { pid: request.pid, name: told }),
                );
            },
        }
    }

    /// Attaches a process of a backend and brings the disassembler to the front.
    /// `opened` is `None` where there is no such backend.
    pub fn debug_attach_disasm(
        &mut self,
        backend: String,
        pid: u32,
        opened: Option<Result<Opened, String>>,
    ) -> (r: Result<(), String>)
        requires
            old(self).wf(),
        ensures
            final(self).wf(),
            match opened {
                None => (r matches Err(e) && e@ == "Backend '"@ + backend@ + "' not found"@)
                    && *final(self) == (NemclassApp { selected_backend: backend, ..*old(self) }),
                Some(Err(why)) => (r matches Err(e) && e@ == "open("@ + decimal(pid as nat) + "): "@
                    + why@) && *final(self) == (NemclassApp {
                    selected_backend: backend,
                    ..*old(self)
                }),
                Some(Ok(o)) => {
                    &&& r is Ok
                    &&& exists|mid: NemclassApp| #[trigger]
                        sample_attached(mid, *final(self), pid, o) && detached(
                            NemclassApp { selected_backend: backend, ..*old(self) },
                            mid,
                        )
                },
            },
    {
        self.selected_backend = backend;
        let opened = match opened {
            None => {
                let mut s = "Backend '".to_string();
                s.append(self.selected_backend.as_str());
                s.append("' not found");
                return Err(s);
            },
            Some(Err(e)) => {
                let mut s = "open(".to_string();
                let d = string_of(decimal_exec(pid as u64).as_slice());
                s.append(d.as_str());
                s.append("): ");
                s.append(e.as_str());
                return Err(s);
            },
            Some(Ok(o)) => o,
        };
        self.detach_all();
        let ghost mid = *self;
        self.memory_viewer.on_attach(opened.index);
        let none: Vec<ModuleInfo> = Vec::new();
        let list = match &opened.modules {
            Ok(m) => m,
            Err(_) => &none,
        };
        assert(list@ =~= listed(opened.modules));
        self.disassembly_panel.on_attach(list.as_slice());
        self.modules_panel.on_attach(list.as_slice());
        self.attached_name = Some(display_name("", pid));
        proof {
            reveal_strlit("");
        }
        self.process = Some(Target { pid, name: None, modules: opened.modules });
        self.last_error = None;
        self.pending_focus = Some(TabKind::Disassembly);
        assert(sample_attached(mid, *self, pid, opened));
        Ok(())
    }

    /// Shows an address in the disassembler, without bringing it to the front.
    pub fn debug_goto_disasm(&mut self, addr: usize)
        requires
            old(self).wf(),
        ensures
            final(self).wf(),
            *final(self) == (NemclassApp {
                disassembly_panel: final(self).disassembly_panel,
                ..*old(self)
            }),
            DisassemblyPanel::focused(
                (DisassemblyPanel {
                    back: final(self).disassembly_panel.back,
                    forward: final(self).disassembly_panel.forward,
                    ..old(self).disassembly_panel
                }),
                final(self).disassembly_panel,
                addr,
            ),
    {
        self.disassembly_panel.goto(addr);
    }

    /// Whether it is to be looked if the attached process still runs, and which one
    /// it is.
    pub fn liveness_check(&mut self, now: u64) -> (pid: Option<u32>)
        ensures
            match old(self).process {
                None => pid is None && *final(self) == (NemclassApp {
                    last_liveness_check: None,
                    ..*old(self)
                }),
                Some(t) => if is_due(old(self).last_liveness_check, now, LIVENESS_INTERVAL) {
                    pid == Some(t.pid) && *final(self) == (NemclassApp {
                        last_liveness_check: Some(now),
                        ..*old(self)
                    })
                } else {
                    pid is None && *final(self) == *old(self)
                },
            },
    {
        match &self.process {
            None => {
                self.last_liveness_check = None;
                None
            },
            Some(t) => {
                let pid: u32 = t.pid;
                if !due(self.last_liveness_check, now, LIVENESS_INTERVAL) {
                    return None;
                }
                self.last_liveness_check = Some(now);
                Some(pid)
            },
        }
    }

    /// The attached process has exited: it is detached, and the error says so.
    pub fn target_exited(&mut self)
        requires
            old(self).wf(),
            old(self).process is Some,
        ensures
            final(self).wf(),
            final(self).process is None,
            says(
                final(self).last_error,
                (match old(self).attached_name {
                    Some(n) => n@,
                    None => "pid:"@ + decimal(old(self).process->0.pid as nat),
                }) + " exited — detached."@,
            ),
            exists|mid: NemclassApp|
                #[trigger] detached(*old(self), mid) && *final(self) == (NemclassApp {
                    last_error: final(self).last_error,
                    status_msg: None,
                    ..mid
                }),
    {
        let mut s = match &self.attached_name {
            Some(n) => n.clone(),
            None => {
                let mut t = "pid:".to_string();
                if let Some(p) = &self.process {
                    let d = string_of(decimal_exec(p.pid as u64).as_slice());
                    t.append(d.as_str());
                }
                t
            },
        };
        s.append(" exited — detached.");
        self.detach_all();
        let ghost mid = *self;
        assert(detached(*old(self), mid));
        self.status_msg = None;
        self.last_error = Some(s);
    }

    /// Whether the list of modules is too old to be used.
    pub fn modules_stale(&self, now: u64) -> (r: bool)
        ensures
            r == is_due(self.module_cache_at, now, MODULE_CACHE_TTL),
    {
        due(self.module_cache_at, now, MODULE_CACHE_TTL)
    }

    /// The modules were listed anew.
    pub fn modules_listed(&mut self, modules: Vec<ModuleInfo>, now: u64)
        ensures
            *final(self) == (NemclassApp {
                module_cache: modules,
                module_cache_at: Some(now),
                ..*old(self)
            }),
    {
        self.module_cache = modules;
        self.module_cache_at = Some(now);
    }

    /// What is to be done outside, once.
    pub fn take_effects(&mut self) -> (effects: Vec<Effect>)
        ensures
            effects == old(self).outbox,
            final(self).outbox@.len() == 0,
            *final(self) == (NemclassApp { outbox: final(self).outbox, ..*old(self) }),
    {
        let mut effects: Vec<Effect> = Vec::new();
        std::mem::swap(&mut effects, &mut self.outbox);
        effects
    }
}

/// A process that was being opened when "Detach" was clicked is not attached.
pub proof fn detach_drops_a_pending_attach(
    before: NemclassApp,
    after: NemclassApp,
    last: NemclassApp,
    request: AttachRequest,
    result: Result<Opened, String>,
)
    requires
        request.epoch == before.attach_epoch,
        detached(before, after),
        attach_taken(after, last, request, result),
    ensures
        last == after,
{
}

/// Nothing of a process is left in a panel once it is detached, and nothing is
/// written to it any more.
pub proof fn detach_unbinds_every_panel(before: NemclassApp, after: NemclassApp)
    requires
        before.process is Some,
        detached(before, after),
    ensures
        after.process is None,
        after.attached_name is None,
        after.class_base is None && after.script_resolved_base is None,
        after.mem_buf@.len() == 0,
        after.script_scanner is None,
        !after.debugger_panel.attached && after.debugger_panel.watch is None,
        !after.memory_viewer.has_index && after.memory_viewer.bytes_read == 0,
        after.disassembly_panel.modules@.len() == 0,
        after.disassembly_panel.linear_insns@.len() == 0,
        after.modules_panel.selected_names@.len() == 0,
        after.cheat_table_panel.freeze_target_pid is None,
        after.cheat_table_panel.table == before.cheat_table_panel.table,
        after.outbox@.contains(Effect::UnbindWorkers),
{
    assert(after.outbox@.last() == Effect::UnbindWorkers);
}

/// What is attached is the process that was asked for, with the modules that were found
/// in it; an answer to an older request changes nothing.
pub proof fn attached_process_is_the_asked_one(
    pre: NemclassApp,
    post: NemclassApp,
    request: AttachRequest,
    opened: Opened,
)
    requires
        attach_taken(pre, post, request, Ok(opened)),
    ensures
        request.epoch == pre.attach_epoch ==> (post.process matches Some(t) && t.pid == request.pid
            && t.name == Some(request.name) && t.modules == opened.modules),
        request.epoch == pre.attach_epoch ==> post.disassembly_panel.linear_insns@.len() == 0
            && post.modules_panel.selected_names@.len() == 0 && post.last_error is None,
        request.epoch != pre.attach_epoch ==> post == pre,
{
}

/// Scripts are told of a detach, the workers let go of the process, and what was told
/// before is not lost; without a process there is nothing to tell.
pub proof fn detach_is_told(before: NemclassApp, after: NemclassApp)
    requires
        detached(before, after),
    ensures
        before.process is Some ==> after.outbox@.contains(Effect::Emit(AppEvent::Detached))
            && after.outbox@.contains(Effect::UnbindWorkers),
        before.process is None ==> after.outbox == before.outbox,
        forall|k: int|
            0 <= k < before.outbox@.len() ==> #[trigger] after.outbox@[k] == before.outbox@[k],
        after.process is None,
{
    if before.process is Some {
        let n = before.outbox@.len() as int;
        assert(after.outbox@[n] == Effect::Emit(AppEvent::Detached));
        assert(after.outbox@[n + 1] == Effect::UnbindWorkers);
    }
}

/// Scripts are told of the process that was attached, by its number and its name.
pub proof fn attach_is_told(
    before: NemclassApp,
    after: NemclassApp,
    pid: u32,
    name: String,
    opened: Opened,
)
    requires
        process_attached(before, after, pid, name, opened),
    ensures
        after.outbox@.len() == before.outbox@.len() + 1,
        after.outbox@.last() == Effect::Emit(AppEvent::Attached { pid, name }),
        after.outbox@.drop_last() == before.outbox@,
{
    assert(after.outbox@.drop_last() =~= before.outbox@);
}

} // verus!

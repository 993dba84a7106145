//! Creating, opening, saving and replacing the project, and the settings.
use vstd::prelude::*;
use vstd::string::StringExecFns;

use crate::app_class::{first_class, first_class_exec};
use crate::app_state::{due, is_due, AppEvent, Effect, NemclassApp, PendingDiscard};
use crate::cheat_table::{elapsed, CheatTablePanel};
use crate::class_actions::{interop_message, notes_text, NodeRef};
use crate::debugger::DebuggerPanel;
use crate::disassembly::DisassemblyPanel;
use crate::generator::{GeneratorPanel, Language};
use crate::host_api::{HotkeyReg, ScriptFreeze};
use crate::memory_viewer::MemoryViewer;
use crate::model::{empty_class, plain_node, FloatWidth, Node, Project, Shape};
use crate::modules_panel::ModulesPanel;
use crate::navigator::NavigatorPanel;
use crate::node_edit::EditHistory;
use crate::selection::Selection;
use crate::text::{decimal, decimal_exec, same_str, says, string_of};

verus! {

/// The file that holds a project, in the directory of the project.
pub const PROJECT_FILE: &'static str = "project.nemclass";

/// How long settings wait to be saved after a change, in milliseconds.
pub const SETTINGS_DELAY: u64 = 2000;

/// How often settings are saved without a change, in milliseconds.
pub const SETTINGS_HEARTBEAT: u64 = 30_000;

/// How often the class is read where the settings do not say, in milliseconds.
pub const DEFAULT_INTERVAL: u64 = 100;

/// Another project took the place of the one that was open. What hung on the old
/// one is gone; scripts are told and loaded where the new one has a directory.
pub open spec fn project_replaced(
    pre: NemclassApp,
    post: NemclassApp,
    project: Project,
    dir: Option<String>,
) -> bool {
    &&& post.node_snapshots@.len() == 0
    &&& post.mem_buf@.len() == 0
    &&& post.collapsed@.len() == 0
    &&& post.selection.rows@.len() == 0
    &&& post.selection.anchor is None
    &&& post.history.undo@.len() == 0
    &&& post.history.redo@.len() == 0
    &&& post.script_hotkeys@.len() == 0
    &&& post.script_freezes@.len() == 0
    &&& post.outbox@ == match dir {
        Some(d) => pre.outbox@.push(Effect::Emit(AppEvent::ProjectLoaded { path: d })).push(
            Effect::LoadScripts { dir: d },
        ),
        None => pre.outbox@,
    }
    &&& post == (NemclassApp {
        project,
        project_dir: dir,
        project_dirty: false,
        selected_class: first_class(project.classes@),
        class_base: None,
        node_snapshots: post.node_snapshots,
        mem_buf: post.mem_buf,
        edit_state: None,
        script_resolved_base: None,
        last_snapshot: None,
        collapsed: post.collapsed,
        selection: post.selection,
        history: post.history,
        script_hotkeys: post.script_hotkeys,
        next_hotkey_id: 1,
        script_freezes: post.script_freezes,
        script_scanner: None,
        outbox: post.outbox,
        ..pre
    })
}

/// Another project is open and its directory was used, which the message says.
pub open spec fn project_entered(
    pre: NemclassApp,
    post: NemclassApp,
    project: Project,
    dir: String,
    message: Seq<char>,
) -> bool {
    &&& says(post.status_msg, message)
    &&& exists|mid: NemclassApp| #[trigger]
        project_replaced(pre, mid, project, Some(dir)) && post == (NemclassApp {
            status_msg: post.status_msg,
            last_error: None,
            settings_dirty: true,
            ..mid
        })
}

/// Only the error changed: it says what failed, and why.
pub open spec fn failed(pre: NemclassApp, post: NemclassApp, what: Seq<char>, why: Seq<char>) -> bool {
    says(post.last_error, what + why) && post == (NemclassApp {
        last_error: post.last_error,
        ..pre
    })
}

/// What is done about unsaved changes.
#[derive(Clone, Copy, Debug, PartialEq, Eq, Structural)]
pub enum DiscardChoice {
    Save,
    Discard,
    Cancel,
}

/// What follows a choice about unsaved changes.
#[derive(Clone, Copy, Debug, PartialEq, Eq, Structural)]
pub enum DiscardStep {
    Nothing,
    /// Save, and then go on.
    SaveFirst(PendingDiscard),
    /// Go on.
    Run(PendingDiscard),
}

/// A choice about unsaved changes was made. Only "Discard" gives them up.
pub open spec fn choice_made(
    pre: NemclassApp,
    post: NemclassApp,
    choice: DiscardChoice,
    step: DiscardStep,
) -> bool {
    match pre.pending_discard {
        None => post == pre && step == DiscardStep::Nothing,
        Some(kind) => match choice {
            DiscardChoice::Cancel => post == (NemclassApp { pending_discard: None, ..pre }) && step
                == DiscardStep::Nothing,
            DiscardChoice::Save => post == (NemclassApp { pending_discard: None, ..pre }) && step
                == DiscardStep::SaveFirst(kind),
            DiscardChoice::Discard => post == (NemclassApp {
                pending_discard: None,
                project_dirty: false,
                ..pre
            }) && step == DiscardStep::Run(kind),
        },
    }
}

/// A project under another name, where there is one.
pub open spec fn renamed(project: Project, name: Option<String>) -> Project {
    match name {
        Some(n) => Project { name: n, ..project },
        None => project,
    }
}

/// Why a project could not be exported.
#[derive(Debug)]
pub enum ExportError {
    /// It cannot be put in the format.
    Format(String),
    /// The file could not be written.
    Write(String),
}

/// The title: a dot in front says that there are unsaved changes.
pub open spec fn title_of(app: NemclassApp) -> Seq<char> {
    let marker = if app.project_dirty {
        "• "@
    } else {
        ""@
    };
    match app.project_dir {
        Some(d) => marker + app.project.name@ + " — "@ + d@,
        None => marker + app.project.name@ + " (unsaved)"@,
    }
}

/// The first backend that is `last`, or else the first one; none where there is
/// none.
pub open spec fn backend_choice(names: Seq<String>, last: Option<Seq<char>>) -> Seq<char> {
    if last is Some && crate::modules_panel::has_name(names, last->0) {
        last->0
    } else if names.len() > 0 {
        names[0]@
    } else {
        Seq::empty()
    }
}

pub fn pick_backend(names: &Vec<String>, last: Option<&str>) -> (s: String)
    ensures
        s@ == backend_choice(names@, crate::key_file::opt_view(last)),
{
    if let Some(l) = last {
        if crate::modules_panel::has_name_exec(names, l) {
            return l.to_string();
        }
    }
    if names.len() > 0 {
        names[0].clone()
    } else {
        String::new()
    }
}

/// What the status bar says at the start: what came of the scripts, or else of
/// the key, or else that this is the demo project.
pub open spec fn startup_text(script: Option<Seq<char>>, key_path: Option<Seq<char>>) -> Seq<char> {
    match script {
        Some(m) => "Scripting: "@ + m,
        None => match key_path {
            Some(p) => "Loaded kernel auth key from "@ + p + "."@,
            None => "Demo project loaded. Use File > New or Open to load a project."@,
        },
    }
}

pub fn startup_status(script: Option<&str>, key_path: Option<&str>) -> (s: String)
    ensures
        s@ == startup_text(
            crate::key_file::opt_view(script),
            crate::key_file::opt_view(key_path),
        ),
{
    match script {
        Some(m) => {
            let mut s = "Scripting: ".to_string();
            s.append(m);
            s
        },
        None => match key_path {
            Some(p) => {
                let mut s = "Loaded kernel auth key from ".to_string();
                s.append(p);
                s.append(".");
                s
            },
            None => "Demo project loaded. Use File > New or Open to load a project.".to_string(),
        },
    }
}

/// Where a file dialog starts: in the project, or else in the project that was
/// used last, or else at home.
pub open spec fn dialog_start(
    dir: Option<String>,
    recent: Seq<String>,
    home: Option<Seq<char>>,
) -> Seq<char> {
    match dir {
        Some(d) => d@,
        None => if recent.len() > 0 {
            recent[0]@
        } else {
            match home {
                Some(h) => h,
                None => "."@,
            }
        },
    }
}

pub fn dialog_start_dir(dir: &Option<String>, recent: &Vec<String>, home: Option<&str>) -> (s: String)
    ensures
        s@ == dialog_start(*dir, recent@, crate::key_file::opt_view(home)),
{
    match dir {
        Some(d) => d.clone(),
        None => {
            if recent.len() > 0 {
                recent[0].clone()
            } else {
                match home {
                    Some(h) => h.to_string(),
                    None => ".".to_string(),
                }
            }
        },
    }
}

/// What the application starts with.
#[derive(Debug)]
pub struct Startup {
    pub backend_names: Vec<String>,
    pub selected_backend: String,
    pub project: Project,
    pub project_dir: Option<String>,
    pub kernel_key: String,
    pub interval: Option<u64>,
    pub status: String,
}

fn two_texts(a: &str, b: &str) -> (s: String)
    ensures
        s@ == a@ + b@,
{
    let mut s = a.to_string();
    s.append(b);
    s
}

impl NemclassApp {
    /// The application as it starts. Scripts are loaded before they are told of
    /// the project, so that what they register while loading is told too.
    pub fn new(start: Startup, now: u64) -> (app: Self)
        ensures
            app.wf(),
            app.backend_names == start.backend_names,
            app.selected_backend == start.selected_backend,
            app.project == start.project,
            app.project_dir == start.project_dir,
            !app.project_dirty,
            app.selected_class == first_class(start.project.classes@),
            app.process is None && app.attached_name is None && app.last_error is None,
            app.status_msg == Some(start.status),
            app.process_list@.len() == 0,
            app.process_list_status@ == "Press Refresh to enumerate processes."@,
            app.snapshot_interval == match start.interval {
                Some(i) => i,
                None => DEFAULT_INTERVAL,
            },
            app.process_filter@.len() == 0 && app.selected_process_idx is None,
            app.last_tick is None && app.last_liveness_check is None,
            app.last_script_freeze is None && app.last_script_watch is None,
            app.module_cache@.len() == 0 && app.module_cache_at is None,
            app.memory_viewer.is_fresh() && app.disassembly_panel.is_fresh(),
            app.modules_panel.filter@.len() == 0 && app.modules_panel.selected@.len() == 0,
            app.modules_panel.selected_names@.len() == 0,
            app.debugger_panel.is_fresh() && app.debugger_panel.key_hex == start.kernel_key,
            app.cheat_table_panel.is_fresh() && app.navigator_panel.is_fresh(),
            app.generator_panel == (GeneratorPanel {
                language: Language::Cpp,
                output: None,
                status: None,
            }),
            app.dissect_len_text@ == "0x100"@,
            app.attach_epoch == 0,
            app.next_hotkey_id == 1,
            app.script_hotkeys@.len() == 0 && app.script_freezes@.len() == 0,
            app.script_scanner is None && app.script_log@.len() == 0,
            app.class_base is None && app.script_resolved_base is None,
            app.node_snapshots@.len() == 0 && app.mem_buf@.len() == 0,
            app.collapsed@.len() == 0 && app.expanded_ptrs@.len() == 0,
            app.live_cache@.len() == 0,
            app.edit_state is None && app.dissect_preview is None && app.pending_discard is None,
            app.selection.rows@.len() == 0 && app.selection.anchor is None,
            app.history.undo@.len() == 0 && app.history.redo@.len() == 0,
            app.node_clipboard@.len() == 0 && app.pending_node_edits@.len() == 0,
            app.last_snapshot is None && app.pending_focus is None,
            !app.settings_dirty && app.last_settings_save == Some(now),
            app.outbox@ == match start.project_dir {
                Some(d) => seq![
                    Effect::LoadScripts { dir: d },
                    Effect::Emit(AppEvent::ProjectLoaded { path: d }),
                ],
                None => Seq::empty(),
            },
    {
        let mut outbox: Vec<Effect> = Vec::new();
        if let Some(d) = &start.project_dir {
            outbox.push(Effect::LoadScripts { dir: d.clone() });
            outbox.push(Effect::Emit(AppEvent::ProjectLoaded { path: d.clone() }));
        }
        let selected_class = first_class_exec(&start.project.classes);
        let interval: u64 = match start.interval {
            Some(i) => i,
            None => DEFAULT_INTERVAL,
        };
        let app = NemclassApp {
            backend_names: start.backend_names,
            selected_backend: start.selected_backend,
            process_list: Vec::new(),
            process_list_status: "Press Refresh to enumerate processes.".to_string(),
            process_filter: String::new(),
            selected_process_idx: None,
            process: None,
            attached_name: None,
            last_error: None,
            status_msg: Some(start.status),
            attach_epoch: 0,
            last_liveness_check: None,
            project: start.project,
            project_dir: start.project_dir,
            project_dirty: false,
            selected_class,
            node_snapshots: Vec::new(),
            class_base: None,
            mem_buf: Vec::new(),
            edit_state: None,
            selection: Selection::new(),
            history: EditHistory::new(),
            node_clipboard: Vec::new(),
            pending_node_edits: Vec::new(),
            script_resolved_base: None,
            last_snapshot: None,
            last_tick: None,
            snapshot_interval: interval,
            collapsed: Vec::new(),
            expanded_ptrs: Vec::new(),
            live_cache: Vec::new(),
            dissect_len_text: "0x100".to_string(),
            dissect_preview: None,
            pending_discard: None,
            pending_focus: None,
            script_log: Vec::new(),
            script_hotkeys: Vec::new(),
            next_hotkey_id: 1,
            script_freezes: Vec::new(),
            script_scanner: None,
            last_script_freeze: None,
            last_script_watch: None,
            module_cache: Vec::new(),
            module_cache_at: None,
            settings_dirty: false,
            last_settings_save: Some(now),
            memory_viewer: MemoryViewer::new(),
            disassembly_panel: DisassemblyPanel::new(),
            modules_panel: ModulesPanel::new(),
            debugger_panel: DebuggerPanel::with_key(start.kernel_key),
            cheat_table_panel: CheatTablePanel::new(),
            navigator_panel: NavigatorPanel::new(),
            generator_panel: GeneratorPanel {
                language: Language::Cpp,
                output: None,
                status: None,
            },
            outbox,
        };
        app
    }

    /// Puts another project in the place of the one that is open.
    pub fn replace_project(&mut self, project: Project, dir: Option<String>)
        ensures
            project_replaced(*old(self), *final(self), project, dir),
    {
        self.selected_class = first_class_exec(&project.classes);
        self.project = project;
        self.clear_memory_state();
        self.last_snapshot = None;
        self.collapsed = Vec::new();
        self.selection.clear();
        self.history.clear();
        self.project_dirty = false;
        self.script_hotkeys = Vec::new();
        self.next_hotkey_id = 1;
        self.script_freezes = Vec::new();
        self.script_scanner = None;
        if let Some(d) = &dir {
            self.outbox.push(Effect::Emit(AppEvent::ProjectLoaded { path: d.clone() }));
            self.outbox.push(Effect::LoadScripts { dir: d.clone() });
        }
        self.project_dir = dir;
    }

    fn enter_project(&mut self, project: Project, dir: String, message: String)
        ensures
            project_entered(*old(self), *final(self), project, dir, message@),
    {
        self.replace_project(project, Some(dir));
        let ghost mid = *self;
        assert(project_replaced(*old(self), mid, project, Some(dir)));
        self.status_msg = Some(message);
        self.last_error = None;
        self.settings_dirty = true;
    }

    /// A project was created in a directory, or the error says why not.
    pub fn project_created(&mut self, project: Project, dir: String, created: Result<(), String>)
        ensures
            match created {
                Err(e) => failed(*old(self), *final(self), "New project failed: "@, e@),
                Ok(_) => project_entered(
                    *old(self),
                    *final(self),
                    project,
                    dir,
                    "Created project '"@ + project.name@ + "' at "@ + dir@,
                ),
            },
    {
        match created {
            Err(e) => {
                self.last_error = Some(two_texts("New project failed: ", e.as_str()));
            },
            Ok(_) => {
                let mut m = two_texts("Created project '", project.name.as_str());
                m.append("' at ");
                m.append(dir.as_str());
                self.enter_project(project, dir, m);
            },
        }
    }

    /// A project was loaded with its directory, or the error says why not.
    pub fn project_opened(&mut self, loaded: Result<(Project, String), String>)
        ensures
            match loaded {
                Err(e) => failed(*old(self), *final(self), "Open failed: "@, e@),
                Ok((project, dir)) => project_entered(
                    *old(self),
                    *final(self),
                    project,
                    dir,
                    "Opened '"@ + project.name@ + "' from "@ + dir@,
                ),
            },
    {
        match loaded {
            Err(e) => {
                self.last_error = Some(two_texts("Open failed: ", e.as_str()));
            },
            Ok((project, dir)) => {
                let mut m = two_texts("Opened '", project.name.as_str());
                m.append("' from ");
                m.append(dir.as_str());
                self.enter_project(project, dir, m);
            },
        }
    }

    /// The project was saved in its directory, or the error says why not.
    pub fn project_saved(&mut self, dir: &str, saved: Result<(), String>)
        ensures
            match saved {
                Err(e) => failed(*old(self), *final(self), "Save failed: "@, e@),
                Ok(_) => {
                    &&& says(final(self).status_msg, "Saved to "@ + dir@)
                    &&& *final(self) == (NemclassApp {
                        status_msg: final(self).status_msg,
                        project_dirty: false,
                        ..*old(self)
                    })
                },
            },
    {
        match saved {
            Err(e) => {
                self.last_error = Some(two_texts("Save failed: ", e.as_str()));
            },
            Ok(_) => {
                self.status_msg = Some(two_texts("Saved to ", dir));
                self.project_dirty = false;
            },
        }
    }

    /// The project was saved in a directory that was picked, or the error says why
    /// not.
    pub fn project_saved_as(&mut self, dir: String, saved: Result<(), String>)
        ensures
            match saved {
                Err(e) => failed(*old(self), *final(self), "Save As failed: "@, e@),
                Ok(_) => {
                    &&& says(final(self).status_msg, "Saved to "@ + dir@)
                    &&& *final(self) == (NemclassApp {
                        project_dir: Some(dir),
                        status_msg: final(self).status_msg,
                        project_dirty: false,
                        last_error: None,
                        settings_dirty: true,
                        ..*old(self)
                    })
                },
            },
    {
        match saved {
            Err(e) => {
                self.last_error = Some(two_texts("Save As failed: ", e.as_str()));
            },
            Ok(_) => {
                self.status_msg = Some(two_texts("Saved to ", dir.as_str()));
                self.project_dir = Some(dir);
                self.project_dirty = false;
                self.last_error = None;
                self.settings_dirty = true;
            },
        }
    }

    /// A project was imported from a file. It has no directory yet, so it counts
    /// as unsaved; what could not be kept is told.
    pub fn project_imported(
        &mut self,
        path: &str,
        stem: Option<String>,
        imported: Result<(Project, Vec<String>), String>,
    )
        ensures
            match imported {
                Err(e) => failed(*old(self), *final(self), "Import failed: "@, e@),
                Ok((project, notes)) => {
                    let named = renamed(project, stem);
                    &&& says(
                        final(self).status_msg,
                        "Imported "@ + decimal(project.classes@.len()) + " class(es) from "@ + path@,
                    )
                    &&& final(self).project_dirty
                    &&& if notes@.len() == 0 {
                        final(self).last_error == old(self).last_error
                    } else {
                        says(final(self).last_error, notes_text("Import"@, notes@))
                    }
                    &&& exists|mid: NemclassApp| #[trigger]
                        project_replaced(*old(self), mid, named, None) && *final(self)
                            == (NemclassApp {
                            project_dirty: true,
                            status_msg: final(self).status_msg,
                            last_error: final(self).last_error,
                            ..mid
                        })
                },
            },
    {
        match imported {
            Err(e) => {
                self.last_error = Some(two_texts("Import failed: ", e.as_str()));
            },
            Ok((project, notes)) => {
                let ghost named = renamed(project, stem);
                let mut project = project;
                if let Some(s) = stem {
                    project.name = s;
                }
                assert(project == named);
                let mut m = "Imported ".to_string();
                let d = string_of(decimal_exec(project.classes.len() as u64).as_slice());
                m.append(d.as_str());
                m.append(" class(es) from ");
                m.append(path);
                self.replace_project(project, None);
                let ghost mid = *self;
                assert(project_replaced(*old(self), mid, named, None));
                self.project_dirty = true;
                self.status_msg = Some(m);
                if let Some(n) = interop_message("Import", &notes) {
                    self.last_error = Some(n);
                }
            },
        }
    }

    /// The project was exported to a file, or the error says why not; what could
    /// not be kept is told.
    pub fn project_exported(&mut self, path: &str, exported: Result<Vec<String>, ExportError>)
        ensures
            match exported {
                Err(ExportError::Format(e)) => failed(
                    *old(self),
                    *final(self),
                    "Export failed: "@,
                    e@,
                ),
                Err(ExportError::Write(e)) => failed(
                    *old(self),
                    *final(self),
                    "Could not write "@,
                    path@ + ": "@ + e@,
                ),
                Ok(notes) => {
                    &&& says(final(self).status_msg, "Exported to "@ + path@)
                    &&& if notes@.len() == 0 {
                        final(self).last_error == old(self).last_error
                    } else {
                        says(final(self).last_error, notes_text("Export"@, notes@))
                    }
                    &&& *final(self) == (NemclassApp {
                        status_msg: final(self).status_msg,
                        last_error: final(self).last_error,
                        ..*old(self)
                    })
                },
            },
    {
        match exported {
            Err(ExportError::Format(e)) => {
                self.last_error = Some(two_texts("Export failed: ", e.as_str()));
            },
            Err(ExportError::Write(e)) => {
                let mut why = two_texts(path, ": ");
                why.append(e.as_str());
                self.last_error = Some(two_texts("Could not write ", why.as_str()));
            },
            Ok(notes) => {
                self.status_msg = Some(two_texts("Exported to ", path));
                if let Some(n) = interop_message("Export", &notes) {
                    self.last_error = Some(n);
                }
            },
        }
    }

    /// Whether a new or another project can be picked at once. With unsaved changes
    /// the user is asked first.
    pub fn ask_discard(&mut self, kind: PendingDiscard) -> (go: bool)
        ensures
            go == !old(self).project_dirty,
            *final(self) == if old(self).project_dirty {
                NemclassApp { pending_discard: Some(kind), ..*old(self) }
            } else {
                *old(self)
            },
    {
        if self.project_dirty {
            self.pending_discard = Some(kind);
            return false;
        }
        true
    }

    /// The user chose what to do about unsaved changes.
    pub fn choose_discard(&mut self, choice: DiscardChoice) -> (step: DiscardStep)
        ensures
            choice_made(*old(self), *final(self), choice, step),
    {
        let kind = match self.pending_discard {
            None => return DiscardStep::Nothing,
            Some(k) => k,
        };
        self.pending_discard = None;
        match choice {
            DiscardChoice::Cancel => DiscardStep::Nothing,
            DiscardChoice::Save => DiscardStep::SaveFirst(kind),
            DiscardChoice::Discard => {
                self.project_dirty = false;
                DiscardStep::Run(kind)
            },
        }
    }

    /// Whether to go on after the changes were to be saved: not where they are
    /// still unsaved.
    pub fn discard_saved(&self, kind: PendingDiscard) -> (r: Option<PendingDiscard>)
        ensures
            r == if self.project_dirty {
                None
            } else {
                Some(kind)
            },
    {
        if self.project_dirty {
            None
        } else {
            Some(kind)
        }
    }

    /// The title of the window's bar.
    pub fn title(&self) -> (s: String)
        ensures
            s@ == title_of(*self),
    {
        let mut s = if self.project_dirty {
            "• ".to_string()
        } else {
            "".to_string()
        };
        s.append(self.project.name.as_str());
        match &self.project_dir {
            Some(d) => {
                s.append(" — ");
                s.append(d.as_str());
            },
            None => {
                s.append(" (unsaved)");
            },
        }
        s
    }

    /// Whether the settings are to be saved: some time after a change, and now and
    /// then without one.
    pub fn settings_due(&self, now: u64) -> (r: bool)
        ensures
            r == ((self.settings_dirty && is_due(self.last_settings_save, now, SETTINGS_DELAY))
                || (self.last_settings_save is Some && elapsed(self.last_settings_save->0, now)
                >= SETTINGS_HEARTBEAT)),
    {
        if self.settings_dirty && due(self.last_settings_save, now, SETTINGS_DELAY) {
            return true;
        }
        match self.last_settings_save {
            Some(t) => now.saturating_sub(t) >= SETTINGS_HEARTBEAT,
            None => false,
        }
    }

    /// The settings were saved, or the error says why not.
    pub fn settings_saved(&mut self, saved: Result<(), String>, now: u64)
        ensures
            match saved {
                Ok(_) => final(self).last_error == old(self).last_error,
                Err(e) => says(final(self).last_error, "Settings save failed: "@ + e@),
            },
            *final(self) == (NemclassApp {
                last_error: final(self).last_error,
                settings_dirty: false,
                last_settings_save: Some(now),
                ..*old(self)
            }),
    {
        if let Err(e) = saved {
            self.last_error = Some(two_texts("Settings save failed: ", e.as_str()));
        }
        self.settings_dirty = false;
        self.last_settings_save = Some(now);
    }
}

/// A field of the demo project.
pub struct DemoField {
    pub tag: Seq<char>,
    pub name: Seq<char>,
    pub comment: Seq<char>,
    pub size: usize,
    pub shape: Shape,
}

/// The node is that field.
pub open spec fn is_demo_field(n: Node, f: DemoField) -> bool {
    n.tag@ == f.tag && n.name@ == f.name && n.comment@ == f.comment && n.memory_size == f.size
        && n.shape == f.shape && !n.hidden && !n.container && n.children@.len() == 0 && n.instance is None
        && n.pointer_target is None && n.takes_target == (f.tag == "Pointer"@) && n.pointer_sized
        == (f.tag == "Pointer"@)
}

/// The fields of the class of the demo project.
pub open spec fn demo_fields() -> Seq<DemoField> {
    let s = Shape::Scalar;
    seq![
        DemoField { tag: "Int32"@, name: "health"@, comment: "Current HP"@, size: 4, shape: s },
        DemoField { tag: "Int32"@, name: "max_health"@, comment: "Max HP"@, size: 4, shape: s },
        DemoField { tag: "Float"@, name: "mana"@, comment: "Mana pool"@, size: 4, shape: s },
        DemoField {
            tag: "Vector3"@,
            name: "position"@,
            comment: "World position (Vec3 f32)"@,
            size: 12,
            shape: Shape::Vector { count: 3, width: FloatWidth::F32 },
        },
        DemoField {
            tag: "Vector4"@,
            name: "rotation"@,
            comment: "Orientation quaternion (Vec4 f32)"@,
            size: 16,
            shape: Shape::Vector { count: 4, width: FloatWidth::F32 },
        },
        DemoField {
            tag: "Matrix4x4"@,
            name: "view_matrix"@,
            comment: "View matrix — expand to edit cells"@,
            size: 64,
            shape: Shape::Matrix { rows: 4, cols: 4, width: FloatWidth::F32 },
        },
        DemoField {
            tag: "Hex32"@,
            name: "flags"@,
            comment: "State flags (hex)"@,
            size: 4,
            shape: s,
        },
        DemoField { tag: "Hex64"@, name: "vtable"@, comment: "vptr (hex)"@, size: 8, shape: s },
        DemoField {
            tag: "Pointer"@,
            name: "next"@,
            comment: "Linked list next"@,
            size: 8,
            shape: s,
        },
        DemoField { tag: "Bool"@, name: "alive"@, comment: "Is alive?"@, size: 1, shape: s },
        DemoField { tag: "UInt8"@, name: "level"@, comment: "Level (1-255)"@, size: 1, shape: s },
        DemoField {
            tag: "Utf8Text"@,
            name: "name"@,
            comment: "Name (UTF-8, 32 B)"@,
            size: 32,
            shape: s,
        },
        DemoField {
            tag: "Array"@,
            name: "inv_ids"@,
            comment: "10 x u32 item IDs"@,
            size: 40,
            shape: s,
        },
    ]
}

fn demo_node(tag: &str, name: &str, comment: &str, size: usize, shape: Shape) -> (n: Node)
    ensures
        is_demo_field(
            n,
            (DemoField { tag: tag@, name: name@, comment: comment@, size, shape }),
        ),
{
    let mut n = plain_node(tag, name.to_string(), size);
    n.comment = comment.to_string();
    n.shape = shape;
    let pointer = same_str(tag, "Pointer");
    n.takes_target = pointer;
    n.pointer_sized = pointer;
    n
}

/// The project that is shown before any other is opened. `fresh` is the id of its
/// class.
pub fn demo_project(fresh: u128) -> (p: Project)
    ensures
        p.wf(),
        p.name@ == "Demo Project"@,
        p.enums@.len() == 0,
        p.pointer_size == 8,
        p.classes@.len() == 1,
        p.classes@[0].id == fresh,
        p.classes@[0].name@ == "PlayerObject"@,
        p.classes@[0].comment@ == "Attach to a process and set a formula to go live."@,
        p.classes@[0].address_formula@.len() == 0,
        p.classes@[0].children@.len() == demo_fields().len(),
        forall|i: int|
            0 <= i < demo_fields().len() ==> is_demo_field(
                #[trigger] p.classes@[0].children@[i],
                demo_fields()[i],
            ),
{
    let mut class = empty_class(fresh, "PlayerObject".to_string());
    class.comment = "Attach to a process and set a formula to go live.".to_string();
    let s = Shape::Scalar;
    let f = FloatWidth::F32;
    let children = vec![
        demo_node("Int32", "health", "Current HP", 4, s),
        demo_node("Int32", "max_health", "Max HP", 4, s),
        demo_node("Float", "mana", "Mana pool", 4, s),
        demo_node(
            "Vector3",
            "position",
            "World position (Vec3 f32)",
            12,
            Shape::Vector { count: 3, width: f },
        ),
        demo_node(
            "Vector4",
            "rotation",
            "Orientation quaternion (Vec4 f32)",
            16,
            Shape::Vector { count: 4, width: f },
        ),
        demo_node(
            "Matrix4x4",
            "view_matrix",
            "View matrix — expand to edit cells",
            64,
            Shape::Matrix { rows: 4, cols: 4, width: f },
        ),
        demo_node("Hex32", "flags", "State flags (hex)", 4, s),
        demo_node("Hex64", "vtable", "vptr (hex)", 8, s),
        demo_node("Pointer", "next", "Linked list next", 8, s),
        demo_node("Bool", "alive", "Is alive?", 1, s),
        demo_node("UInt8", "level", "Level (1-255)", 1, s),
        demo_node("Utf8Text", "name", "Name (UTF-8, 32 B)", 32, s),
        demo_node("Array", "inv_ids", "10 x u32 item IDs", 40, s),
    ];
    class.children = children;
    let mut p = Project::new("Demo Project".to_string());
    p.classes.push(class);
    p
}

/// Without the user's word nothing unsaved is given up: asked with unsaved
/// changes, and answered with "Cancel", the project is as it was.
pub proof fn cancel_keeps_unsaved_changes(
    before: NemclassApp,
    asked: NemclassApp,
    after: NemclassApp,
    kind: PendingDiscard,
    step: DiscardStep,
)
    requires
        before.project_dirty,
        before.pending_discard is None,
        asked == (NemclassApp { pending_discard: Some(kind), ..before }),
        choice_made(asked, after, DiscardChoice::Cancel, step),
    ensures
        after == before,
        step == DiscardStep::Nothing,
{
}

/// Nothing that scripts registered for one project is left in the next, and no
/// change of it can be undone there.
pub proof fn replaced_project_starts_clean(
    before: NemclassApp,
    after: NemclassApp,
    project: Project,
    dir: Option<String>,
)
    requires
        project_replaced(before, after, project, dir),
    ensures
        after.project == project,
        !after.project_dirty,
        after.script_hotkeys@ == Seq::<HotkeyReg>::empty(),
        after.script_freezes@ == Seq::<ScriptFreeze>::empty(),
        after.script_scanner is None,
        after.next_hotkey_id == 1,
        after.history.undo@ == Seq::<Project>::empty(),
        after.history.redo@ == Seq::<Project>::empty(),
        after.selection.rows@ == Seq::<NodeRef>::empty(),
        after.selected_class == first_class(project.classes@),
        after.process == before.process,
{
}

/// The backend that is picked is one that there is, and the last one wherever it is
/// still there.
pub proof fn picked_backend_is_there(names: Seq<String>, last: Seq<char>)
    requires
        names.len() > 0,
    ensures
        crate::modules_panel::has_name(names, backend_choice(names, Some(last))),
        crate::modules_panel::has_name(names, last) ==> backend_choice(names, Some(last)) == last,
        crate::modules_panel::has_name(names, backend_choice(names, None)),
{
    assert(names[0]@ == names[0]@);
}

/// Scripts are told of the project that was opened, and its own scripts are loaded from
/// its directory.
pub proof fn opened_project_is_told(
    before: NemclassApp,
    after: NemclassApp,
    project: Project,
    dir: String,
)
    requires
        project_replaced(before, after, project, Some(dir)),
    ensures
        after.project == project,
        after.project_dir == Some(dir),
        after.outbox@.contains(Effect::Emit(AppEvent::ProjectLoaded { path: dir })),
        after.outbox@.last() == (Effect::LoadScripts { dir }),
        project.classes@.len() > 0 ==> after.selected_class == Some(project.classes@[0].id),
{
    let n = before.outbox@.len() as int;
    assert(after.outbox@[n] == Effect::Emit(AppEvent::ProjectLoaded { path: dir }));
}

} // verus!

//! What the application does for scripts: lending them the project, timing, and
//! telling them of hotkeys.
use vstd::prelude::*;
use vstd::string::StringExecFns;

use crate::app_state::{due, is_due, AppEvent, Effect, NemclassApp};
use crate::cheat_table::CheatTable;
use crate::host_api::{logged, HotkeyReg, LogKind, LogLine, UiAction, UiHostApi};
use crate::host_classes::NodeKind;
use crate::host_proc::{pid_of, pid_of_exec};
use crate::host_scan::ScanCompare;
use crate::model::Project;
use crate::modules_panel::{has_name, has_name_exec};
use crate::process_reader::{same_ignoring_case, same_ignoring_case_exec};
use crate::scan_value::TypeTags;

verus! {

/// How often it is looked whether a script file changed, in milliseconds.
pub const SCRIPT_WATCH_INTERVAL: u64 = 1000;

/// Everything that scripts work on was lent out; in its place there is nothing.
pub open spec fn lent(pre: NemclassApp, post: NemclassApp, host: UiHostApi) -> bool {
    &&& host.project == pre.project
    &&& host.process == pre.process
    &&& host.log == pre.script_log
    &&& host.last_error == pre.last_error
    &&& host.ui_actions@.len() == 0
    &&& host.cheat_table == pre.cheat_table_panel.table
    &&& host.script_hotkeys == pre.script_hotkeys
    &&& host.next_hotkey_id == pre.next_hotkey_id
    &&& host.script_freezes == pre.script_freezes
    &&& host.session == pre.script_scanner
    &&& post == (NemclassApp {
        project: post.project,
        process: None,
        script_log: post.script_log,
        last_error: None,
        cheat_table_panel: post.cheat_table_panel,
        script_hotkeys: post.script_hotkeys,
        script_freezes: post.script_freezes,
        script_scanner: None,
        ..pre
    })
    &&& post.cheat_table_panel == (crate::cheat_table::CheatTablePanel {
        table: post.cheat_table_panel.table,
        ..pre.cheat_table_panel
    })
    &&& post.project.classes@.len() == 0 && post.project.enums@.len() == 0
    &&& post.script_log@.len() == 0
    &&& post.cheat_table_panel.table.entries@.len() == 0
    &&& post.script_hotkeys@.len() == 0 && post.script_freezes@.len() == 0
}

/// What scripts worked on was given back.
pub open spec fn given_back(pre: NemclassApp, post: NemclassApp, host: UiHostApi) -> bool {
    post == (NemclassApp {
        project: host.project,
        process: host.process,
        script_log: host.log,
        last_error: host.last_error,
        cheat_table_panel: (crate::cheat_table::CheatTablePanel {
            table: host.cheat_table,
            ..pre.cheat_table_panel
        }),
        script_hotkeys: host.script_hotkeys,
        next_hotkey_id: host.next_hotkey_id,
        script_freezes: host.script_freezes,
        script_scanner: host.session,
        ..pre
    })
}

/// The keys that went down, by their names, and the modifiers that were held.
#[derive(Debug)]
pub struct KeysDown {
    pub keys: Vec<String>,
    pub ctrl: bool,
    pub shift: bool,
    pub alt: bool,
}

/// The hotkey was pressed, with its modifiers and no others.
pub open spec fn is_pressed(h: HotkeyReg, k: KeysDown) -> bool {
    has_name(k.keys@, h.key@) && h.ctrl == k.ctrl && h.shift == k.shift && h.alt == k.alt
}

/// What scripts are told of the hotkeys that were pressed, in the order in which
/// they were registered.
pub open spec fn pressed_events(keys: Seq<HotkeyReg>, k: KeysDown) -> Seq<Effect>
    decreases keys.len(),
{
    if keys.len() == 0 {
        Seq::empty()
    } else if is_pressed(keys.last(), k) {
        pressed_events(keys.drop_last(), k).push(
            Effect::Emit(AppEvent::Hotkey { id: keys.last().id }),
        )
    } else {
        pressed_events(keys.drop_last(), k)
    }
}

/// The extension is that of a script.
pub fn is_script_extension(ext: &str) -> (r: bool)
    ensures
        r == (same_ignoring_case(ext@, "js"@) || same_ignoring_case(ext@, "ts"@)),
{
    same_ignoring_case_exec(ext, "js") || same_ignoring_case_exec(ext, "ts")
}

/// What is said of the script engine; nothing where it runs.
pub open spec fn engine_text(active: bool, built: bool) -> Seq<char> {
    if active {
        ""@
    } else if built {
        "Engine not running — spawn failed; see startup status."@
    } else {
        "Built without the `scripting` feature — rebuild with --features scripting for JS."@
    }
}

pub fn engine_status(active: bool, built: bool) -> (s: &'static str)
    ensures
        s@ == engine_text(active, built),
{
    if active {
        ""
    } else if built {
        "Engine not running — spawn failed; see startup status."
    } else {
        "Built without the `scripting` feature — rebuild with --features scripting for JS."
    }
}

impl NemclassApp {
    /// Lends scripts what they work on.
    pub fn lend(
        &mut self,
        kinds: Vec<NodeKind>,
        tags: TypeTags,
        compares: Vec<ScanCompare>,
    ) -> (host: UiHostApi)
        ensures
            lent(*old(self), *final(self), host),
            host.kinds == kinds,
            host.tags == tags,
            host.compares == compares,
    {
        let mut project = Project::new(String::new());
        std::mem::swap(&mut project, &mut self.project);
        let mut log: Vec<LogLine> = Vec::new();
        std::mem::swap(&mut log, &mut self.script_log);
        let mut cheat_table = CheatTable::new("");
        std::mem::swap(&mut cheat_table, &mut self.cheat_table_panel.table);
        let mut script_hotkeys: Vec<HotkeyReg> = Vec::new();
        std::mem::swap(&mut script_hotkeys, &mut self.script_hotkeys);
        let mut script_freezes: Vec<crate::host_api::ScriptFreeze> = Vec::new();
        std::mem::swap(&mut script_freezes, &mut self.script_freezes);
        let process = self.process.take();
        let last_error = self.last_error.take();
        let session = self.script_scanner.take();
        UiHostApi {
            project,
            kinds,
            process,
            log,
            last_error,
            ui_actions: Vec::new(),
            cheat_table,
            script_hotkeys,
            next_hotkey_id: self.next_hotkey_id,
            script_freezes,
            session,
            tags,
            compares,
        }
    }

    /// Takes back what was lent; what scripts ask of the panels is left to be done.
    pub fn take_back(&mut self, host: UiHostApi) -> (actions: Vec<UiAction>)
        ensures
            given_back(*old(self), *final(self), host),
            actions == host.ui_actions,
    {
        self.project = host.project;
        self.process = host.process;
        self.script_log = host.log;
        self.last_error = host.last_error;
        self.cheat_table_panel.table = host.cheat_table;
        self.script_hotkeys = host.script_hotkeys;
        self.next_hotkey_id = host.next_hotkey_id;
        self.script_freezes = host.script_freezes;
        self.script_scanner = host.session;
        host.ui_actions
    }

    /// Tells scripts that time passes, as often as the class is read, where an
    /// engine runs.
    pub fn tick_scripts(&mut self, active: bool, now: u64)
        ensures
            if active && is_due(old(self).last_tick, now, old(self).snapshot_interval) {
                &&& final(self).outbox@ == old(self).outbox@.push(
                    Effect::Emit(AppEvent::Tick { pid: pid_of(old(self).process) }),
                )
                &&& *final(self) == (NemclassApp {
                    last_tick: Some(now),
                    outbox: final(self).outbox,
                    ..*old(self)
                })
            } else {
                *final(self) == *old(self)
            },
    {
        if active && due(self.last_tick, now, self.snapshot_interval) {
            self.last_tick = Some(now);
            let pid = pid_of_exec(&self.process);
            self.outbox.push(Effect::Emit(AppEvent::Tick { pid }));
        }
    }

    /// Whether it is to be looked if a script file changed.
    pub fn watch_scripts(&mut self, auto_reload: bool, active: bool, now: u64) -> (look: bool)
        ensures
            look == (auto_reload && active && is_due(
                old(self).last_script_watch,
                now,
                SCRIPT_WATCH_INTERVAL,
            )),
            *final(self) == if look {
                NemclassApp { last_script_watch: Some(now), ..*old(self) }
            } else {
                *old(self)
            },
    {
        if auto_reload && active && due(self.last_script_watch, now, SCRIPT_WATCH_INTERVAL) {
            self.last_script_watch = Some(now);
            return true;
        }
        false
    }

    /// The scripts of a directory were loaded, or could not be, which the log says.
    /// Without an engine a load that did nothing is not logged.
    pub fn scripts_loaded(&mut self, label: &str, dir: &str, loaded: Result<(), String>, active: bool)
        ensures
            *final(self) == (NemclassApp { script_log: final(self).script_log, ..*old(self) }),
            match loaded {
                Ok(_) => if active {
                    logged(
                        old(self).script_log@,
                        final(self).script_log@,
                        LogKind::Lifecycle,
                        label@ + " "@ + dir@,
                    )
                } else {
                    final(self).script_log == old(self).script_log
                },
                Err(e) => logged(
                    old(self).script_log@,
                    final(self).script_log@,
                    LogKind::Error,
                    label@ + " failed: "@ + e@,
                ),
            },
    {
        let ghost was = self.script_log@;
        let mut s = label.to_string();
        match loaded {
            Ok(_) => {
                if active {
                    s.append(" ");
                    s.append(dir);
                    self.script_log.push(LogLine { kind: LogKind::Lifecycle, text: s });
                    assert(self.script_log@.drop_last() =~= was);
                }
            },
            Err(e) => {
                s.append(" failed: ");
                s.append(e.as_str());
                self.script_log.push(LogLine { kind: LogKind::Error, text: s });
                assert(self.script_log@.drop_last() =~= was);
            },
        }
    }

    /// Tells scripts of their hotkeys that were pressed, where an engine runs and
    /// nobody types into a text box.
    pub fn press_hotkeys(&mut self, down: &KeysDown, active: bool, typing: bool)
        ensures
            *final(self) == (NemclassApp { outbox: final(self).outbox, ..*old(self) }),
            final(self).outbox@ == if active && !typing {
                old(self).outbox@ + pressed_events(old(self).script_hotkeys@, *down)
            } else {
                old(self).outbox@
            },
    {
        if !active || typing {
            return ;
        }
        let ghost was = self.outbox@;
        let ghost all = self.script_hotkeys@;
        let mut i: usize = 0;
        assert(was + Seq::<Effect>::empty() =~= was);
        while i < self.script_hotkeys.len()
            invariant
                i <= all.len(),
                *self == (NemclassApp { outbox: self.outbox, ..*old(self) }),
                all == self.script_hotkeys@,
                self.outbox@ == was + pressed_events(all.subrange(0, i as int), *down),
            decreases all.len() - i,
        {
            assert(all.subrange(0, i + 1).drop_last() =~= all.subrange(0, i as int));
            let h = &self.script_hotkeys[i];
            if has_name_exec(&down.keys, h.key.as_str()) && h.ctrl == down.ctrl && h.shift
                == down.shift && h.alt == down.alt {
                let id: u32 = h.id;
                let ghost before = self.outbox@;
                self.outbox.push(Effect::Emit(AppEvent::Hotkey { id }));
                assert(self.outbox@ =~= was + pressed_events(all.subrange(0, i + 1), *down));
            }
            i += 1;
        }
        assert(all.subrange(0, all.len() as int) =~= all);
    }
}

/// What was lent comes back as it was, where scripts leave it alone.
pub proof fn lending_changes_nothing(
    before: NemclassApp,
    mid: NemclassApp,
    after: NemclassApp,
    host: UiHostApi,
)
    requires
        lent(before, mid, host),
        given_back(mid, after, host),
    ensures
        after == before,
{
}

} // verus!

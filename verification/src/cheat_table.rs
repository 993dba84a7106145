//! The cheat table: saved addresses, what they hold, and the values that they are
//! pinned to.
use vstd::prelude::*;
use vstd::string::StringExecFns;

use crate::address::{hex_addr, lemma_hex_addr_fits, parse_addr_text};
use crate::host_ops::{writes_view, MemWrite, WriteView};
use crate::process_reader::ModuleInfo;
use crate::scalar::RealReading;
use crate::scan_value::{
    format_value_bytes, shown_value, pinned_bytes, value_text_to_bytes, ScanValueType, TypeTags,
};
use crate::text::{decimal, decimal_exec, says, string_of};

verus! {

/// How many milliseconds lie between two writes of the frozen values.
pub const FREEZE_INTERVAL: u64 = 200;

/// How many milliseconds the list of modules is used before it is read again.
pub const MODULE_CACHE_TTL: u64 = 1000;

/// A saved address.
#[derive(Debug)]
pub struct CheatEntry {
    pub description: String,
    /// An address in hex or an address formula.
    pub address: String,
    /// The tag of the type of the value.
    pub value_type: String,
    pub frozen: bool,
    /// The value that a frozen entry is pinned to.
    pub frozen_value: String,
    pub group: String,
}

impl Clone for CheatEntry {
    fn clone(&self) -> (r: Self)
        ensures
            r == *self,
    {
        CheatEntry {
            description: self.description.clone(),
            address: self.address.clone(),
            value_type: self.value_type.clone(),
            frozen: self.frozen,
            frozen_value: self.frozen_value.clone(),
            group: self.group.clone(),
        }
    }
}

impl CheatEntry {
    /// An entry that is not frozen.
    pub fn new(description: &str, address: &str, value_type: &str) -> (e: Self)
        ensures
            e.description@ == description@,
            e.address@ == address@,
            e.value_type@ == value_type@,
            !e.frozen,
            e.frozen_value@ == Seq::<char>::empty(),
            e.group@ == Seq::<char>::empty(),
    {
        CheatEntry {
            description: description.to_string(),
            address: address.to_string(),
            value_type: value_type.to_string(),
            frozen: false,
            frozen_value: String::new(),
            group: String::new(),
        }
    }
}

/// A named list of saved addresses.
#[derive(Debug)]
pub struct CheatTable {
    pub name: String,
    pub entries: Vec<CheatEntry>,
}

impl CheatTable {
    pub fn new(name: &str) -> (t: Self)
        ensures
            t.name@ == name@,
            t.entries@.len() == 0,
    {
        CheatTable { name: name.to_string(), entries: Vec::new() }
    }

    pub fn push(&mut self, entry: CheatEntry)
        ensures
            final(self).name == old(self).name,
            final(self).entries@ == old(self).entries@.push(entry),
    {
        self.entries.push(entry);
    }

    /// Takes out an entry, if there is one with that number.
    pub fn remove(&mut self, idx: usize) -> (r: Option<CheatEntry>)
        ensures
            final(self).name == old(self).name,
            if idx < old(self).entries@.len() {
                r == Some(old(self).entries@[idx as int]) && final(self).entries@ == old(self).entries@.remove(idx as int)
            } else {
                r is None && final(self).entries == old(self).entries
            },
    {
        if idx < self.entries.len() {
            Some(self.entries.remove(idx))
        } else {
            None
        }
    }
}

/// What the panel asks of the application.
#[derive(Debug)]
pub enum CheatTablePanelAction {
    Nothing,
    /// Save the table under this name.
    Save(String),
    /// Load the table of this name.
    Load(String),
    /// Show this address in the memory viewer.
    GotoAddr(usize),
}

/// What was read for an entry: the bytes, where the process is there, the address
/// is known and the read went through, and their text as a floating-point number.
#[derive(Debug)]
pub struct EntryReading {
    pub bytes: Option<Vec<u8>>,
    pub real_text: String,
}

/// The address of an entry: written in hex, or else where its formula leads.
pub open spec fn entry_addr(entry: CheatEntry, formula: Option<usize>) -> Option<int> {
    match hex_addr(entry.address@) {
        Some(a) => Some(a),
        None => match formula {
            Some(a) => Some(a as int),
            None => None,
        },
    }
}

/// Resolves the address of an entry. `formula` is where the address leads as a
/// formula, which takes a process to find out.
pub fn resolve_entry_addr(entry: &CheatEntry, formula: Option<usize>) -> (r: Option<usize>)
    ensures
        match r {
            Some(a) => entry_addr(*entry, formula) == Some(a as int),
            None => entry_addr(*entry, formula) is None,
        },
{
    match parse_addr_text(entry.address.as_str()) {
        Some(a) => Some(a),
        None => formula,
    }
}

/// What an entry shows: the value that was read, else the value that it is
/// pinned to, else a dash.
pub open spec fn entry_text(
    entry: CheatEntry,
    vt: Option<ScanValueType>,
    reading: Option<EntryReading>,
) -> Seq<char> {
    let pinned = if entry.frozen_value@.len() > 0 {
        entry.frozen_value@
    } else {
        "–"@
    };
    match (vt, reading) {
        (Some(t), Some(r)) => match (t.width(), r.bytes) {
            (Some(w), Some(b)) => if b@.len() >= w {
                shown_value(b@, t, r.real_text@)
            } else {
                pinned
            },
            _ => pinned,
        },
        _ => pinned,
    }
}

/// What an entry shows.
pub fn read_entry_value(
    entry: &CheatEntry,
    vt: Option<ScanValueType>,
    reading: Option<&EntryReading>,
) -> (s: String)
    ensures
        s@ == entry_text(
            *entry,
            vt,
            match reading {
                Some(r) => Some(*r),
                None => None,
            },
        ),
{
    if let Some(t) = vt {
        if let Some(r) = reading {
            if let Some(w) = t.fixed_width() {
                if let Some(b) = &r.bytes {
                    if b.len() >= w {
                        return format_value_bytes(b.as_slice(), t, r.real_text.as_str());
                    }
                }
            }
        }
    }
    if !entry.frozen_value.as_str().is_empty() {
        entry.frozen_value.clone()
    } else {
        "–".to_string()
    }
}

/// The cheat-table panel.
#[derive(Debug)]
pub struct CheatTablePanel {
    pub table: CheatTable,
    /// When the frozen values were last written.
    pub last_freeze: Option<u64>,
    pub live_values: Vec<String>,
    pub status_msg: Option<String>,
    pub modules: Vec<ModuleInfo>,
    /// When the modules were last read.
    pub modules_at: Option<u64>,
    /// The process that frozen values are written to.
    pub freeze_target_pid: Option<u32>,
}

/// So many milliseconds have passed since `then`.
pub open spec fn elapsed(then: u64, now: u64) -> int {
    if now >= then {
        now - then
    } else {
        0
    }
}

/// Every entry is frozen, and there is one.
pub open spec fn all_frozen(entries: Seq<CheatEntry>) -> bool {
    entries.len() > 0 && forall|i: int| 0 <= i < entries.len() ==> (#[trigger] entries[i]).frozen
}

/// The texts are those of the entries.
pub open spec fn are_live(
    live: Seq<String>,
    entries: Seq<CheatEntry>,
    tags: TypeTags,
    readings: Seq<EntryReading>,
) -> bool {
    &&& live.len() == entries.len()
    &&& forall|i: int|
        0 <= i < live.len() ==> (#[trigger] live[i])@ == entry_text(
            entries[i],
            tags.of(entries[i].value_type@),
            if i < readings.len() {
                Some(readings[i])
            } else {
                None
            },
        )
}

/// An entry that is frozen to a value, or released.
pub open spec fn pinned_to(e: CheatEntry, was: CheatEntry, frozen: bool, value: Seq<char>) -> bool {
    &&& e == CheatEntry { frozen: e.frozen, frozen_value: e.frozen_value, ..was }
    &&& e.frozen == frozen
    &&& e.frozen_value@ == if frozen {
        value
    } else {
        Seq::empty()
    }
}

/// Every entry was frozen to what it shows, or released where every one was
/// frozen.
pub open spec fn toggled_all(
    was: Seq<CheatEntry>,
    now: Seq<CheatEntry>,
    live: Seq<String>,
) -> bool {
    &&& now.len() == was.len()
    &&& forall|i: int|
        0 <= i < now.len() ==> pinned_to(
            #[trigger] now[i],
            was[i],
            was.len() > 0 && !all_frozen(was),
            live[i]@,
        )
}

impl CheatTablePanel {
    /// The table is empty, and nothing was read or frozen.
    pub open spec fn is_fresh(&self) -> bool {
        &&& self.table.name@ == "default"@
        &&& self.table.entries@.len() == 0
        &&& self.last_freeze is None
        &&& self.live_values@.len() == 0
        &&& self.status_msg is None
        &&& self.modules@.len() == 0
        &&& self.modules_at is None
        &&& self.freeze_target_pid is None
    }

    pub fn new() -> (p: Self)
        ensures
            p.is_fresh(),
    {
        CheatTablePanel {
            table: CheatTable::new("default"),
            last_freeze: None,
            live_values: Vec::new(),
            status_msg: None,
            modules: Vec::new(),
            modules_at: None,
            freeze_target_pid: None,
        }
    }

    /// The table, to be changed.
    pub fn table_mut(&mut self) -> (t: &mut CheatTable)
        ensures
            *t == old(self).table,
            *final(self) == (CheatTablePanel { table: *final(t), ..*old(self) }),
    {
        &mut self.table
    }

    /// Takes another table.
    pub fn set_table(&mut self, table: CheatTable)
        ensures
            final(self).table == table,
            final(self).live_values@.len() == 0,
            *final(self) == (CheatTablePanel {
                table: final(self).table,
                live_values: final(self).live_values,
                ..*old(self)
            }),
    {
        self.table = table;
        self.live_values = Vec::new();
    }

    /// What belonged to the process is gone. The table stays.
    pub open spec fn detached(pre: Self, post: Self) -> bool {
        &&& post.table == pre.table
        &&& post.status_msg == pre.status_msg
        &&& post.last_freeze is None
        &&& post.live_values@.len() == 0
        &&& post.modules@.len() == 0
        &&& post.modules_at is None
        &&& post.freeze_target_pid is None
    }

    /// Forgets what belongs to the process. The table stays.
    pub fn on_detach(&mut self)
        ensures
            Self::detached(*old(self), *final(self)),
    {
        self.last_freeze = None;
        self.live_values = Vec::new();
        self.modules = Vec::new();
        self.modules_at = None;
        self.freeze_target_pid = None;
    }

    /// The modules have to be read again: they never were, or too long ago.
    pub fn modules_stale(&self, now: u64) -> (r: bool)
        ensures
            r == match self.modules_at {
                None => true,
                Some(t) => elapsed(t, now) >= MODULE_CACHE_TTL,
            },
    {
        match self.modules_at {
            None => true,
            Some(t) => now.saturating_sub(t) >= MODULE_CACHE_TTL,
        }
    }

    /// Brings the list of modules up to date. `fetched` is what was read, where a
    /// process is attached; without one the list is dropped.
    pub fn cached_modules(&mut self, fetched: Option<Vec<ModuleInfo>>, now: u64)
        ensures
            ({
                let stale = match old(self).modules_at {
                    None => true,
                    Some(t) => elapsed(t, now) >= MODULE_CACHE_TTL,
                };
                match fetched {
                    None => final(self).modules@.len() == 0 && final(self).modules_at is None,
                    Some(m) => if stale {
                        final(self).modules == m && final(self).modules_at == Some(now)
                    } else {
                        final(self).modules == old(self).modules && final(self).modules_at == old(self).modules_at
                    },
                }
            }),
            *final(self) == (CheatTablePanel {
                modules: final(self).modules,
                modules_at: final(self).modules_at,
                ..*old(self)
            }),
    {
        match fetched {
            None => {
                self.modules = Vec::new();
                self.modules_at = None;
            },
            Some(m) => {
                if self.modules_stale(now) {
                    self.modules = m;
                    self.modules_at = Some(now);
                }
            },
        }
    }

    /// Refreshes what the entries show.
    pub fn refresh_live(&mut self, tags: &TypeTags, readings: &Vec<EntryReading>)
        ensures
            are_live(final(self).live_values@, old(self).table.entries@, *tags, readings@),
            *final(self) == (CheatTablePanel { live_values: final(self).live_values, ..*old(self) }),
    {
        let mut live: Vec<String> = Vec::new();
        while live.len() < self.table.entries.len()
            invariant
                *self == *old(self),
                live@.len() <= self.table.entries@.len(),
                forall|i: int|
                    0 <= i < live@.len() ==> (#[trigger] live@[i])@ == entry_text(
                        self.table.entries@[i],
                        tags.of(self.table.entries@[i].value_type@),
                        if i < readings@.len() {
                            Some(readings@[i])
                        } else {
                            None
                        },
                    ),
            decreases self.table.entries@.len() - live@.len(),
        {
            let i: usize = live.len();
            let entry = &self.table.entries[i];
            let vt = tags.from_tag(entry.value_type.as_str());
            let text = if i < readings.len() {
                read_entry_value(entry, vt, Some(&readings[i]))
            } else {
                read_entry_value(entry, vt, None)
            };
            live.push(text);
        }
        self.live_values = live;
    }

    /// Freezes every entry to what it shows, or releases them all where every one
    /// is frozen. Says whether they are frozen now; in an empty table none is.
    pub fn toggle_freeze_all(&mut self, tags: &TypeTags, readings: &Vec<EntryReading>) -> (frozen:
        bool)
        ensures
            are_live(final(self).live_values@, old(self).table.entries@, *tags, readings@),
            frozen == (old(self).table.entries@.len() > 0 && !all_frozen(
                old(self).table.entries@,
            )),
            toggled_all(
                old(self).table.entries@,
                final(self).table.entries@,
                final(self).live_values@,
            ),
            final(self).table.name == old(self).table.name,
            *final(self) == (CheatTablePanel {
                live_values: final(self).live_values,
                table: final(self).table,
                ..*old(self)
            }),
    {
        let n: usize = self.table.entries.len();
        let mut every = true;
        let mut i: usize = 0;
        while i < n
            invariant
                i <= n,
                *self == *old(self),
                n == self.table.entries@.len(),
                every == forall|j: int| 0 <= j < i ==> (#[trigger] self.table.entries@[j]).frozen,
            decreases n - i,
        {
            if !self.table.entries[i].frozen {
                every = false;
            }
            i += 1;
        }
        let target = n > 0 && !every;
        self.refresh_live(tags, readings);
        let ghost mid = *self;
        let mut entries: Vec<CheatEntry> = Vec::new();
        while entries.len() < n
            invariant
                *self == mid,
                entries@.len() <= n,
                n == mid.table.entries@.len(),
                n == mid.live_values@.len(),
                forall|i: int|
                    0 <= i < entries@.len() ==> pinned_to(
                        #[trigger] entries@[i],
                        mid.table.entries@[i],
                        target,
                        mid.live_values@[i]@,
                    ),
            decreases n - entries@.len(),
        {
            let k: usize = entries.len();
            let mut e = self.table.entries[k].clone();
            e.frozen = target;
            if target {
                e.frozen_value = self.live_values[k].clone();
            } else {
                e.frozen_value = String::new();
            }
            entries.push(e);
        }
        self.table.entries = entries;
        target
    }

    /// The frozen values are due to be written again.
    pub fn freeze_due(&self, now: u64) -> (r: bool)
        ensures
            r == match self.last_freeze {
                None => true,
                Some(t) => elapsed(t, now) >= FREEZE_INTERVAL,
            },
    {
        match self.last_freeze {
            None => true,
            Some(t) => now.saturating_sub(t) >= FREEZE_INTERVAL,
        }
    }

    /// Starts a round of freezing: where one is due, what is to be written.
    /// `formulas` are where the addresses of the entries lead as formulas, and
    /// `reals` what their frozen values say as floating-point numbers.
    pub fn tick_freeze(
        &mut self,
        tags: &TypeTags,
        formulas: &Vec<Option<usize>>,
        reals: &Vec<RealReading>,
        now: u64,
    ) -> (writes: Option<Vec<MemWrite>>)
        requires
            formulas@.len() == old(self).table.entries@.len(),
            reals@.len() == old(self).table.entries@.len(),
        ensures
            ({
                let due = match old(self).last_freeze {
                    None => true,
                    Some(t) => elapsed(t, now) >= FREEZE_INTERVAL,
                };
                match writes {
                    None => !due && *final(self) == *old(self),
                    Some(w) => due && *final(self) == (CheatTablePanel {
                        last_freeze: Some(now),
                        ..*old(self)
                    }) && writes_view(w@) == frozen_writes(
                        old(self).table.entries@,
                        *tags,
                        formulas@,
                        reals@,
                    ),
                }
            }),
    {
        if !self.freeze_due(now) {
            return None;
        }
        self.last_freeze = Some(now);
        Some(freeze_writes(&self.table.entries, tags, formulas, reals))
    }

    /// The process that frozen values go to has to be opened anew.
    pub fn needs_freeze_target(&self, pid: u32) -> (r: bool)
        ensures
            r == (self.freeze_target_pid != Some(pid)),
    {
        match self.freeze_target_pid {
            Some(p) => p != pid,
            None => true,
        }
    }

    /// The process that frozen values go to was opened, or could not be, which is
    /// reported.
    pub fn freeze_target_opened(&mut self, pid: u32, opened: bool)
        ensures
            final(self).freeze_target_pid == if opened {
                Some(pid)
            } else {
                None
            },
            if opened {
                final(self).status_msg == old(self).status_msg
            } else {
                says(
                    final(self).status_msg,
                    "Cannot write to pid "@ + decimal(pid as nat) + " — values not frozen."@,
                )
            },
            *final(self) == (CheatTablePanel {
                freeze_target_pid: final(self).freeze_target_pid,
                status_msg: final(self).status_msg,
                ..*old(self)
            }),
    {
        if opened {
            self.freeze_target_pid = Some(pid);
        } else {
            self.freeze_target_pid = None;
            let mut m = "Cannot write to pid ".to_string();
            let n = string_of(decimal_exec(pid as u64).as_slice());
            m.append(n.as_str());
            m.append(" — values not frozen.");
            self.status_msg = Some(m);
        }
    }

    /// Adds an empty row.
    pub fn add_row(&mut self)
        ensures
            final(self).table.entries@.len() == old(self).table.entries@.len() + 1,
            final(self).table.entries@.drop_last() == old(self).table.entries@,
            ({
                let e = final(self).table.entries@.last();
                e.description@ == ""@ && e.address@ == "0x0"@ && e.value_type@ == "i32"@
                    && !e.frozen && e.frozen_value@.len() == 0 && e.group@.len() == 0
            }),
            final(self).table.name == old(self).table.name,
            *final(self) == (CheatTablePanel { table: final(self).table, ..*old(self) }),
    {
        self.table.push(CheatEntry::new("", "0x0", "i32"));
        assert(self.table.entries@.drop_last() =~= old(self).table.entries@);
    }

    /// Freezes an entry to what it shows, or releases it.
    pub fn toggle_freeze(&mut self, idx: usize)
        ensures
            *final(self) == (CheatTablePanel { table: final(self).table, ..*old(self) }),
            final(self).table.name == old(self).table.name,
            if idx < old(self).table.entries@.len() {
                let was = old(self).table.entries@[idx as int];
                let e = final(self).table.entries@[idx as int];
                final(self).table.entries@ == old(self).table.entries@.update(idx as int, e)
                    && pinned_to(
                    e,
                    was,
                    !was.frozen,
                    if idx < old(self).live_values@.len() {
                        old(self).live_values@[idx as int]@
                    } else {
                        Seq::empty()
                    },
                )
            } else {
                final(self).table == old(self).table
            },
    {
        if idx >= self.table.entries.len() {
            return ;
        }
        let mut e = self.table.entries[idx].clone();
        e.frozen = !e.frozen;
        if e.frozen && idx < self.live_values.len() {
            e.frozen_value = self.live_values[idx].clone();
        } else {
            e.frozen_value = String::new();
        }
        self.table.entries.set(idx, e);
    }

    /// Takes over what was typed into a row.
    pub fn edit_row(&mut self, idx: usize, edit: RowEdit)
        ensures
            *final(self) == (CheatTablePanel { table: final(self).table, ..*old(self) }),
            final(self).table.name == old(self).table.name,
            final(self).table.entries@ == if idx < old(self).table.entries@.len() {
                old(self).table.entries@.update(
                    idx as int,
                    edited_row(old(self).table.entries@[idx as int], edit),
                )
            } else {
                old(self).table.entries@
            },
    {
        if idx >= self.table.entries.len() {
            return ;
        }
        let mut e = self.table.entries[idx].clone();
        match edit {
            RowEdit::Description(t) => {
                e.description = t;
            },
            RowEdit::Address(t) => {
                e.address = t;
            },
            RowEdit::ValueType(t) => {
                e.value_type = t;
            },
        }
        self.table.entries.set(idx, e);
    }

    /// A value was typed into a row and written, or could not be: a frozen entry
    /// is pinned to the new value.
    pub fn value_written(&mut self, idx: usize, text: String, written: bool)
        ensures
            *final(self) == (CheatTablePanel { table: final(self).table, ..*old(self) }),
            final(self).table.name == old(self).table.name,
            final(self).table.entries@ == if idx < old(self).table.entries@.len() && written && old(self).table.entries@[idx as int].frozen {
                old(self).table.entries@.update(
                    idx as int,
                    CheatEntry { frozen_value: text, ..old(self).table.entries@[idx as int] },
                )
            } else {
                old(self).table.entries@
            },
    {
        if idx < self.table.entries.len() && written && self.table.entries[idx].frozen {
            let mut e = self.table.entries[idx].clone();
            e.frozen_value = text;
            self.table.entries.set(idx, e);
        }
    }

    /// Takes out a row.
    pub fn remove_row(&mut self, idx: usize)
        ensures
            *final(self) == (CheatTablePanel {
                table: final(self).table,
                live_values: final(self).live_values,
                ..*old(self)
            }),
            final(self).table.name == old(self).table.name,
            if idx < old(self).table.entries@.len() {
                &&& final(self).table.entries@ == old(self).table.entries@.remove(idx as int)
                &&& final(self).live_values@ == if old(self).live_values@.len() > old(self).table.entries@.len() - 1 {
                    old(self).live_values@.subrange(0, old(self).table.entries@.len() - 1)
                } else {
                    old(self).live_values@
                }
            } else {
                final(self).table == old(self).table && final(self).live_values == old(self).live_values
            },
    {
        if idx < self.table.entries.len() {
            self.table.remove(idx);
            let n: usize = self.table.entries.len();
            self.live_values.truncate(n);
        }
    }

    /// The action behind "Goto": only an address in hex can be gone to.
    pub fn goto_row(&self, idx: usize) -> (a: CheatTablePanelAction)
        ensures
            a == if idx < self.table.entries@.len() && hex_addr(
                self.table.entries@[idx as int].address@,
            ) is Some {
                CheatTablePanelAction::GotoAddr(
                    (hex_addr(self.table.entries@[idx as int].address@)->0) as usize,
                )
            } else {
                CheatTablePanelAction::Nothing
            },
    {
        if idx < self.table.entries.len() {
            match parse_addr_text(self.table.entries[idx].address.as_str()) {
                Some(a) => return CheatTablePanelAction::GotoAddr(a),
                None => {},
            }
        }
        CheatTablePanelAction::Nothing
    }

    /// The button that loads the table was pressed: whether there is a project to load
    /// it from.
    pub fn load_pressed(&mut self, in_project: bool) -> (go: bool)
        ensures
            go == in_project,
            *final(self) == (CheatTablePanel { status_msg: final(self).status_msg, ..*old(self) }),
            if in_project {
                final(self).status_msg == old(self).status_msg
            } else {
                says(
                    final(self).status_msg,
                    "No project directory — save the project first."@,
                )
            },
    {
        if !in_project {
            self.status_msg = Some("No project directory — save the project first.".to_string());
        }
        in_project
    }

    /// A table was loaded, or the message says why not. Only the button clears the
    /// message when there is nothing to say, and it says what failed in words of its own.
    pub fn table_loaded(&mut self, loaded: Result<CheatTable, TableLoadError>, by_button: bool)
        ensures
            match loaded {
                Ok(t) => {
                    &&& final(self).table == t
                    &&& final(self).live_values@.len() == 0
                    &&& final(self).status_msg == if by_button {
                        None
                    } else {
                        old(self).status_msg
                    }
                },
                Err(e) => {
                    &&& final(self).table == old(self).table
                    &&& final(self).live_values == old(self).live_values
                    &&& says(final(self).status_msg, load_error_text(e, by_button))
                },
            },
            *final(self) == (CheatTablePanel {
                table: final(self).table,
                live_values: final(self).live_values,
                status_msg: final(self).status_msg,
                ..*old(self)
            }),
    {
        match loaded {
            Ok(t) => {
                self.set_table(t);
                if by_button {
                    self.status_msg = None;
                }
            },
            Err(e) => {
                self.status_msg = Some(load_error(&e, by_button));
            },
        }
    }
}

/// Why a table could not be loaded.
#[derive(Debug)]
pub enum TableLoadError {
    /// The file could not be read.
    Read { path: String, why: String },
    /// It holds no table.
    Parse(String),
}

/// What is said of a table that could not be loaded, by the button or otherwise.
pub open spec fn load_error_text(e: TableLoadError, by_button: bool) -> Seq<char> {
    match e {
        TableLoadError::Read { path, why } => if by_button {
            "Read "@ + path@ + ": "@ + why@
        } else {
            "Load failed: "@ + why@
        },
        TableLoadError::Parse(why) => if by_button {
            "Load error: "@ + why@
        } else {
            "Parse error: "@ + why@
        },
    }
}

fn load_error(e: &TableLoadError, by_button: bool) -> (s: String)
    ensures
        s@ == load_error_text(*e, by_button),
{
    match e {
        TableLoadError::Read { path, why } => {
            let mut s;
            if by_button {
                s = "Read ".to_string();
                s.append(path.as_str());
                s.append(": ");
            } else {
                s = "Load failed: ".to_string();
            }
            s.append(why.as_str());
            s
        },
        TableLoadError::Parse(why) => {
            let mut s = if by_button {
                "Load error: ".to_string()
            } else {
                "Parse error: ".to_string()
            };
            s.append(why.as_str());
            s
        },
    }
}

/// What is typed into a row.
#[derive(Debug)]
pub enum RowEdit {
    Description(String),
    Address(String),
    ValueType(String),
}

/// The row after an edit.
pub open spec fn edited_row(e: CheatEntry, edit: RowEdit) -> CheatEntry {
    match edit {
        RowEdit::Description(t) => CheatEntry { description: t, ..e },
        RowEdit::Address(t) => CheatEntry { address: t, ..e },
        RowEdit::ValueType(t) => CheatEntry { value_type: t, ..e },
    }
}

/// The write that keeps an entry at its frozen value: none for an entry that is
/// not frozen, whose address is not known, or whose value does not parse.
pub open spec fn frozen_write(
    e: CheatEntry,
    tags: TypeTags,
    formula: Option<usize>,
    reading: RealReading,
) -> Option<WriteView> {
    if !e.frozen {
        None
    } else {
        match (entry_addr(e, formula), tags.of(e.value_type@)) {
            (Some(a), Some(vt)) => match pinned_bytes(vt, e.frozen_value@, reading) {
                Some(b) => Some(WriteView { addr: a as usize, bytes: b }),
                None => None,
            },
            _ => None,
        }
    }
}

/// The writes that keep the entries at their frozen values.
pub open spec fn frozen_writes(
    entries: Seq<CheatEntry>,
    tags: TypeTags,
    formulas: Seq<Option<usize>>,
    reals: Seq<RealReading>,
) -> Seq<WriteView>
    decreases entries.len(),
{
    if entries.len() == 0 {
        Seq::empty()
    } else {
        let k = entries.len() - 1;
        let before = frozen_writes(entries.drop_last(), tags, formulas, reals);
        match frozen_write(entries[k], tags, formulas[k], reals[k]) {
            Some(w) => before.push(w),
            None => before,
        }
    }
}

fn freeze_writes(
    entries: &Vec<CheatEntry>,
    tags: &TypeTags,
    formulas: &Vec<Option<usize>>,
    reals: &Vec<RealReading>,
) -> (w: Vec<MemWrite>)
    requires
        formulas@.len() == entries@.len(),
        reals@.len() == entries@.len(),
    ensures
        writes_view(w@) == frozen_writes(entries@, *tags, formulas@, reals@),
{
    let mut w: Vec<MemWrite> = Vec::new();
    let mut i: usize = 0;
    assert(writes_view(w@) =~= Seq::<WriteView>::empty());
    while i < entries.len()
        invariant
            i <= entries@.len(),
            formulas@.len() == entries@.len(),
            reals@.len() == entries@.len(),
            writes_view(w@) == frozen_writes(
                entries@.subrange(0, i as int),
                *tags,
                formulas@,
                reals@,
            ),
        decreases entries@.len() - i,
    {
        assert(entries@.subrange(0, i + 1).drop_last() =~= entries@.subrange(0, i as int));
        let e = &entries[i];
        if e.frozen {
            if let Some(addr) = resolve_entry_addr(e, formulas[i]) {
                if let Some(vt) = tags.from_tag(e.value_type.as_str()) {
                    if let Some(bytes) = value_text_to_bytes(
                        vt,
                        e.frozen_value.as_str(),
                        &reals[i],
                    ) {
                        let ghost before = w@;
                        w.push(MemWrite { addr, bytes });
                        assert(writes_view(w@) =~= writes_view(before).push(w@.last()@));
                    }
                }
            }
        }
        i += 1;
    }
    assert(entries@.subrange(0, entries@.len() as int) =~= entries@);
    w
}

/// Toggling twice releases everything: the first toggle of a table that is not
/// all frozen freezes every entry, and the second leaves none frozen.
pub proof fn second_toggle_releases(
    was: Seq<CheatEntry>,
    first: Seq<CheatEntry>,
    second: Seq<CheatEntry>,
    live: Seq<String>,
    later: Seq<String>,
)
    requires
        !all_frozen(was),
        toggled_all(was, first, live),
        toggled_all(first, second, later),
    ensures
        forall|i: int| 0 <= i < first.len() ==> (#[trigger] first[i]).frozen,
        forall|i: int|
            0 <= i < second.len() ==> !(#[trigger] second[i]).frozen
                && second[i].frozen_value@.len() == 0,
{
    assert forall|i: int| 0 <= i < first.len() implies (#[trigger] first[i]).frozen by {
        assert(pinned_to(first[i], was[i], true, live[i]@));
    }
    assert forall|i: int| 0 <= i < second.len() implies !(#[trigger] second[i]).frozen
        && second[i].frozen_value@.len() == 0 by {
        assert(first[i].frozen);
        assert(all_frozen(first));
        assert(pinned_to(second[i], first[i], false, later[i]@));
    }
}

/// What an entry shows is never empty, so an entry that is frozen always has a
/// value to be pinned to. Floating-point numbers are taken to have a text.
pub proof fn frozen_value_is_captured(
    entry: CheatEntry,
    vt: Option<ScanValueType>,
    reading: Option<EntryReading>,
)
    requires
        reading matches Some(r) ==> r.real_text@.len() > 0,
    ensures
        entry_text(entry, vt, reading).len() > 0,
{
    reveal_strlit("–");
}

proof fn lemma_frozen_writes_grow(
    entries: Seq<CheatEntry>,
    tags: TypeTags,
    formulas: Seq<Option<usize>>,
    reals: Seq<RealReading>,
    i: int,
    w: WriteView,
)
    requires
        0 <= i < entries.len(),
        frozen_write(entries[i], tags, formulas[i], reals[i]) == Some(w),
    ensures
        frozen_writes(entries, tags, formulas, reals).contains(w),
    decreases entries.len(),
{
    let all = frozen_writes(entries, tags, formulas, reals);
    let before = frozen_writes(entries.drop_last(), tags, formulas, reals);
    if i == entries.len() - 1 {
        assert(all.last() == w);
    } else {
        lemma_frozen_writes_grow(entries.drop_last(), tags, formulas, reals, i, w);
        let k = before.index_of(w);
        assert(all[k] == w);
    }
}

/// A round pins every frozen entry: one whose address is a number, or a formula that
/// leads somewhere, and whose value can be written in its type, is written there with
/// the bytes of that value.
pub proof fn every_frozen_entry_is_pinned(
    entries: Seq<CheatEntry>,
    tags: TypeTags,
    formulas: Seq<Option<usize>>,
    reals: Seq<RealReading>,
    i: int,
    addr: usize,
    vt: ScanValueType,
    bytes: Seq<u8>,
)
    requires
        formulas.len() == entries.len(),
        reals.len() == entries.len(),
        0 <= i < entries.len(),
        entries[i].frozen,
        tags.of(entries[i].value_type@) == Some(vt),
        pinned_bytes(vt, entries[i].frozen_value@, reals[i]) == Some(bytes),
        hex_addr(entries[i].address@) == Some(addr as int) || (hex_addr(entries[i].address@) is None
            && formulas[i] == Some(addr)),
    ensures
        frozen_writes(entries, tags, formulas, reals).contains(WriteView { addr, bytes }),
{
    lemma_frozen_writes_grow(entries, tags, formulas, reals, i, WriteView { addr, bytes });
}

/// Nothing but frozen entries is written: each write of a round is that of an entry
/// that is frozen, at the address of the entry, with the bytes of its value. A round
/// holds at most one write for each entry, in the order of the table.
pub proof fn only_frozen_entries_are_pinned(
    entries: Seq<CheatEntry>,
    tags: TypeTags,
    formulas: Seq<Option<usize>>,
    reals: Seq<RealReading>,
) -> (from: Seq<int>)
    requires
        formulas.len() == entries.len(),
        reals.len() == entries.len(),
    ensures
        from.len() == frozen_writes(entries, tags, formulas, reals).len(),
        forall|k: int, l: int| 0 <= k < l < from.len() ==> #[trigger] from[k] < #[trigger] from[l],
        forall|k: int|
            0 <= k < from.len() ==> {
                let i = #[trigger] from[k];
                let w = frozen_writes(entries, tags, formulas, reals)[k];
                &&& 0 <= i < entries.len()
                &&& entries[i].frozen
                &&& match hex_addr(entries[i].address@) {
                    Some(a) => a == w.addr,
                    None => formulas[i] == Some(w.addr),
                }
                &&& tags.of(entries[i].value_type@) matches Some(vt) && pinned_bytes(
                    vt,
                    entries[i].frozen_value@,
                    reals[i],
                ) == Some(w.bytes)
            },
    decreases entries.len(),
{
    if entries.len() == 0 {
        Seq::empty()
    } else {
        let n = entries.len() - 1;
        let rest = entries.drop_last();
        let before = only_frozen_entries_are_pinned(
            rest,
            tags,
            formulas.drop_last(),
            reals.drop_last(),
        );
        lemma_frozen_writes_prefix(rest, tags, formulas, reals);
        if frozen_write(entries[n], tags, formulas[n], reals[n]) is Some {
            lemma_hex_addr_fits(entries[n].address@);
            before.push(n)
        } else {
            before
        }
    }
}

proof fn lemma_frozen_writes_prefix(
    entries: Seq<CheatEntry>,
    tags: TypeTags,
    formulas: Seq<Option<usize>>,
    reals: Seq<RealReading>,
)
    requires
        formulas.len() == entries.len() + 1,
        reals.len() == entries.len() + 1,
    ensures
        frozen_writes(entries, tags, formulas, reals) == frozen_writes(
            entries,
            tags,
            formulas.drop_last(),
            reals.drop_last(),
        ),
{
    lemma_frozen_writes_local(
        entries,
        tags,
        formulas,
        reals,
        formulas.drop_last(),
        reals.drop_last(),
    );
}

proof fn lemma_frozen_writes_local(
    entries: Seq<CheatEntry>,
    tags: TypeTags,
    f: Seq<Option<usize>>,
    r: Seq<RealReading>,
    g: Seq<Option<usize>>,
    q: Seq<RealReading>,
)
    requires
        forall|i: int| 0 <= i < entries.len() ==> f[i] == g[i] && r[i] == q[i],
    ensures
        frozen_writes(entries, tags, f, r) == frozen_writes(entries, tags, g, q),
    decreases entries.len(),
{
    if entries.len() > 0 {
        lemma_frozen_writes_local(entries.drop_last(), tags, f, r, g, q);
        let k = entries.len() - 1;
        assert(f[k] == g[k] && r[k] == q[k]);
    }
}

/// A row shows what the memory holds; what the entry is pinned to has no part in it.
/// Only where nothing could be read, the row shows what it is pinned to, or a dash.
pub proof fn row_shows_memory_before_the_pin(
    a: CheatEntry,
    b: CheatEntry,
    vt: ScanValueType,
    reading: EntryReading,
)
    requires
        vt.width() is Some,
    ensures
        reading.bytes matches Some(got) && got@.len() >= vt.width()->0 ==> entry_text(
            a,
            Some(vt),
            Some(reading),
        ) == entry_text(b, Some(vt), Some(reading)) && entry_text(a, Some(vt), Some(reading))
            == shown_value(reading.bytes->0@, vt, reading.real_text@),
        reading.bytes is None && a.frozen_value@.len() > 0 ==> entry_text(
            a,
            Some(vt),
            Some(reading),
        ) == a.frozen_value@,
        a.frozen_value@.len() > 0 ==> entry_text(a, Some(vt), None) == a.frozen_value@,
        a.frozen_value@.len() == 0 ==> entry_text(a, Some(vt), None) == "–"@,
{
}

/// Typing into one column of a row changes that column alone, to what was typed.
pub proof fn typed_column_is_the_only_change(e: CheatEntry, t: String)
    ensures
        edited_row(e, RowEdit::Description(t)).description == t,
        edited_row(e, RowEdit::Address(t)).address == t,
        edited_row(e, RowEdit::ValueType(t)).value_type == t,
        edited_row(edited_row(e, RowEdit::Description(t)), RowEdit::Description(e.description)) == e,
        edited_row(edited_row(e, RowEdit::Address(t)), RowEdit::Address(e.address)) == e,
        edited_row(edited_row(e, RowEdit::ValueType(t)), RowEdit::ValueType(e.value_type)) == e,
{
}

} // verus!

//! The debugger panel: breakpoints, the event log, and the search for the code
//! that accesses an address.
use vstd::prelude::*;
use vstd::string::StringExecFns;

use crate::address::{address_or_message, parse_address};
use crate::cheat_table::elapsed;
use crate::sort::{lemma_sorted_same_elements, sort_by_key, stably_sorted, Slot};
use crate::text::{
    chars_of, decimal, decimal_exec, hex_upper, hex_upper_exec, parse_int_spec, parse_signed,
    prefixed_hex, prefixed_hex_exec, says, signed_decimal, signed_decimal_exec, string_of, trim,
    trim_exec, wide_hex, wide_hex_exec,
};

verus! {

/// How many milliseconds lie between two polls for events.
pub const POLL_INTERVAL: u64 = 100;

/// The most events that are kept.
pub const MAX_EVENTS: usize = 200;

/// How many milliseconds the list of threads is used before it is read again.
pub const THREAD_REFRESH: u64 = 2000;

/// The most events that one poll takes.
pub const MAX_EVENTS_PER_POLL: usize = 4096;

/// The most access sites that are listed.
pub const MAX_SITES_SHOWN: usize = 64;

/// The kinds of breakpoints that can be set.
#[derive(Clone, Copy, Debug, PartialEq, Eq, Structural)]
pub enum BpKind {
    Execute,
    HwWrite,
    HwRead,
    HwAccess,
    Uprobe,
}

/// What a hardware breakpoint reacts to.
#[derive(Clone, Copy, Debug, PartialEq, Eq, Structural)]
pub enum HwType {
    Execute,
    Write,
    Read,
    ReadWrite,
}

/// A breakpoint.
#[derive(Clone, Copy, Debug, PartialEq, Eq, Structural)]
pub enum BpSpec {
    Hardware { addr: u64, len: u32, ty: HwType },
    Uprobe { addr: u64 },
}

impl BpKind {
    pub open spec fn label_text(self) -> Seq<char> {
        match self {
            BpKind::Execute => "Execute"@,
            BpKind::HwWrite => "HW-Write"@,
            BpKind::HwRead => "HW-Read"@,
            BpKind::HwAccess => "HW-Access"@,
            BpKind::Uprobe => "Uprobe"@,
        }
    }

    pub fn label(self) -> (s: &'static str)
        ensures
            s@ == self.label_text(),
    {
        match self {
            BpKind::Execute => "Execute",
            BpKind::HwWrite => "HW-Write",
            BpKind::HwRead => "HW-Read",
            BpKind::HwAccess => "HW-Access",
            BpKind::Uprobe => "Uprobe",
        }
    }

    /// All kinds, in the order in which they are offered.
    pub fn all() -> (v: Vec<BpKind>)
        ensures
            v@ == seq![
                BpKind::Execute,
                BpKind::HwWrite,
                BpKind::HwRead,
                BpKind::HwAccess,
                BpKind::Uprobe,
            ],
    {
        let v = vec![
            BpKind::Execute,
            BpKind::HwWrite,
            BpKind::HwRead,
            BpKind::HwAccess,
            BpKind::Uprobe,
        ];
        assert(v@ =~= seq![
            BpKind::Execute,
            BpKind::HwWrite,
            BpKind::HwRead,
            BpKind::HwAccess,
            BpKind::Uprobe,
        ]);
        v
    }

    /// Whether a length is to be given.
    pub fn needs_len(self) -> (r: bool)
        ensures
            r == self.has_len(),
    {
        match self {
            BpKind::HwWrite => true,
            BpKind::HwRead => true,
            BpKind::HwAccess => true,
            _ => false,
        }
    }
}

/// What the debugger is asked for: a breakpoint, or a watchpoint of a length that it
/// may refuse.
#[derive(Clone, Copy, Debug, PartialEq, Eq, Structural)]
pub enum BpAsk {
    Execute { addr: u64 },
    Watch { addr: u64, len: u32, ty: HwType },
    Uprobe { addr: u64 },
}

impl BpKind {
    /// Watchpoints have a length.
    pub open spec fn has_len(self) -> bool {
        self == BpKind::HwWrite || self == BpKind::HwRead || self == BpKind::HwAccess
    }

    /// What a breakpoint of the kind asks the debugger for.
    pub open spec fn ask(self, addr: u64, len: u32) -> BpAsk {
        match self {
            BpKind::Execute => BpAsk::Execute { addr },
            BpKind::HwWrite => BpAsk::Watch { addr, len, ty: HwType::Write },
            BpKind::HwRead => BpAsk::Watch { addr, len, ty: HwType::Read },
            BpKind::HwAccess => BpAsk::Watch { addr, len, ty: HwType::ReadWrite },
            BpKind::Uprobe => BpAsk::Uprobe { addr },
        }
    }

    pub fn to_spec(self, addr: u64, len: u32) -> (r: BpAsk)
        ensures
            r == self.ask(addr, len),
    {
        match self {
            BpKind::Execute => BpAsk::Execute { addr },
            BpKind::HwWrite => BpAsk::Watch { addr, len, ty: HwType::Write },
            BpKind::HwRead => BpAsk::Watch { addr, len, ty: HwType::Read },
            BpKind::HwAccess => BpAsk::Watch { addr, len, ty: HwType::ReadWrite },
            BpKind::Uprobe => BpAsk::Uprobe { addr },
        }
    }
}

/// A kind that needs no length asks for the same breakpoint whatever the length is,
/// and for none that could be refused for its length. Any other kind asks for a
/// watchpoint of just that length.
pub proof fn length_matters_where_needed(kind: BpKind, addr: u64, l1: u32, l2: u32)
    ensures
        !kind.has_len() ==> kind.ask(addr, l1) == kind.ask(addr, l2) && !(kind.ask(
            addr,
            l1,
        ) is Watch),
        kind.has_len() ==> (kind.ask(addr, l1) matches BpAsk::Watch { addr: a, len, .. } && a
            == addr && len == l1),
        kind.has_len() && l1 != l2 ==> kind.ask(addr, l1) != kind.ask(addr, l2),
{
}

/// A breakpoint that is to be set; the debugger checks whether it can be.
#[derive(Clone, Copy, Debug, PartialEq, Eq, Structural)]
pub struct BpRequest {
    pub kind: BpKind,
    pub addr: u64,
    pub len: u32,
}

/// A watchpoint that is to be armed.
#[derive(Clone, Copy, Debug, PartialEq, Eq, Structural)]
pub struct WatchRequest {
    pub addr: u64,
    pub len: u32,
    pub ty: HwType,
}

/// How a kind of hardware breakpoint is called.
pub open spec fn hw_text(ty: HwType) -> Seq<char> {
    match ty {
        HwType::Execute => "Execute"@,
        HwType::Write => "HW-Write"@,
        HwType::Read => "HW-Read"@,
        HwType::ReadWrite => "HW-Access"@,
    }
}

fn hw_label(ty: HwType) -> (s: &'static str)
    ensures
        s@ == hw_text(ty),
{
    match ty {
        HwType::Execute => "Execute",
        HwType::Write => "HW-Write",
        HwType::Read => "HW-Read",
        HwType::ReadWrite => "HW-Access",
    }
}

/// The registers of a thread.
#[derive(Clone, Copy, Debug, PartialEq, Eq, Structural)]
pub struct Registers {
    pub rip: u64,
    pub rsp: u64,
    pub rflags: u64,
    pub rax: u64,
    pub rbx: u64,
    pub rcx: u64,
    pub rdx: u64,
    pub rsi: u64,
    pub rdi: u64,
    pub rbp: u64,
    pub r8: u64,
    pub r9: u64,
    pub r10: u64,
    pub r11: u64,
    pub r12: u64,
    pub r13: u64,
    pub r14: u64,
    pub r15: u64,
}

/// A breakpoint was hit.
#[derive(Debug)]
pub struct DebugEvent {
    pub pid: i32,
    pub tid: i32,
    pub address: u64,
    /// The breakpoint, by its number, and how it is called.
    pub bp: u64,
    pub bp_label: String,
    pub spec: Option<BpSpec>,
    pub registers: Registers,
}

/// A line of the event log.
#[derive(Debug)]
pub enum EventEntry {
    Hit {
        pid: i32,
        tid: i32,
        address: u64,
        bp_label: String,
        kind: String,
        regs: Registers,
    },
    Message(String),
}

/// How the breakpoint of an event is called.
pub open spec fn event_kind(s: Option<BpSpec>) -> Seq<char> {
    match s {
        Some(BpSpec::Hardware { ty, .. }) => hw_text(ty),
        Some(BpSpec::Uprobe { .. }) => "Uprobe"@,
        None => "Unknown"@,
    }
}

/// The log line of an event.
pub open spec fn is_hit(e: EventEntry, ev: DebugEvent) -> bool {
    e matches EventEntry::Hit { pid, tid, address, bp_label, kind, regs } && pid == ev.pid && tid
        == ev.tid && address == ev.address && bp_label == ev.bp_label && kind@ == event_kind(
        ev.spec,
    ) && regs == ev.registers
}

/// The log line of a poll that failed.
pub open spec fn is_poll_error(e: EventEntry, why: Seq<char>) -> bool {
    e matches EventEntry::Message(t) && t@ == "[poll error: "@ + why + "]"@
}

impl EventEntry {
    pub fn from_event(ev: DebugEvent) -> (e: EventEntry)
        ensures
            is_hit(e, ev),
    {
        let kind = match ev.spec {
            Some(BpSpec::Hardware { ty, .. }) => hw_label(ty).to_string(),
            Some(BpSpec::Uprobe { .. }) => "Uprobe".to_string(),
            None => "Unknown".to_string(),
        };
        EventEntry::Hit {
            pid: ev.pid,
            tid: ev.tid,
            address: ev.address,
            bp_label: ev.bp_label,
            kind,
            regs: ev.registers,
        }
    }

    pub open spec fn line(self) -> Seq<char> {
        match self {
            EventEntry::Hit { pid, tid, address, bp_label, kind, .. } => bp_label@ + " pid="@
                + signed_decimal(pid as int) + " tid="@ + signed_decimal(tid as int) + " addr=0x"@
                + hex_upper(address as nat) + " kind="@ + kind@,
            EventEntry::Message(s) => s@,
        }
    }

    pub fn display_line(&self) -> (s: String)
        ensures
            s@ == self.line(),
    {
        match self {
            EventEntry::Hit { pid, tid, address, bp_label, kind, .. } => {
                let mut s = bp_label.clone();
                s.append(" pid=");
                let p = string_of(signed_decimal_exec(*pid as i64).as_slice());
                s.append(p.as_str());
                s.append(" tid=");
                let t = string_of(signed_decimal_exec(*tid as i64).as_slice());
                s.append(t.as_str());
                s.append(" addr=0x");
                let a = string_of(hex_upper_exec(*address).as_slice());
                s.append(a.as_str());
                s.append(" kind=");
                s.append(kind.as_str());
                s
            },
            EventEntry::Message(s) => s.clone(),
        }
    }

    /// The registers of a hit.
    pub fn registers(&self) -> (r: Option<Registers>)
        ensures
            r == match *self {
                EventEntry::Hit { regs, .. } => Some(regs),
                EventEntry::Message(_) => None,
            },
    {
        match self {
            EventEntry::Hit { regs, .. } => Some(*regs),
            EventEntry::Message(_) => None,
        }
    }
}

/// The watchpoint of the search for accesses.
#[derive(Clone, Copy, Debug, PartialEq, Eq, Structural)]
pub struct ActiveWatch {
    pub id: u64,
    pub address: u64,
    pub length: u32,
}

/// A thread of the target.
#[derive(Debug)]
pub struct ThreadInfo {
    pub tid: i32,
    pub name: String,
}

/// The debugger panel.
#[derive(Debug)]
pub struct DebuggerPanel {
    pub key_hex: String,
    pub attached: bool,
    pub attach_err: Option<String>,
    pub bp_addr_text: String,
    pub bp_kind: BpKind,
    pub bp_len: u32,
    pub bp_err: Option<String>,
    pub events: Vec<EventEntry>,
    pub last_poll: Option<u64>,
    pub latest_regs: Option<Registers>,
    pub watch_addr_text: String,
    pub watch_len: u32,
    pub watch_writes_only: bool,
    pub watch: Option<ActiveWatch>,
    pub watch_err: Option<String>,
    pub threads: Vec<ThreadInfo>,
    pub threads_at: Option<u64>,
    pub pending_goto_disasm: Option<usize>,
}

/// Where an event goes.
#[derive(Clone, Copy, Debug, PartialEq, Eq, Structural)]
pub enum EventRoute {
    /// To the tally of accesses: it is a hit of the watchpoint.
    Tally,
    /// To the event log.
    Log,
}

/// The latest entries, as many as are kept.
pub open spec fn latest<T>(s: Seq<T>) -> Seq<T> {
    if s.len() > MAX_EVENTS {
        s.subrange(s.len() - MAX_EVENTS, s.len() as int)
    } else {
        s
    }
}

fn push_event(events: &mut Vec<EventEntry>, e: EventEntry)
    ensures
        final(events)@ == latest(old(events)@.push(e)),
{
    events.push(e);
    let ghost all = events@;
    while events.len() > MAX_EVENTS
        invariant
            events@.len() <= all.len(),
            all.len() >= MAX_EVENTS ==> events@.len() >= MAX_EVENTS,
            all.len() < MAX_EVENTS ==> events@ == all,
            events@ == all.subrange(all.len() - events@.len(), all.len() as int),
        decreases events@.len(),
    {
        let ghost n = events@.len() as int;
        events.remove(0);
        assert(events@ =~= all.subrange(all.len() - n + 1, all.len() as int));
    }
    assert(events@ =~= latest(all));
}

/// The panel was asked to set a breakpoint at the address in its box: the
/// request, or the message about the address.
pub open spec fn asks_breakpoint(
    pre: DebuggerPanel,
    post: DebuggerPanel,
    r: Option<BpRequest>,
) -> bool {
    match address_or_message(pre.bp_addr_text@) {
        Ok(a) => post == pre && r == Some(
            BpRequest { kind: pre.bp_kind, addr: a as u64, len: pre.bp_len },
        ),
        Err(m) => post == DebuggerPanel { bp_err: post.bp_err, ..pre } && says(post.bp_err, m)
            && r is None,
    }
}

/// The panel was asked for an execute breakpoint at an address. The address and the
/// kind are filled in either way.
pub open spec fn asks_execute(
    pre: DebuggerPanel,
    post: DebuggerPanel,
    addr: usize,
    r: Option<BpRequest>,
) -> bool {
    let filled = DebuggerPanel {
        bp_addr_text: post.bp_addr_text,
        bp_kind: BpKind::Execute,
        ..pre
    };
    &&& post.bp_addr_text@ == prefixed_hex(addr as nat)
    &&& post.bp_kind == BpKind::Execute
    &&& post == (DebuggerPanel { bp_err: post.bp_err, ..filled })
    &&& if pre.attached {
        asks_breakpoint(filled, post, r)
    } else {
        r is None && says(
            post.bp_err,
            "Attach the debugger, then press Set to arm this breakpoint."@,
        )
    }
}

/// The panel was asked to watch the address in its box.
pub open spec fn asks_watch(
    pre: DebuggerPanel,
    post: DebuggerPanel,
    r: Option<WatchRequest>,
) -> bool {
    &&& post == DebuggerPanel { watch_err: post.watch_err, ..pre }
    &&& if !pre.attached {
        says(post.watch_err, "Attach the debugger first."@) && r is None
    } else {
        match address_or_message(pre.watch_addr_text@) {
            Err(m) => says(post.watch_err, m) && r is None,
            Ok(a) => post.watch_err is None && r == Some(
                WatchRequest {
                    addr: a as u64,
                    len: pre.watch_len,
                    ty: if pre.watch_writes_only {
                        HwType::Write
                    } else {
                        HwType::ReadWrite
                    },
                },
            ),
        }
    }
}

/// Whether a poll asks for another event: the last one came, and not so many were
/// taken that the panel could no longer be drawn.
pub fn poll_goes_on(taken: usize, got_event: bool) -> (go: bool)
    ensures
        go == (got_event && taken < MAX_EVENTS_PER_POLL),
{
    got_event && taken < MAX_EVENTS_PER_POLL
}

impl DebuggerPanel {
    pub fn new() -> (p: Self)
        ensures
            p.key_hex@.len() == 0,
            p.is_fresh(),
    {
        DebuggerPanel::with_key(String::new())
    }

    /// Nothing is attached, set, logged or watched.
    pub open spec fn is_fresh(&self) -> bool {
        &&& !self.attached
        &&& self.attach_err is None
        &&& self.bp_addr_text@.len() == 0
        &&& self.bp_kind == BpKind::Execute
        &&& self.bp_len == 4
        &&& self.bp_err is None
        &&& self.events@.len() == 0
        &&& self.last_poll is None
        &&& self.latest_regs is None
        &&& self.watch_addr_text@.len() == 0
        &&& self.watch_len == 4
        &&& self.watch_writes_only
        &&& self.watch is None
        &&& self.watch_err is None
        &&& self.threads@.len() == 0
        &&& self.threads_at is None
        &&& self.pending_goto_disasm is None
    }

    /// A panel with a key filled in.
    pub fn with_key(key: String) -> (p: Self)
        ensures
            p.key_hex == key,
            p.is_fresh(),
    {
        DebuggerPanel {
            key_hex: key,
            attached: false,
            attach_err: None,
            bp_addr_text: String::new(),
            bp_kind: BpKind::Execute,
            bp_len: 4,
            bp_err: None,
            events: Vec::new(),
            last_poll: None,
            latest_regs: None,
            watch_addr_text: String::new(),
            watch_len: 4,
            watch_writes_only: true,
            watch: None,
            watch_err: None,
            threads: Vec::new(),
            threads_at: None,
            pending_goto_disasm: None,
        }
    }

    /// Starts a poll where a debugger is attached and one is due.
    pub fn tick_events(&mut self, now: u64) -> (poll: bool)
        ensures
            poll == (old(self).attached && match old(self).last_poll {
                None => true,
                Some(t) => elapsed(t, now) >= POLL_INTERVAL,
            }),
            *final(self) == if poll {
                DebuggerPanel { last_poll: Some(now), ..*old(self) }
            } else {
                *old(self)
            },
    {
        if !self.attached {
            return false;
        }
        let due = match self.last_poll {
            None => true,
            Some(t) => now.saturating_sub(t) >= POLL_INTERVAL,
        };
        if due {
            self.last_poll = Some(now);
        }
        due
    }

    /// Takes an event. Hits of the watchpoint are tallied, all others are logged.
    pub fn take_event(&mut self, ev: DebugEvent) -> (route: EventRoute)
        ensures
            final(self).latest_regs == Some(ev.registers),
            *final(self) == (DebuggerPanel {
                latest_regs: final(self).latest_regs,
                events: final(self).events,
                ..*old(self)
            }),
            if old(self).watch matches Some(w) && w.id == ev.bp {
                route == EventRoute::Tally && final(self).events == old(self).events
            } else {
                route == EventRoute::Log && exists|e: EventEntry|
                    #[trigger] is_hit(e, ev) && final(self).events@ == latest(
                        old(self).events@.push(e),
                    )
            },
    {
        self.latest_regs = Some(ev.registers);
        if let Some(w) = self.watch {
            if w.id == ev.bp {
                return EventRoute::Tally;
            }
        }
        let ghost event = ev;
        let e = EventEntry::from_event(ev);
        assert(is_hit(e, event));
        push_event(&mut self.events, e);
        EventRoute::Log
    }

    /// A poll failed, which is logged. The session stays.
    pub fn poll_failed(&mut self, why: &str)
        ensures
            *final(self) == (DebuggerPanel { events: final(self).events, ..*old(self) }),
            exists|e: EventEntry|
                #[trigger] is_poll_error(e, why@) && final(self).events@ == latest(
                    old(self).events@.push(e),
                ),
    {
        let mut t = "[poll error: ".to_string();
        t.append(why);
        t.append("]");
        let e = EventEntry::Message(t);
        assert(is_poll_error(e, why@));
        push_event(&mut self.events, e);
    }

    /// What belonged to the session is gone.
    pub open spec fn detached(pre: Self, post: Self) -> bool {
        &&& post.events@.len() == 0
        &&& post == (DebuggerPanel {
            attached: false,
            attach_err: None,
            events: post.events,
            latest_regs: None,
            watch: None,
            watch_err: None,
            ..pre
        })
    }

    /// Forgets the session. What is typed into the boxes stays.
    pub fn on_detach(&mut self)
        ensures
            Self::detached(*old(self), *final(self)),
    {
        self.attached = false;
        self.attach_err = None;
        self.events = Vec::new();
        self.latest_regs = None;
        self.watch = None;
        self.watch_err = None;
    }

    /// The debugger was attached, or the message says why not.
    pub fn attach_done(&mut self, outcome: Result<(), String>)
        ensures
            match outcome {
                Ok(_) => final(self).attached && final(self).attach_err is None && final(self).events@.len() == 0,
                Err(e) => !final(self).attached && says(
                    final(self).attach_err,
                    "Attach failed: "@ + e@,
                ) && final(self).events == old(self).events,
            },
            *final(self) == (DebuggerPanel {
                attached: final(self).attached,
                attach_err: final(self).attach_err,
                events: final(self).events,
                ..*old(self)
            }),
    {
        match outcome {
            Ok(_) => {
                self.attached = true;
                self.attach_err = None;
                self.events = Vec::new();
            },
            Err(e) => {
                let mut m = "Attach failed: ".to_string();
                m.append(e.as_str());
                self.attach_err = Some(m);
                self.attached = false;
            },
        }
    }

    /// Asks to set a breakpoint at the address in the box.
    pub fn do_set_breakpoint(&mut self) -> (r: Option<BpRequest>)
        ensures
            asks_breakpoint(*old(self), *final(self), r),
    {
        match parse_address(self.bp_addr_text.as_str()) {
            Ok(a) => Some(BpRequest { kind: self.bp_kind, addr: a as u64, len: self.bp_len }),
            Err(m) => {
                self.bp_err = Some(m);
                None
            },
        }
    }

    /// A breakpoint was set, or the message says why not: it cannot be, or the
    /// debugger refused it.
    pub fn breakpoint_set(&mut self, outcome: Result<(), (bool, String)>)
        ensures
            *final(self) == (DebuggerPanel { bp_err: final(self).bp_err, ..*old(self) }),
            match outcome {
                Ok(_) => final(self).bp_err is None,
                Err((invalid, e)) => says(
                    final(self).bp_err,
                    (if invalid {
                        "Invalid spec: "@
                    } else {
                        "Set breakpoint: "@
                    }) + e@,
                ),
            },
    {
        match outcome {
            Ok(_) => {
                self.bp_err = None;
            },
            Err((invalid, e)) => {
                let mut m = if invalid {
                    "Invalid spec: ".to_string()
                } else {
                    "Set breakpoint: ".to_string()
                };
                m.append(e.as_str());
                self.bp_err = Some(m);
            },
        }
    }

    /// A breakpoint was cleared, or the message says why not.
    pub fn breakpoint_cleared(&mut self, label: &str, outcome: Result<(), String>)
        ensures
            *final(self) == (DebuggerPanel { bp_err: final(self).bp_err, ..*old(self) }),
            match outcome {
                Ok(_) => final(self).bp_err is None,
                Err(e) => says(final(self).bp_err, "Clear "@ + label@ + ": "@ + e@),
            },
    {
        match outcome {
            Ok(_) => {
                self.bp_err = None;
            },
            Err(e) => {
                let mut m = "Clear ".to_string();
                m.append(label);
                m.append(": ");
                m.append(e.as_str());
                self.bp_err = Some(m);
            },
        }
    }

    /// Asks for a breakpoint at an address that another panel gives. The address
    /// is filled in either way; without a debugger the message says what to do.
    pub fn set_execute_breakpoint(&mut self, addr: usize) -> (r: Option<BpRequest>)
        ensures
            asks_execute(*old(self), *final(self), addr, r),
    {
        self.bp_addr_text = prefixed_hex_exec(addr as u64);
        self.bp_kind = BpKind::Execute;
        if self.attached {
            self.do_set_breakpoint()
        } else {
            self.bp_err = Some(
                "Attach the debugger, then press Set to arm this breakpoint.".to_string(),
            );
            None
        }
    }

    /// Asks to watch an address that another panel gives.
    pub fn watch_address(&mut self, addr: usize, len: u32, writes_only: bool) -> (r: Option<
        WatchRequest,
    >)
        ensures
            final(self).watch_addr_text@ == prefixed_hex(addr as nat),
            asks_watch(
                DebuggerPanel {
                    watch_addr_text: final(self).watch_addr_text,
                    watch_len: len,
                    watch_writes_only: writes_only,
                    ..*old(self)
                },
                *final(self),
                r,
            ),
    {
        self.watch_addr_text = prefixed_hex_exec(addr as u64);
        self.watch_len = len;
        self.watch_writes_only = writes_only;
        self.start_watch()
    }

    /// Asks to watch the address in the box.
    pub fn start_watch(&mut self) -> (r: Option<WatchRequest>)
        ensures
            asks_watch(*old(self), *final(self), r),
    {
        self.watch_err = None;
        if !self.attached {
            self.watch_err = Some("Attach the debugger first.".to_string());
            return None;
        }
        match parse_address(self.watch_addr_text.as_str()) {
            Err(m) => {
                self.watch_err = Some(m);
                None
            },
            Ok(a) => {
                let ty = if self.watch_writes_only {
                    HwType::Write
                } else {
                    HwType::ReadWrite
                };
                Some(WatchRequest { addr: a as u64, len: self.watch_len, ty })
            },
        }
    }

    /// The watchpoint was armed, or the message says why not: it cannot be, or
    /// the debugger refused it.
    pub fn watch_armed(&mut self, request: WatchRequest, outcome: Result<u64, (bool, String)>)
        ensures
            match outcome {
                Ok(id) => *final(self) == (DebuggerPanel {
                    watch: Some(
                        ActiveWatch { id, address: request.addr, length: request.len },
                    ),
                    ..*old(self)
                }),
                Err((invalid, e)) => *final(self) == (DebuggerPanel {
                    watch_err: final(self).watch_err,
                    ..*old(self)
                }) && says(
                    final(self).watch_err,
                    if invalid {
                        e@
                    } else {
                        "Could not arm the watchpoint: "@ + e@
                    },
                ),
            },
    {
        match outcome {
            Ok(id) => {
                self.watch = Some(
                    ActiveWatch { id, address: request.addr, length: request.len },
                );
            },
            Err((invalid, e)) => {
                if invalid {
                    self.watch_err = Some(e);
                } else {
                    let mut m = "Could not arm the watchpoint: ".to_string();
                    m.append(e.as_str());
                    self.watch_err = Some(m);
                }
            },
        }
    }

    /// Stops watching: the watchpoint that is to be cleared, where there is a
    /// session to clear it in.
    pub fn stop_watch(&mut self) -> (id: Option<u64>)
        ensures
            *final(self) == (DebuggerPanel { watch: None, ..*old(self) }),
            id == match old(self).watch {
                Some(w) => if old(self).attached {
                    Some(w.id)
                } else {
                    None
                },
                None => None,
            },
    {
        match self.watch {
            None => None,
            Some(w) => {
                self.watch = None;
                if self.attached {
                    Some(w.id)
                } else {
                    None
                }
            },
        }
    }

    /// The watchpoint could not be cleared.
    pub fn disarm_failed(&mut self, why: &str)
        ensures
            *final(self) == (DebuggerPanel { watch_err: final(self).watch_err, ..*old(self) }),
            says(final(self).watch_err, "Could not disarm the watchpoint: "@ + why@),
    {
        let mut m = "Could not disarm the watchpoint: ".to_string();
        m.append(why);
        self.watch_err = Some(m);
    }

    /// An access site was clicked.
    pub fn goto_site(&mut self, rip: u64)
        ensures
            *final(self) == (DebuggerPanel {
                pending_goto_disasm: Some(rip as usize),
                ..*old(self)
            }),
    {
        self.pending_goto_disasm = Some(rip as usize);
    }

    /// The address that is to be shown in the disassembly, once.
    pub fn take_goto_disasm(&mut self) -> (r: Option<usize>)
        ensures
            r == old(self).pending_goto_disasm,
            *final(self) == (DebuggerPanel { pending_goto_disasm: None, ..*old(self) }),
    {
        let r = self.pending_goto_disasm;
        self.pending_goto_disasm = None;
        r
    }

    /// The list of threads has to be read again.
    pub fn threads_due(&self, now: u64) -> (r: bool)
        ensures
            r == match self.threads_at {
                None => true,
                Some(t) => elapsed(t, now) >= THREAD_REFRESH,
            },
    {
        match self.threads_at {
            None => true,
            Some(t) => now.saturating_sub(t) >= THREAD_REFRESH,
        }
    }

    /// Takes over the threads, sorted by their ids.
    pub fn set_threads(&mut self, threads: Vec<ThreadInfo>, now: u64)
        ensures
            *final(self) == (DebuggerPanel {
                threads: final(self).threads,
                threads_at: Some(now),
                ..*old(self)
            }),
            threads_sorted(threads@, final(self).threads@),
    {
        self.threads = sort_threads(&threads);
        self.threads_at = Some(now);
    }
}

/// The slots of a list of threads by id.
pub open spec fn thread_slots(s: Seq<ThreadInfo>) -> Seq<Slot> {
    Seq::new(s.len(), |i: int| Slot { key: tid_key(s[i].tid), index: i as usize })
}

/// `out` are the threads `s` in the order of their ids; threads of one id keep their
/// order.
pub open spec fn threads_sorted(s: Seq<ThreadInfo>, out: Seq<ThreadInfo>) -> bool {
    exists|slots: Seq<Slot>|
        #![trigger stably_sorted(thread_slots(s), slots)]
        stably_sorted(thread_slots(s), slots) && out.len() == slots.len() && forall|i: int|
            0 <= i < out.len() ==> (#[trigger] slots[i]).index < s.len() && out[i]
                == s[slots[i].index as int]
}

/// An id as a key: ids are ordered as their keys are.
pub open spec fn tid_key(tid: i32) -> u64 {
    (tid + 0x8000_0000) as u64
}

fn sort_threads(threads: &Vec<ThreadInfo>) -> (out: Vec<ThreadInfo>)
    ensures
        threads_sorted(threads@, out@),
{
    let mut slots: Vec<Slot> = Vec::new();
    let mut i: usize = 0;
    while i < threads.len()
        invariant
            i <= threads@.len(),
            slots@.len() == i,
            forall|k: int|
                0 <= k < i ==> #[trigger] slots@[k] == (Slot {
                    key: tid_key(threads@[k].tid),
                    index: k as usize,
                }),
        decreases threads@.len() - i,
    {
        slots.push(Slot { key: (threads[i].tid as i64 + 0x8000_0000) as u64, index: i });
        i += 1;
    }
    assert(slots@ =~= thread_slots(threads@));
    let sorted = sort_by_key(slots.as_slice());
    let mut out: Vec<ThreadInfo> = Vec::new();
    proof {
        assert forall|k: int| 0 <= k < sorted@.len() implies (#[trigger] sorted@[k]).index
            < threads@.len() && sorted@[k].key == tid_key(
            threads@[sorted@[k].index as int].tid,
        ) by {
            lemma_sorted_same_elements(slots@, sorted@, sorted@[k]);
            assert(sorted@.contains(sorted@[k]));
            let j = choose|j: int| 0 <= j < slots@.len() && slots@[j] == sorted@[k];
            assert(slots@[j] == sorted@[k]);
        }
    }
    while out.len() < sorted.len()
        invariant
            out@.len() <= sorted@.len(),
            forall|k: int|
                0 <= k < sorted@.len() ==> (#[trigger] sorted@[k]).index < threads@.len()
                    && sorted@[k].key == tid_key(threads@[sorted@[k].index as int].tid),
            forall|k: int|
                0 <= k < out@.len() ==> #[trigger] out@[k] == threads@[sorted@[k].index as int],
        decreases sorted@.len() - out@.len(),
    {
        let k: usize = out.len();
        assert(sorted@[k as int].index < threads@.len());
        let t = &threads[sorted[k].index];
        out.push(ThreadInfo { tid: t.tid, name: t.name.clone() });
    }
    proof {
        assert(stably_sorted(thread_slots(threads@), sorted@));
        assert forall|i: int| 0 <= i < out@.len() implies (#[trigger] sorted@[i]).index
            < threads@.len() && out@[i] == threads@[sorted@[i].index as int] by {
            assert(out@[i] == threads@[sorted@[i].index as int]);
        }
    }
    out
}

/// The thread of a directory entry: the entry's name is its id, and `comm` its
/// name, where that could be read.
pub fn thread_entry(entry: &str, comm: Option<&str>) -> (r: Option<ThreadInfo>)
    ensures
        match parse_int_spec(entry@, 10, i32::MIN as int, i32::MAX as int) {
            Err(_) => r is None,
            Ok(n) => r matches Some(t) && t.tid == n && t.name@ == match comm {
                Some(c) => trim(c@),
                None => Seq::empty(),
            },
        },
{
    let c = chars_of(entry);
    match parse_signed(c.as_slice(), 10, i32::MAX as i64) {
        Err(_) => None,
        Ok(n) => {
            let name = match comm {
                Some(t) => {
                    let tc = chars_of(t);
                    string_of(trim_exec(tc.as_slice()))
                },
                None => String::new(),
            };
            Some(ThreadInfo { tid: n as i32, name })
        },
    }
}

/// How an active breakpoint is listed.
pub open spec fn spec_text(s: BpSpec) -> Seq<char> {
    match s {
        BpSpec::Hardware { addr, len, ty } => hw_text(ty) + " @ 0x"@ + hex_upper(addr as nat)
            + " (len="@ + decimal(len as nat) + ")"@,
        BpSpec::Uprobe { addr } => "Uprobe @ 0x"@ + hex_upper(addr as nat),
    }
}

pub fn breakpoint_line(label: &str, s: BpSpec) -> (t: String)
    ensures
        t@ == label@ + "  "@ + spec_text(s),
{
    let mut t = label.to_string();
    t.append("  ");
    let mut u = match s {
        BpSpec::Hardware { addr, len, ty } => {
            let mut u = hw_label(ty).to_string();
            u.append(" @ 0x");
            let a = string_of(hex_upper_exec(addr).as_slice());
            u.append(a.as_str());
            u.append(" (len=");
            let n = string_of(decimal_exec(len as u64).as_slice());
            u.append(n.as_str());
            u.append(")");
            u
        },
        BpSpec::Uprobe { addr } => {
            let mut u = "Uprobe @ 0x".to_string();
            let a = string_of(hex_upper_exec(addr).as_slice());
            u.append(a.as_str());
            u
        },
    };
    t.append(u.as_str());
    t
}

/// What is said of the search for accesses.
pub fn watch_label(w: ActiveWatch, hits: u64, sites: u64) -> (s: String)
    ensures
        s@ == "Watching "@ + prefixed_hex(w.address as nat) + " (+"@ + decimal(w.length as nat)
            + " bytes) — "@ + decimal(hits as nat) + " hit(s) from "@ + decimal(sites as nat)
            + " instruction(s)"@,
{
    let mut s = "Watching ".to_string();
    let a = prefixed_hex_exec(w.address);
    s.append(a.as_str());
    s.append(" (+");
    let n = string_of(decimal_exec(w.length as u64).as_slice());
    s.append(n.as_str());
    s.append(" bytes) — ");
    let h = string_of(decimal_exec(hits).as_slice());
    s.append(h.as_str());
    s.append(" hit(s) from ");
    let k = string_of(decimal_exec(sites).as_slice());
    s.append(k.as_str());
    s.append(" instruction(s)");
    s
}

/// The warning about hits that were not recorded; none where all were.
pub fn dropped_label(dropped: u64) -> (r: Option<String>)
    ensures
        match r {
            None => dropped == 0,
            Some(s) => dropped > 0 && s@ == decimal(dropped as nat)
                + " hit(s) from further instructions were not recorded — the site list is capped."@,
        },
{
    if dropped == 0 {
        return None;
    }
    let mut s = string_of(decimal_exec(dropped).as_slice());
    s.append(" hit(s) from further instructions were not recorded — the site list is capped.");
    Some(s)
}

/// The registers in the order in which they are shown, with their names.
pub open spec fn register_list(r: Registers) -> Seq<(Seq<char>, u64)> {
    seq![
        ("RIP"@, r.rip),
        ("RSP"@, r.rsp),
        ("RFLAGS"@, r.rflags),
        ("RAX"@, r.rax),
        ("RBX"@, r.rbx),
        ("RCX"@, r.rcx),
        ("RDX"@, r.rdx),
        ("RSI"@, r.rsi),
        ("RDI"@, r.rdi),
        ("RBP"@, r.rbp),
        ("R8"@, r.r8),
        ("R9"@, r.r9),
        ("R10"@, r.r10),
        ("R11"@, r.r11),
        ("R12"@, r.r12),
        ("R13"@, r.r13),
        ("R14"@, r.r14),
        ("R15"@, r.r15),
    ]
}

fn register_line(name: &str, value: u64) -> (s: String)
    ensures
        s@ == name@ + ": "@ + wide_hex(value as nat, 16),
{
    let mut s = name.to_string();
    s.append(": ");
    let h = wide_hex_exec(value, 16);
    s.append(h.as_str());
    s
}

/// The lines of the register view.
pub fn register_lines(r: &Registers) -> (out: Vec<String>)
    ensures
        out@.len() == register_list(*r).len(),
        forall|i: int|
            0 <= i < out@.len() ==> (#[trigger] out@[i])@ == register_list(*r)[i].0 + ": "@
                + wide_hex(register_list(*r)[i].1 as nat, 16),
{
    let mut out: Vec<String> = Vec::new();
    out.push(register_line("RIP", r.rip));
    out.push(register_line("RSP", r.rsp));
    out.push(register_line("RFLAGS", r.rflags));
    out.push(register_line("RAX", r.rax));
    out.push(register_line("RBX", r.rbx));
    out.push(register_line("RCX", r.rcx));
    out.push(register_line("RDX", r.rdx));
    out.push(register_line("RSI", r.rsi));
    out.push(register_line("RDI", r.rdi));
    out.push(register_line("RBP", r.rbp));
    out.push(register_line("R8", r.r8));
    out.push(register_line("R9", r.r9));
    out.push(register_line("R10", r.r10));
    out.push(register_line("R11", r.r11));
    out.push(register_line("R12", r.r12));
    out.push(register_line("R13", r.r13));
    out.push(register_line("R14", r.r14));
    out.push(register_line("R15", r.r15));
    out
}

/// The log is bounded: whatever is logged, no more entries are kept than allowed,
/// and the latest is among them.
pub proof fn log_stays_bounded(events: Seq<EventEntry>, e: EventEntry)
    ensures
        latest(events.push(e)).len() <= MAX_EVENTS,
        latest(events.push(e)).last() == e,
{
}

/// What the debugger has set is what it was asked for.
pub open spec fn sets(ask: BpAsk, set: BpSpec) -> bool {
    match ask {
        BpAsk::Execute { addr } => set matches BpSpec::Hardware { addr: a, ty, .. } && a == addr
            && ty == HwType::Execute,
        BpAsk::Watch { addr, len, ty } => set == (BpSpec::Hardware { addr, len, ty }),
        BpAsk::Uprobe { addr } => set == (BpSpec::Uprobe { addr }),
    }
}

/// A watchpoint traps the access that its kind is named after, at the address and
/// over the length that were typed, and only the watching kinds ask for one.
pub proof fn kind_traps_its_access(kind: BpKind, addr: u64, len: u32)
    ensures
        (kind.ask(addr, len) == BpAsk::Watch { addr, len, ty: HwType::Write }) <==> kind
            == BpKind::HwWrite,
        (kind.ask(addr, len) == BpAsk::Watch { addr, len, ty: HwType::Read }) <==> kind
            == BpKind::HwRead,
        (kind.ask(addr, len) == BpAsk::Watch { addr, len, ty: HwType::ReadWrite }) <==> kind
            == BpKind::HwAccess,
        (kind.ask(addr, len) == BpAsk::Execute { addr }) <==> kind == BpKind::Execute,
        (kind.ask(addr, len) == BpAsk::Uprobe { addr }) <==> kind == BpKind::Uprobe,
{
}

/// A hit is logged under the name of the kind that was picked for its breakpoint,
/// and no two kinds have the same name.
pub proof fn hit_is_logged_under_its_kind(
    kind: BpKind,
    addr: u64,
    len: u32,
    set: BpSpec,
    ev: DebugEvent,
    e: EventEntry,
    other: BpKind,
)
    requires
        sets(kind.ask(addr, len), set),
        ev.spec == Some(set),
        is_hit(e, ev),
    ensures
        e matches EventEntry::Hit { kind: k, pid, tid, address, bp_label, regs } && k@
            == kind.label_text() && pid == ev.pid && tid == ev.tid && address == ev.address
            && bp_label@ == ev.bp_label@ && regs == ev.registers,
        kind.label_text() == other.label_text() ==> kind == other,
{
    reveal_strlit("Execute");
    reveal_strlit("HW-Write");
    reveal_strlit("HW-Read");
    reveal_strlit("HW-Access");
    reveal_strlit("Uprobe");
    let a = "Execute"@;
    let w = "HW-Write"@;
    let r = "HW-Read"@;
    let x = "HW-Access"@;
    let u = "Uprobe"@;
    assert(a.len() == 7 && w.len() == 8 && r.len() == 7 && x.len() == 9 && u.len() == 6);
    assert(a[0] != r[0]);
}

/// A watch is asked for at the address that was typed, over the bytes that were
/// chosen, and for reads too unless writes alone are wanted.
pub proof fn watch_is_asked_for_as_chosen(
    pre: DebuggerPanel,
    post: DebuggerPanel,
    r: Option<WatchRequest>,
    addr: usize,
)
    requires
        asks_watch(pre, post, r),
        pre.watch_addr_text@ == prefixed_hex(addr as nat),
    ensures
        r is Some <==> pre.attached,
        r matches Some(w) ==> {
            &&& w.addr == addr
            &&& w.len == pre.watch_len
            &&& w.ty == HwType::Write <==> pre.watch_writes_only
            &&& w.ty == HwType::ReadWrite <==> !pre.watch_writes_only
        },
        post.watch_err is None <==> pre.attached,
{
    crate::address::short_address_parses_back(addr as nat);
}

/// A breakpoint that is set from elsewhere is an execute breakpoint at that address.
pub proof fn execute_breakpoint_is_asked_for_at_the_address(
    pre: DebuggerPanel,
    post: DebuggerPanel,
    addr: usize,
    r: Option<BpRequest>,
)
    requires
        asks_execute(pre, post, addr, r),
    ensures
        r is Some <==> pre.attached,
        r matches Some(b) ==> b.addr == addr && b.kind.ask(b.addr, b.len) == (BpAsk::Execute {
            addr: addr as u64,
        }),
        crate::address::hex_addr(post.bp_addr_text@) == Some(addr as int),
        !pre.attached ==> post.bp_err is Some,
{
    crate::address::short_address_parses_back(addr as nat);
}

/// The log keeps what came last, in the order in which it came.
pub proof fn log_keeps_the_latest(events: Seq<EventEntry>, e: EventEntry, k: int)
    requires
        0 <= k < latest(events.push(e)).len() - 1,
    ensures
        latest(events.push(e))[k] == events[events.len() - (latest(events.push(e)).len() - 1) + k],
        events.len() < MAX_EVENTS ==> latest(events.push(e)) == events.push(e),
        events.len() >= MAX_EVENTS ==> latest(events.push(e)).len() == MAX_EVENTS,
{
}

/// The threads are listed by their numbers, each as often as it was found.
pub proof fn threads_are_listed_by_number(s: Seq<ThreadInfo>, out: Seq<ThreadInfo>)
    requires
        threads_sorted(s, out),
        s.len() <= usize::MAX,
    ensures
        out.len() == s.len(),
        forall|i: int, j: int|
            0 <= i < j < out.len() ==> (#[trigger] out[i]).tid <= (#[trigger] out[j]).tid,
        forall|i: int| 0 <= i < s.len() ==> out.contains(#[trigger] s[i]),
{
    let keys = thread_slots(s);
    let slots = choose|slots: Seq<Slot>|
        #![trigger stably_sorted(thread_slots(s), slots)]
        stably_sorted(thread_slots(s), slots) && out.len() == slots.len() && forall|i: int|
            0 <= i < out.len() ==> (#[trigger] slots[i]).index < s.len() && out[i]
                == s[slots[i].index as int];
    assert forall|i: int| 0 <= i < slots.len() implies (#[trigger] slots[i]).key == tid_key(
        out[i].tid,
    ) by {
        crate::sort::lemma_sorted_same_elements(keys, slots, slots[i]);
        assert(slots.contains(slots[i]));
        let j = keys.index_of(slots[i]);
        assert(keys[j] == slots[i]);
    }
    assert forall|i: int, j: int| 0 <= i < j < out.len() implies (#[trigger] out[i]).tid <= (
    #[trigger] out[j]).tid by {
        assert(slots[i].key <= slots[j].key);
    }
    assert forall|i: int| 0 <= i < s.len() implies out.contains(#[trigger] s[i]) by {
        assert(keys.contains(keys[i]));
        crate::sort::lemma_sorted_same_elements(keys, slots, keys[i]);
        let j = slots.index_of(keys[i]);
        assert(slots[j].index == i);
        assert(out[j] == s[i]);
    }
}

/// A breakpoint is asked for at the address that was typed, of the kind and the length
/// that were chosen.
pub proof fn breakpoint_is_asked_for_as_chosen(
    pre: DebuggerPanel,
    post: DebuggerPanel,
    r: Option<BpRequest>,
    addr: usize,
)
    requires
        asks_breakpoint(pre, post, r),
        pre.bp_addr_text@ == prefixed_hex(addr as nat),
    ensures
        r matches Some(b) && b.addr == addr && b.kind == pre.bp_kind && b.len == pre.bp_len,
        post == pre,
{
    crate::address::short_address_parses_back(addr as nat);
}

} // verus!

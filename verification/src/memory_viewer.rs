//! The memory viewer: a page of the target's memory in hex.
use vstd::prelude::*;
use vstd::slice::slice_subrange;
use vstd::string::StringExecFns;

use crate::address::{address_or_message, parse_address};
use crate::bytes::{
    from_le, le_bytes, le_value, lemma_le_bytes_len, lemma_le_round_trip, lemma_le_value_bound,
    lemma_le_write_back, lemma_pow256_small, pow256,
};
use crate::cheat_table::elapsed;
use crate::history::{remember, remembered, HISTORY_CAP};
use crate::text::{
    address_text, address_text_exec, decimal, decimal_exec, hex_upper, hex_upper_exec, says, string_of,
    lemma_hex_len, lemma_padded_round_trip, parse_int_spec, zero_padded, zero_padded_exec, IntError,
};

verus! {

/// The bytes of a row.
pub const BYTES_PER_ROW: usize = 16;

/// The bytes of a snapshot.
pub const SNAPSHOT_SIZE: usize = 4096;

/// The shortest text that is marked.
pub const MIN_STRING_LEN: usize = 4;

/// How many milliseconds lie between two snapshots.
pub const SNAPSHOT_INTERVAL: u64 = 150;

/// What the bytes of a row are shown as.
#[derive(Clone, Copy, Debug, PartialEq, Eq, Structural)]
pub enum DisplayType {
    Bytes,
    Word,
    Dword,
    Qword,
    Float32,
    Float64,
}

impl DisplayType {
    pub open spec fn label_text(self) -> Seq<char> {
        match self {
            DisplayType::Bytes => "Bytes"@,
            DisplayType::Word => "Word (u16)"@,
            DisplayType::Dword => "Dword (u32)"@,
            DisplayType::Qword => "Qword (u64)"@,
            DisplayType::Float32 => "Float (f32)"@,
            DisplayType::Float64 => "Double (f64)"@,
        }
    }

    pub fn label(self) -> (s: &'static str)
        ensures
            s@ == self.label_text(),
    {
        match self {
            DisplayType::Bytes => "Bytes",
            DisplayType::Word => "Word (u16)",
            DisplayType::Dword => "Dword (u32)",
            DisplayType::Qword => "Qword (u64)",
            DisplayType::Float32 => "Float (f32)",
            DisplayType::Float64 => "Double (f64)",
        }
    }

    pub open spec fn unit(self) -> nat {
        match self {
            DisplayType::Bytes => 1,
            DisplayType::Word => 2,
            DisplayType::Dword => 4,
            DisplayType::Qword => 8,
            DisplayType::Float32 => 4,
            DisplayType::Float64 => 8,
        }
    }

    /// The bytes of one value.
    pub fn unit_size(self) -> (n: usize)
        ensures
            n == self.unit(),
    {
        match self {
            DisplayType::Bytes => 1,
            DisplayType::Word => 2,
            DisplayType::Dword => 4,
            DisplayType::Qword => 8,
            DisplayType::Float32 => 4,
            DisplayType::Float64 => 8,
        }
    }
}

/// What a 64-bit value points at.
#[derive(Clone, Copy, Debug, PartialEq, Eq, Structural)]
pub enum PointerClass {
    Null,
    NotPointer,
    DataPtr,
    CodePtr,
    VTablePtr { method_count: usize },
}

#[derive(Clone, Copy, Debug, PartialEq, Eq, Structural)]
pub enum StrKind {
    Ascii,
    Utf16Le,
}

/// A text in the snapshot.
#[derive(Debug)]
pub struct StringRun {
    pub offset: usize,
    pub len_bytes: usize,
    pub kind: StrKind,
    pub text: String,
}

/// What an address lies in.
#[derive(Debug)]
pub enum AddrClass {
    Unmapped,
    Data { module: Option<String> },
    Executable { module: Option<String> },
}

/// The memory viewer.
#[derive(Debug)]
pub struct MemoryViewer {
    /// The address of the first byte shown.
    pub address: usize,
    pub address_input: String,
    pub address_error: Option<String>,
    /// Where "Back" leads, the latest last.
    pub history: Vec<usize>,
    pub display_type: DisplayType,
    pub buf: Vec<u8>,
    /// The snapshot before, against which changes are marked.
    pub prev_buf: Vec<u8>,
    /// How many bytes of the snapshot were read.
    pub bytes_read: usize,
    pub last_snapshot: Option<u64>,
    pub qword_classes: Vec<PointerClass>,
    pub string_runs: Vec<StringRun>,
    /// Whether it is known what the addresses lie in.
    pub has_index: bool,
    pub status_msg: Option<String>,
    pub pending_disassemble: Option<usize>,
    pub pending_dissect: Option<usize>,
}

/// A page of zeros.
pub open spec fn blank_page() -> Seq<u8> {
    Seq::new(SNAPSHOT_SIZE as nat, |i: int| 0u8)
}

/// `b`, filled up with zeros to a page.
pub open spec fn padded_page(b: Seq<u8>) -> Seq<u8> {
    Seq::new(
        SNAPSHOT_SIZE as nat,
        |i: int|
            if i < b.len() {
                b[i]
            } else {
                0u8
            },
    )
}

fn blank_page_exec() -> (p: Vec<u8>)
    ensures
        p@ == blank_page(),
{
    padded_page_exec(Vec::new())
}

fn padded_page_exec(b: Vec<u8>) -> (p: Vec<u8>)
    requires
        b@.len() <= SNAPSHOT_SIZE,
    ensures
        p@ == padded_page(b@),
{
    let ghost was = b@;
    let mut p = b;
    while p.len() < SNAPSHOT_SIZE
        invariant
            was.len() <= p@.len() <= SNAPSHOT_SIZE,
            p@ == padded_page(was).subrange(0, p@.len() as int),
        decreases SNAPSHOT_SIZE - p@.len(),
    {
        p.push(0);
        assert(p@ =~= padded_page(was).subrange(0, p@.len() as int));
    }
    assert(padded_page(was).subrange(0, SNAPSHOT_SIZE as int) =~= padded_page(was));
    p
}

/// The viewer went to an address: the one before is remembered unless it is the
/// same, and a new snapshot is due.
pub open spec fn went_to(pre: MemoryViewer, post: MemoryViewer, addr: usize) -> bool {
    &&& post == MemoryViewer {
        address: addr,
        address_input: post.address_input,
        history: post.history,
        last_snapshot: None,
        ..pre
    }
    &&& post.address_input@ == address_text(addr as nat)
    &&& post.history@ == if addr != pre.address {
        remembered(pre.history@, pre.address)
    } else {
        pre.history@
    }
}

/// The viewer went back, where there is somewhere to go back to.
pub open spec fn went_back(pre: MemoryViewer, post: MemoryViewer) -> bool {
    if pre.history@.len() == 0 {
        post == pre
    } else {
        &&& post == MemoryViewer {
            address: pre.history@.last(),
            address_input: post.address_input,
            history: post.history,
            last_snapshot: None,
            ..pre
        }
        &&& post.address_input@ == address_text(pre.history@.last() as nat)
        &&& post.history@ == pre.history@.drop_last()
    }
}

impl MemoryViewer {
    /// Both snapshots are whole pages.
    pub open spec fn wf(&self) -> bool {
        self.buf@.len() == SNAPSHOT_SIZE && self.prev_buf@.len() == SNAPSHOT_SIZE
            && self.bytes_read <= SNAPSHOT_SIZE && self.history@.len() <= HISTORY_CAP
    }

    /// What belonged to the process is gone. The address and the way of showing it
    /// stay.
    pub open spec fn detached(pre: Self, post: Self) -> bool {
        &&& post.address == pre.address
        &&& post.address_input == pre.address_input
        &&& post.display_type == pre.display_type
        &&& post.address_error is None
        &&& post.history@.len() == 0
        &&& post.buf@ == blank_page()
        &&& post.prev_buf@ == blank_page()
        &&& post.bytes_read == 0
        &&& post.last_snapshot is None
        &&& post.qword_classes@.len() == 0
        &&& post.string_runs@.len() == 0
        &&& !post.has_index
        &&& post.status_msg is None
        &&& post.pending_disassemble is None
        &&& post.pending_dissect is None
    }

    /// A process was attached, and its mappings were read or could not be.
    pub open spec fn attached(pre: Self, post: Self, index: Result<(), String>) -> bool {
        &&& post == (MemoryViewer {
            has_index: index is Ok,
            status_msg: post.status_msg,
            ..pre
        })
        &&& match index {
            Ok(_) => post.status_msg == pre.status_msg,
            Err(e) => says(post.status_msg, "RegionIndex: "@ + e@),
        }
    }

    /// Nothing was read, entered or asked for.
    pub open spec fn is_fresh(&self) -> bool {
        &&& self.address == 0
        &&& self.address_input@.len() == 0
        &&& self.address_error is None
        &&& self.history@.len() == 0
        &&& self.display_type == DisplayType::Bytes
        &&& self.buf@ == blank_page()
        &&& self.prev_buf@ == blank_page()
        &&& self.bytes_read == 0
        &&& self.last_snapshot is None
        &&& self.qword_classes@.len() == 0
        &&& self.string_runs@.len() == 0
        &&& !self.has_index
        &&& self.status_msg is None
        &&& self.pending_disassemble is None
        &&& self.pending_dissect is None
    }

    pub fn new() -> (v: Self)
        ensures
            v.wf(),
            v.is_fresh(),
    {
        MemoryViewer {
            address: 0,
            address_input: String::new(),
            address_error: None,
            history: Vec::new(),
            display_type: DisplayType::Bytes,
            buf: blank_page_exec(),
            prev_buf: blank_page_exec(),
            bytes_read: 0,
            last_snapshot: None,
            qword_classes: Vec::new(),
            string_runs: Vec::new(),
            has_index: false,
            status_msg: None,
            pending_disassemble: None,
            pending_dissect: None,
        }
    }

    /// Forgets what belongs to the process. The address and the way of showing it
    /// stay.
    pub fn on_detach(&mut self)
        ensures
            final(self).wf(),
            Self::detached(*old(self), *final(self)),
    {
        self.buf = blank_page_exec();
        self.prev_buf = blank_page_exec();
        self.bytes_read = 0;
        self.last_snapshot = None;
        self.string_runs = Vec::new();
        self.qword_classes = Vec::new();
        self.history = Vec::new();
        self.address_error = None;
        self.status_msg = None;
        self.pending_disassemble = None;
        self.pending_dissect = None;
        self.has_index = false;
    }

    /// A process was attached, and its mappings were read or could not be.
    pub fn on_attach(&mut self, index: Result<(), String>)
        ensures
            Self::attached(*old(self), *final(self), index),
            old(self).wf() ==> final(self).wf(),
    {
        match index {
            Ok(_) => {
                self.has_index = true;
            },
            Err(e) => {
                let mut m = "RegionIndex: ".to_string();
                m.append(e.as_str());
                self.status_msg = Some(m);
                self.has_index = false;
            },
        }
    }

    /// The address that is to be disassembled, once.
    pub fn take_disassemble_request(&mut self) -> (r: Option<usize>)
        ensures
            r == old(self).pending_disassemble,
            *final(self) == (MemoryViewer { pending_disassemble: None, ..*old(self) }),
    {
        let r = self.pending_disassemble;
        self.pending_disassemble = None;
        r
    }

    /// The address that is to be dissected, once.
    pub fn take_dissect_request(&mut self) -> (r: Option<usize>)
        ensures
            r == old(self).pending_dissect,
            *final(self) == (MemoryViewer { pending_dissect: None, ..*old(self) }),
    {
        let r = self.pending_dissect;
        self.pending_dissect = None;
        r
    }

    /// "Disassemble here" was clicked.
    pub fn request_disassemble(&mut self)
        ensures
            *final(self) == (MemoryViewer {
                pending_disassemble: Some(old(self).address),
                ..*old(self)
            }),
    {
        self.pending_disassemble = Some(self.address);
    }

    /// "Dissect as class here" was clicked.
    pub fn request_dissect(&mut self)
        ensures
            *final(self) == (MemoryViewer {
                pending_dissect: Some(old(self).address),
                ..*old(self)
            }),
    {
        self.pending_dissect = Some(self.address);
    }

    /// Shows an address.
    pub fn goto(&mut self, addr: usize)
        ensures
            went_to(*old(self), *final(self), addr),
            old(self).wf() ==> final(self).wf(),
    {
        self.navigate_to(addr);
    }

    /// Follows a link to an address. The regions are read anew then; `indexed` says
    /// whether they could be. Where not, those that were known before stay.
    pub fn follow_link(&mut self, addr: usize, indexed: bool)
        ensures
            exists|mid: MemoryViewer|
                #[trigger] went_to(*old(self), mid, addr) && *final(self) == (MemoryViewer {
                    has_index: mid.has_index || indexed,
                    ..mid
                }),
            old(self).wf() ==> final(self).wf(),
    {
        self.navigate_to(addr);
        assert(went_to(*old(self), *self, addr));
        if indexed {
            self.has_index = true;
        }
    }

    pub fn navigate_to(&mut self, addr: usize)
        ensures
            went_to(*old(self), *final(self), addr),
            old(self).wf() ==> final(self).wf(),
    {
        if addr != self.address {
            remember(&mut self.history, self.address);
        }
        self.address = addr;
        self.address_input = address_text_exec(addr as u64);
        self.last_snapshot = None;
    }

    pub fn navigate_back(&mut self)
        ensures
            went_back(*old(self), *final(self)),
            old(self).wf() ==> final(self).wf(),
    {
        if self.history.len() == 0 {
            return ;
        }
        let prev: usize = self.history[self.history.len() - 1];
        self.history.pop();
        self.address = prev;
        self.address_input = address_text_exec(prev as u64);
        self.last_snapshot = None;
    }

    /// Fills in the address box where it is empty.
    pub fn fill_address_input(&mut self)
        ensures
            *final(self) == (MemoryViewer { address_input: final(self).address_input, ..*old(self) }),
            if old(self).address_input@.len() == 0 {
                final(self).address_input@ == address_text(old(self).address as nat)
            } else {
                final(self).address_input == old(self).address_input
            },
    {
        if self.address_input.as_str().is_empty() {
            self.address_input = address_text_exec(self.address as u64);
        }
    }

    /// Goes to the address in the box, or says what is wrong with it.
    pub fn try_parse_address(&mut self)
        ensures
            old(self).wf() ==> final(self).wf(),
            match address_or_message(old(self).address_input@) {
                Ok(a) => went_to(
                    (MemoryViewer { address_error: None, ..*old(self) }),
                    *final(self),
                    a as usize,
                ),
                Err(m) => *final(self) == (MemoryViewer {
                    address_error: final(self).address_error,
                    ..*old(self)
                }) && says(final(self).address_error, m),
            },
    {
        match parse_address(self.address_input.as_str()) {
            Ok(a) => {
                self.address_error = None;
                self.navigate_to(a);
            },
            Err(e) => {
                self.address_error = Some(e);
            },
        }
    }

    /// A new snapshot is due.
    pub fn snapshot_due(&self, now: u64) -> (r: bool)
        ensures
            r == match self.last_snapshot {
                None => true,
                Some(t) => elapsed(t, now) >= SNAPSHOT_INTERVAL,
            },
    {
        match self.last_snapshot {
            None => true,
            Some(t) => now.saturating_sub(t) >= SNAPSHOT_INTERVAL,
        }
    }

    /// Takes over what was read at the address: the page before is kept for
    /// comparison, and what could not be read is zero.
    pub fn snapshot_taken(&mut self, read: Result<Vec<u8>, String>, now: u64)
        requires
            old(self).wf(),
            read matches Ok(b) ==> b@.len() <= SNAPSHOT_SIZE,
        ensures
            final(self).wf(),
            final(self).prev_buf == old(self).buf,
            final(self).last_snapshot == Some(now),
            match read {
                Ok(b) => final(self).buf@ == padded_page(b@) && final(self).bytes_read == b@.len()
                    && final(self).status_msg == old(self).status_msg,
                Err(e) => final(self).buf@ == blank_page() && final(self).bytes_read == 0 && says(
                    final(self).status_msg,
                    "Read failed: "@ + e@,
                ),
            },
            *final(self) == (MemoryViewer {
                buf: final(self).buf,
                prev_buf: final(self).prev_buf,
                bytes_read: final(self).bytes_read,
                status_msg: final(self).status_msg,
                last_snapshot: final(self).last_snapshot,
                ..*old(self)
            }),
    {
        let page = match read {
            Ok(b) => {
                self.bytes_read = b.len();
                padded_page_exec(b)
            },
            Err(e) => {
                self.bytes_read = 0;
                let mut m = "Read failed: ".to_string();
                m.append(e.as_str());
                self.status_msg = Some(m);
                blank_page_exec()
            },
        };
        let mut page = page;
        std::mem::swap(&mut self.buf, &mut page);
        self.prev_buf = page;
        self.last_snapshot = Some(now);
    }

    /// The 64-bit values of the snapshot, where it is to be found out what they
    /// point at: only where they are shown, and it is known what the addresses lie
    /// in.
    pub fn qwords_to_classify(&self) -> (r: Option<Vec<u64>>)
        requires
            self.wf(),
        ensures
            match r {
                None => self.display_type != DisplayType::Qword || !self.has_index,
                Some(v) => self.display_type == DisplayType::Qword && self.has_index && v@.len()
                    == self.bytes_read / 8 && forall|i: int|
                    0 <= i < v@.len() ==> #[trigger] v@[i] == le_value(
                        self.buf@.subrange(i * 8, i * 8 + 8),
                    ),
            },
    {
        if self.display_type != DisplayType::Qword || !self.has_index {
            return None;
        }
        let n: usize = self.bytes_read / 8;
        let mut v: Vec<u64> = Vec::new();
        while v.len() < n
            invariant
                self.wf(),
                v@.len() <= n,
                n == self.bytes_read / 8,
                forall|i: int|
                    0 <= i < v@.len() ==> #[trigger] v@[i] == le_value(
                        self.buf@.subrange(i * 8, i * 8 + 8),
                    ),
            decreases n - v@.len(),
        {
            let off: usize = v.len() * 8;
            let q: u64 = from_le(slice_subrange(self.buf.as_slice(), off, off + 8));
            v.push(q);
        }
        Some(v)
    }

    /// Takes over what the values point at.
    pub fn set_qword_classes(&mut self, classes: Option<Vec<PointerClass>>)
        ensures
            *final(self) == (MemoryViewer { qword_classes: final(self).qword_classes, ..*old(self) }),
            match classes {
                Some(c) => final(self).qword_classes == c,
                None => final(self).qword_classes@.len() == 0,
            },
    {
        self.qword_classes = match classes {
            Some(c) => c,
            None => Vec::new(),
        };
    }
}

/// What is said of where the address lies.
pub open spec fn region_text(class: Option<AddrClass>) -> Seq<char> {
    match class {
        None => "Region: (no index — attach to refresh)"@,
        Some(AddrClass::Unmapped) => "Region: (unmapped)"@,
        Some(AddrClass::Data { module }) => "Region: "@ + module_text(module) + "  r--p (data)"@,
        Some(AddrClass::Executable { module }) => "Region: "@ + module_text(module)
            + "  r-xp (executable)"@,
    }
}

/// The name of a module; memory of none is anonymous.
pub open spec fn module_text(module: Option<String>) -> Seq<char> {
    match module {
        Some(m) => m@,
        None => "anon"@,
    }
}

/// The line about where the address lies; `class` where that is known.
pub fn region_label(class: &Option<AddrClass>) -> (s: String)
    ensures
        s@ == region_text(*class),
{
    match class {
        None => "Region: (no index — attach to refresh)".to_string(),
        Some(AddrClass::Unmapped) => "Region: (unmapped)".to_string(),
        Some(AddrClass::Data { module }) => {
            let mut s = "Region: ".to_string();
            match module {
                Some(m) => {
                    s.append(m.as_str());
                },
                None => {
                    s.append("anon");
                },
            }
            s.append("  r--p (data)");
            s
        },
        Some(AddrClass::Executable { module }) => {
            let mut s = "Region: ".to_string();
            match module {
                Some(m) => {
                    s.append(m.as_str());
                },
                None => {
                    s.append("anon");
                },
            }
            s.append("  r-xp (executable)");
            s
        },
    }
}

/// A value of the hex column.
#[derive(Clone, Copy, Debug, PartialEq, Eq, Structural)]
pub enum CellValue {
    Byte(u8),
    Word(u16),
    Dword(u32),
    /// With what it points at, where that is known.
    Qword(u64, Option<PointerClass>),
    /// A single-precision number, by its bits.
    Single(u32),
    /// A double-precision number, by its bits.
    Double(u64),
}

/// How a cell is coloured.
#[derive(Clone, Copy, Debug, PartialEq, Eq, Structural)]
pub enum CellTone {
    /// Not read.
    Missing,
    /// Not as it was in the snapshot before.
    Changed,
    Plain,
    DataLink,
    CodeLink,
    VTableLink,
    Null,
}

/// A cell of the hex column.
#[derive(Clone, Copy, Debug, PartialEq, Eq, Structural)]
pub struct HexCell {
    pub value: CellValue,
    pub tone: CellTone,
    /// Where a click leads.
    pub link: Option<usize>,
}

/// A byte that was read is not as it was before.
pub open spec fn byte_changed(v: MemoryViewer, i: int) -> bool {
    i < v.bytes_read && v.prev_buf@[i] != v.buf@[i]
}

/// One of the bytes of a value changed.
pub open spec fn unit_changed(v: MemoryViewer, off: int, unit: nat) -> bool {
    exists|i: int| off <= i < off + unit && #[trigger] byte_changed(v, i)
}

/// The value at an offset of the snapshot.
pub open spec fn cell_value(v: MemoryViewer, off: int) -> CellValue {
    let n = le_value(v.buf@.subrange(off, off + v.display_type.unit()));
    match v.display_type {
        DisplayType::Bytes => CellValue::Byte(v.buf@[off]),
        DisplayType::Word => CellValue::Word(n as u16),
        DisplayType::Dword => CellValue::Dword(n as u32),
        DisplayType::Qword => CellValue::Qword(
            n as u64,
            if off / 8 < v.qword_classes@.len() {
                Some(v.qword_classes@[off / 8])
            } else {
                None
            },
        ),
        DisplayType::Float32 => CellValue::Single(n as u32),
        DisplayType::Float64 => CellValue::Double(n as u64),
    }
}

/// How the value at an offset is coloured.
pub open spec fn cell_tone(v: MemoryViewer, off: int) -> CellTone {
    let plain = if unit_changed(v, off, v.display_type.unit()) {
        CellTone::Changed
    } else {
        CellTone::Plain
    };
    match cell_value(v, off) {
        CellValue::Byte(_) => if off >= v.bytes_read {
            CellTone::Missing
        } else {
            plain
        },
        CellValue::Qword(_, Some(PointerClass::DataPtr)) => CellTone::DataLink,
        CellValue::Qword(_, Some(PointerClass::CodePtr)) => CellTone::CodeLink,
        CellValue::Qword(_, Some(PointerClass::VTablePtr { .. })) => CellTone::VTableLink,
        CellValue::Qword(_, Some(PointerClass::Null)) => CellTone::Null,
        _ => plain,
    }
}

/// The cell at an offset. Pointers lead to where they point.
pub open spec fn cell_at(v: MemoryViewer, off: int) -> HexCell {
    let value = cell_value(v, off);
    let tone = cell_tone(v, off);
    HexCell {
        value,
        tone,
        link: match value {
            CellValue::Qword(q, _) => if tone == CellTone::DataLink || tone == CellTone::CodeLink
                || tone == CellTone::VTableLink {
                Some(q as usize)
            } else {
                None
            },
            _ => None,
        },
    }
}

impl MemoryViewer {
    fn changed_in(&self, off: usize, unit: usize) -> (r: bool)
        requires
            self.wf(),
            off + unit <= SNAPSHOT_SIZE,
        ensures
            r == unit_changed(*self, off as int, unit as nat),
    {
        let mut i: usize = off;
        while i < off + unit
            invariant
                self.wf(),
                off <= i <= off + unit <= SNAPSHOT_SIZE,
                forall|j: int| off <= j < i ==> !#[trigger] byte_changed(*self, j),
            decreases off + unit - i,
        {
            if i < self.bytes_read && self.prev_buf[i] != self.buf[i] {
                assert(byte_changed(*self, i as int));
                return true;
            }
            i += 1;
        }
        false
    }

    fn hex_cell(&self, off: usize) -> (c: HexCell)
        requires
            self.wf(),
            off + self.display_type.unit() <= SNAPSHOT_SIZE,
        ensures
            c == cell_at(*self, off as int),
    {
        let unit: usize = self.display_type.unit_size();
        let s = slice_subrange(self.buf.as_slice(), off, off + unit);
        proof {
            lemma_le_value_bound(s@);
            lemma_pow256_small();
        }
        let n: u64 = from_le(s);
        let plain = if self.changed_in(off, unit) {
            CellTone::Changed
        } else {
            CellTone::Plain
        };
        match self.display_type {
            DisplayType::Bytes => {
                let tone = if off >= self.bytes_read {
                    CellTone::Missing
                } else {
                    plain
                };
                HexCell { value: CellValue::Byte(self.buf[off]), tone, link: None }
            },
            DisplayType::Word => HexCell {
                value: CellValue::Word(n as u16),
                tone: plain,
                link: None,
            },
            DisplayType::Dword => HexCell {
                value: CellValue::Dword(n as u32),
                tone: plain,
                link: None,
            },
            DisplayType::Qword => {
                let q: usize = off / 8;
                if q < self.qword_classes.len() {
                    let class = self.qword_classes[q];
                    let value = CellValue::Qword(n, Some(class));
                    match class {
                        PointerClass::DataPtr => HexCell {
                            value,
                            tone: CellTone::DataLink,
                            link: Some(n as usize),
                        },
                        PointerClass::CodePtr => HexCell {
                            value,
                            tone: CellTone::CodeLink,
                            link: Some(n as usize),
                        },
                        PointerClass::VTablePtr { .. } => HexCell {
                            value,
                            tone: CellTone::VTableLink,
                            link: Some(n as usize),
                        },
                        PointerClass::Null => HexCell { value, tone: CellTone::Null, link: None },
                        PointerClass::NotPointer => HexCell { value, tone: plain, link: None },
                    }
                } else {
                    HexCell { value: CellValue::Qword(n, None), tone: plain, link: None }
                }
            },
            DisplayType::Float32 => HexCell {
                value: CellValue::Single(n as u32),
                tone: plain,
                link: None,
            },
            DisplayType::Float64 => HexCell { value: CellValue::Double(n), tone: plain, link: None },
        }
    }

    /// The cells of a row of the hex column.
    pub fn hex_row(&self, row: usize) -> (cells: Vec<HexCell>)
        requires
            self.wf(),
            row < SNAPSHOT_SIZE / BYTES_PER_ROW,
        ensures
            is_hex_row(*self, row as int, cells@),
    {
        let unit: usize = self.display_type.unit_size();
        let start: usize = row * BYTES_PER_ROW;
        let mut cells: Vec<HexCell> = Vec::new();
        let mut b: usize = 0;
        while b < BYTES_PER_ROW
            invariant
                self.wf(),
                row < SNAPSHOT_SIZE / BYTES_PER_ROW,
                unit == self.display_type.unit(),
                unit == 1 || unit == 2 || unit == 4 || unit == 8,
                start == row * BYTES_PER_ROW,
                b == cells@.len() * unit,
                b <= BYTES_PER_ROW,
                b % unit == 0,
                forall|k: int|
                    0 <= k < cells@.len() ==> #[trigger] cells@[k] == cell_at(
                        *self,
                        row * BYTES_PER_ROW + k * unit,
                    ),
            decreases BYTES_PER_ROW - b,
        {
            assert(b + unit <= BYTES_PER_ROW);
            let c = self.hex_cell(start + b);
            let ghost n = cells@.len() as int;
            cells.push(c);
            assert((n + 1) * unit == n * unit + unit) by (nonlinear_arith);
            b += unit;
        }
        cells
    }
}

/// A number in upper-case hex, with zeros in front to `width` digits.
pub open spec fn wide_upper(n: nat, width: nat) -> Seq<char> {
    zero_padded(hex_upper(n), width)
}

fn wide_upper_exec(n: u64, width: usize) -> (s: String)
    ensures
        s@ == wide_upper(n as nat, width as nat),
{
    let h = hex_upper_exec(n);
    string_of(zero_padded_exec(h.as_slice(), width).as_slice())
}

/// The text of a value; `real_text` for a floating-point number.
pub open spec fn cell_text(value: CellValue, real_text: Seq<char>) -> Seq<char> {
    match value {
        CellValue::Byte(b) => wide_upper(b as nat, 2),
        CellValue::Word(w) => wide_upper(w as nat, 4),
        CellValue::Dword(d) => wide_upper(d as nat, 8),
        CellValue::Qword(q, class) => wide_upper(q as nat, 16) + match class {
            Some(PointerClass::DataPtr) => "  →data"@,
            Some(PointerClass::CodePtr) => "  →code"@,
            Some(PointerClass::VTablePtr { method_count }) => "  →vtable["@ + decimal(
                method_count as nat,
            ) + "]"@,
            Some(PointerClass::Null) => "  null"@,
            _ => Seq::empty(),
        },
        CellValue::Single(_) => real_text,
        CellValue::Double(_) => real_text,
    }
}

pub fn cell_label(value: CellValue, real_text: &str) -> (s: String)
    ensures
        s@ == cell_text(value, real_text@),
{
    match value {
        CellValue::Byte(b) => wide_upper_exec(b as u64, 2),
        CellValue::Word(w) => wide_upper_exec(w as u64, 4),
        CellValue::Dword(d) => wide_upper_exec(d as u64, 8),
        CellValue::Qword(q, class) => {
            let mut s = wide_upper_exec(q, 16);
            match class {
                Some(PointerClass::DataPtr) => {
                    s.append("  →data");
                },
                Some(PointerClass::CodePtr) => {
                    s.append("  →code");
                },
                Some(PointerClass::VTablePtr { method_count }) => {
                    let mut t = "  →vtable[".to_string();
                    let n = string_of(decimal_exec(method_count as u64).as_slice());
                    t.append(n.as_str());
                    t.append("]");
                    s.append(t.as_str());
                },
                Some(PointerClass::Null) => {
                    s.append("  null");
                },
                _ => {
                    assert(s@ =~= s@ + Seq::<char>::empty());
                },
            }
            s
        },
        CellValue::Single(_) => real_text.to_string(),
        CellValue::Double(_) => real_text.to_string(),
    }
}

/// How a character of the text column is coloured.
#[derive(Clone, Copy, Debug, PartialEq, Eq, Structural)]
pub enum CharTone {
    Missing,
    Ascii,
    Utf16,
    Plain,
}

/// A character of the text column, and the run that starts at it.
#[derive(Clone, Copy, Debug, PartialEq, Eq, Structural)]
pub struct CharCell {
    pub ch: char,
    pub tone: CharTone,
    /// The number of the run that starts here.
    pub starts: Option<usize>,
}

/// The character of a byte: itself where it is printable ASCII, else a dot.
pub open spec fn byte_char(b: u8) -> char {
    if 0x20 <= b <= 0x7e {
        b as char
    } else {
        '.'
    }
}

/// A run covers a position.
pub open spec fn run_covers(r: StringRun, pos: int) -> bool {
    r.offset <= pos < r.offset + r.len_bytes
}

/// The first run that covers a position.
pub open spec fn run_at(runs: Seq<StringRun>, pos: int) -> Option<int>
    decreases runs.len(),
{
    if runs.len() == 0 {
        None
    } else {
        match run_at(runs.drop_last(), pos) {
            Some(i) => Some(i),
            None => if run_covers(runs.last(), pos) {
                Some(runs.len() - 1)
            } else {
                None
            },
        }
    }
}

proof fn lemma_run_stays(runs: Seq<StringRun>, pos: int, n: int)
    requires
        0 <= n <= runs.len(),
        run_at(runs.subrange(0, n), pos) is Some,
    ensures
        run_at(runs, pos) == run_at(runs.subrange(0, n), pos),
    decreases runs.len() - n,
{
    if n < runs.len() {
        assert(runs.subrange(0, n + 1).drop_last() =~= runs.subrange(0, n));
        lemma_run_stays(runs, pos, n + 1);
    } else {
        assert(runs.subrange(0, n) =~= runs);
    }
}

fn find_run(runs: &Vec<StringRun>, pos: usize) -> (r: Option<usize>)
    ensures
        match r {
            Some(i) => i < runs@.len() && run_at(runs@, pos as int) == Some(i as int),
            None => run_at(runs@, pos as int) is None,
        },
{
    let mut i: usize = 0;
    while i < runs.len()
        invariant
            i <= runs@.len(),
            run_at(runs@.subrange(0, i as int), pos as int) is None,
        decreases runs@.len() - i,
    {
        assert(runs@.subrange(0, i + 1).drop_last() =~= runs@.subrange(0, i as int));
        let r = &runs[i];
        if r.offset <= pos && pos - r.offset < r.len_bytes {
            proof {
                lemma_run_stays(runs@, pos as int, i + 1);
            }
            return Some(i);
        }
        i += 1;
    }
    assert(runs@.subrange(0, runs@.len() as int) =~= runs@);
    None
}

/// The character at a position.
pub open spec fn char_at(v: MemoryViewer, pos: int) -> CharCell {
    let run = run_at(v.string_runs@, pos);
    CharCell {
        ch: byte_char(v.buf@[pos]),
        tone: if pos >= v.bytes_read {
            CharTone::Missing
        } else {
            match run {
                Some(i) => match v.string_runs@[i].kind {
                    StrKind::Ascii => CharTone::Ascii,
                    StrKind::Utf16Le => CharTone::Utf16,
                },
                None => CharTone::Plain,
            }
        },
        starts: match run {
            Some(i) => if v.string_runs@[i].offset == pos {
                Some(i as usize)
            } else {
                None
            },
            None => None,
        },
    }
}

impl MemoryViewer {
    /// The characters of a row.
    pub fn char_row(&self, row: usize) -> (cells: Vec<CharCell>)
        requires
            self.wf(),
            row < SNAPSHOT_SIZE / BYTES_PER_ROW,
        ensures
            cells@.len() == BYTES_PER_ROW,
            forall|k: int|
                0 <= k < BYTES_PER_ROW ==> #[trigger] cells@[k] == char_at(
                    *self,
                    row * BYTES_PER_ROW + k,
                ),
    {
        let start: usize = row * BYTES_PER_ROW;
        let mut cells: Vec<CharCell> = Vec::new();
        while cells.len() < BYTES_PER_ROW
            invariant
                self.wf(),
                start == row * BYTES_PER_ROW,
                start + BYTES_PER_ROW <= SNAPSHOT_SIZE,
                cells@.len() <= BYTES_PER_ROW,
                forall|k: int|
                    0 <= k < cells@.len() ==> #[trigger] cells@[k] == char_at(
                        *self,
                        row * BYTES_PER_ROW + k,
                    ),
            decreases BYTES_PER_ROW - cells@.len(),
        {
            let pos: usize = start + cells.len();
            let b: u8 = self.buf[pos];
            let ch = if 0x20 <= b && b <= 0x7e {
                b as char
            } else {
                '.'
            };
            let run = find_run(&self.string_runs, pos);
            let tone = if pos >= self.bytes_read {
                CharTone::Missing
            } else {
                match run {
                    Some(i) => match self.string_runs[i].kind {
                        StrKind::Ascii => CharTone::Ascii,
                        StrKind::Utf16Le => CharTone::Utf16,
                    },
                    None => CharTone::Plain,
                }
            };
            let starts = match run {
                Some(i) => if self.string_runs[i].offset == pos {
                    Some(i)
                } else {
                    None
                },
                None => None,
            };
            cells.push(CharCell { ch, tone, starts });
        }
        cells
    }

    /// The address of a row.
    pub fn row_address(&self, row: usize) -> (s: String)
        requires
            row < SNAPSHOT_SIZE / BYTES_PER_ROW,
        ensures
            s@ == address_text(
                self.address.wrapping_add((row * BYTES_PER_ROW) as usize) as nat,
            ),
    {
        address_text_exec(self.address.wrapping_add(row * BYTES_PER_ROW) as u64)
    }
}

/// What is said of a run when it is pointed at.
pub fn run_hint(r: &StringRun) -> (s: String)
    ensures
        s@ == match r.kind {
            StrKind::Ascii => "Ascii"@,
            StrKind::Utf16Le => "Utf16Le"@,
        } + ": \""@ + r.text@ + "\""@,
{
    let mut s = match r.kind {
        StrKind::Ascii => "Ascii".to_string(),
        StrKind::Utf16Le => "Utf16Le".to_string(),
    };
    s.append(": \"");
    s.append(r.text.as_str());
    s.append("\"");
    s
}

/// "Back" undoes going somewhere: it leads to the address that was left, with
/// the history as it was, unless that was full.
pub proof fn back_returns(pre: MemoryViewer, there: MemoryViewer, back: MemoryViewer, addr: usize)
    requires
        addr != pre.address,
        went_to(pre, there, addr),
        went_back(there, back),
    ensures
        back.address == pre.address,
        pre.history@.len() < HISTORY_CAP ==> back.history@ == pre.history@,
{
    if pre.history@.len() < HISTORY_CAP {
        assert(back.history@ =~= pre.history@);
    }
}

/// Nothing is marked as changed right after two snapshots that read the same.
pub proof fn same_snapshots_show_no_change(v: MemoryViewer, off: int, unit: nat)
    requires
        v.buf@ == v.prev_buf@,
    ensures
        !unit_changed(v, off, unit),
{
}

/// The cells are those of the row number `row`.
pub open spec fn is_hex_row(v: MemoryViewer, row: int, cells: Seq<HexCell>) -> bool {
    &&& cells.len() * v.display_type.unit() == BYTES_PER_ROW
    &&& forall|k: int|
        0 <= k < cells.len() ==> #[trigger] cells[k] == cell_at(
            v,
            row * BYTES_PER_ROW + k * v.display_type.unit(),
        )
}

/// The bytes that a value was read from, the lowest first.
pub open spec fn value_bytes(value: CellValue) -> Seq<u8> {
    match value {
        CellValue::Byte(b) => seq![b],
        CellValue::Word(w) => le_bytes(w as int, 2),
        CellValue::Dword(d) => le_bytes(d as int, 4),
        CellValue::Qword(q, _) => le_bytes(q as int, 8),
        CellValue::Single(s) => le_bytes(s as int, 4),
        CellValue::Double(d) => le_bytes(d as int, 8),
    }
}

/// The bytes of some cells, one behind the other.
pub open spec fn cells_bytes(cells: Seq<HexCell>) -> Seq<u8>
    decreases cells.len(),
{
    if cells.len() == 0 {
        Seq::empty()
    } else {
        cells_bytes(cells.drop_last()) + value_bytes(cells.last().value)
    }
}

proof fn lemma_cell_bytes(v: MemoryViewer, off: int)
    requires
        v.wf(),
        0 <= off,
        off + v.display_type.unit() <= SNAPSHOT_SIZE,
    ensures
        value_bytes(cell_value(v, off)) == v.buf@.subrange(off, off + v.display_type.unit()),
{
    let b = v.buf@.subrange(off, off + v.display_type.unit());
    lemma_pow256_small();
    lemma_le_value_bound(b);
    lemma_le_write_back(b);
    assert(v.display_type == DisplayType::Bytes ==> seq![v.buf@[off]] =~= b);
}

proof fn lemma_cells_bytes(v: MemoryViewer, start: int, cells: Seq<HexCell>)
    requires
        v.wf(),
        0 <= start,
        start + cells.len() * v.display_type.unit() <= SNAPSHOT_SIZE,
        forall|k: int|
            0 <= k < cells.len() ==> #[trigger] cells[k] == cell_at(
                v,
                start + k * v.display_type.unit(),
            ),
    ensures
        cells_bytes(cells) == v.buf@.subrange(
            start,
            start + cells.len() * v.display_type.unit(),
        ),
    decreases cells.len(),
{
    let unit = v.display_type.unit() as int;
    if cells.len() > 0 {
        let rest = cells.drop_last();
        let n = rest.len() as int;
        assert((n + 1) * unit == n * unit + unit) by (nonlinear_arith);
        assert(0 <= n * unit) by (nonlinear_arith)
            requires
                n >= 0,
                unit >= 0,
        ;
        assert forall|k: int| 0 <= k < rest.len() implies #[trigger] rest[k] == cell_at(
            v,
            start + k * unit,
        ) by {
            assert(rest[k] == cells[k]);
        }
        lemma_cells_bytes(v, start, rest);
        assert(cells[n] == cell_at(v, start + n * unit));
        lemma_cell_bytes(v, start + n * unit);
        assert(v.buf@.subrange(start, start + n * unit) + v.buf@.subrange(
            start + n * unit,
            start + n * unit + unit,
        ) =~= v.buf@.subrange(start, start + n * unit + unit));
    } else {
        assert(0 * unit == 0) by (nonlinear_arith);
        assert(cells_bytes(cells) =~= v.buf@.subrange(start, start));
    }
}

/// A row shows its bytes, all of them and in order, whatever they are shown as.
pub proof fn hex_row_shows_its_bytes(v: MemoryViewer, row: int, cells: Seq<HexCell>)
    requires
        v.wf(),
        0 <= row < SNAPSHOT_SIZE / BYTES_PER_ROW,
        is_hex_row(v, row, cells),
    ensures
        cells_bytes(cells) == v.buf@.subrange(16 * row, 16 * row + 16),
{
    lemma_cells_bytes(v, row * BYTES_PER_ROW, cells);
}

/// A cell is marked as changed only where a byte under it is not as it was before,
/// and a cell that is not of eight bytes always is then. A click leads where the cell
/// points: to the number in it, and only where that was found to be a pointer.
pub proof fn cell_marks_are_true(v: MemoryViewer, off: int)
    requires
        v.wf(),
        0 <= off,
        off + v.display_type.unit() <= v.bytes_read,
    ensures
        ({
            let c = cell_at(v, off);
            let same = v.prev_buf@.subrange(off, off + v.display_type.unit()) == v.buf@.subrange(
                off,
                off + v.display_type.unit(),
            );
            &&& c.tone == CellTone::Changed ==> !same
            &&& v.display_type != DisplayType::Qword ==> (c.tone == CellTone::Plain) == same
            &&& c.link matches Some(a) ==> v.display_type == DisplayType::Qword && value_bytes(
                c.value,
            ) == v.buf@.subrange(off, off + 8) && (c.value matches CellValue::Qword(q, class) && a
                == q as usize && (class matches Some(k) && (k == PointerClass::DataPtr || k
                == PointerClass::CodePtr || k is VTablePtr)))
        }),
{
    let unit = v.display_type.unit() as int;
    let was = v.prev_buf@.subrange(off, off + unit);
    let now = v.buf@.subrange(off, off + unit);
    lemma_cell_bytes(v, off);
    if unit_changed(v, off, unit as nat) {
        let i = choose|i: int| off <= i < off + unit && #[trigger] byte_changed(v, i);
        assert(was[i - off] != now[i - off]);
    } else {
        assert forall|i: int| 0 <= i < unit implies was[i] == now[i] by {
            assert(!byte_changed(v, off + i));
        }
        assert(was =~= now);
    }
}

/// What a cell shows is its number in hex: read as a hex number it is the number
/// again, in two digits for each byte.
pub proof fn cell_text_is_its_number(value: CellValue, real_text: Seq<char>)
    requires
        value is Byte || value is Word || value is Dword,
    ensures
        ({
            let n = le_value(value_bytes(value));
            let t = cell_text(value, real_text);
            &&& t.len() == 2 * value_bytes(value).len()
            &&& parse_int_spec(t, 16, 0, 0xffff_ffff) == Ok::<int, IntError>(n as int)
        }),
{
    lemma_pow256_small();
    let (n, w): (nat, nat) = match value {
        CellValue::Byte(b) => (b as nat, 1),
        CellValue::Word(x) => (x as nat, 2),
        CellValue::Dword(d) => (d as nat, 4),
        _ => (0, 0),
    };
    lemma_le_bytes_len(n as int, w);
    lemma_le_round_trip(n as int, w);
    vstd::arithmetic::div_mod::lemma_small_mod(n, pow256(w));
    lemma_padded_round_trip(n, 2 * w, 16, true, 0xffff_ffff);
    reveal_with_fuel(vstd::arithmetic::power::pow, 9);
    lemma_hex_len(n, 2 * w);
    if let CellValue::Byte(b) = value {
        assert(le_bytes(n as int / 256, 0) =~= Seq::<u8>::empty());
        assert(le_bytes(n as int, 1) =~= seq![b]);
    }
}

proof fn lemma_run_at(runs: Seq<StringRun>, pos: int)
    ensures
        match run_at(runs, pos) {
            Some(i) => 0 <= i < runs.len() && runs[i].offset <= pos < runs[i].offset
                + runs[i].len_bytes,
            None => forall|i: int|
                0 <= i < runs.len() ==> !((#[trigger] runs[i]).offset <= pos < runs[i].offset
                    + runs[i].len_bytes),
        },
    decreases runs.len(),
{
    if runs.len() > 0 {
        let rest = runs.drop_last();
        lemma_run_at(rest, pos);
        assert forall|i: int| 0 <= i < rest.len() implies (#[trigger] runs[i]) == rest[i] by {}
    }
}

/// The text column shows each printable byte as itself and all others as a dot, marks
/// what could not be read, and colours just the bytes that lie in a string.
pub proof fn text_column_is_true(v: MemoryViewer, pos: int)
    requires
        v.wf(),
        0 <= pos < SNAPSHOT_SIZE,
    ensures
        0x20 <= v.buf@[pos] <= 0x7e ==> char_at(v, pos).ch as int == v.buf@[pos],
        !(0x20 <= v.buf@[pos] <= 0x7e) ==> char_at(v, pos).ch == '.',
        char_at(v, pos).tone == CharTone::Missing <==> pos >= v.bytes_read,
        pos < v.bytes_read ==> (char_at(v, pos).tone == CharTone::Plain <==> forall|i: int|
            0 <= i < v.string_runs@.len() ==> !((#[trigger] v.string_runs@[i]).offset <= pos
                < v.string_runs@[i].offset + v.string_runs@[i].len_bytes)),
        char_at(v, pos).starts matches Some(i) ==> i < usize::MAX ==> v.string_runs@.len()
            <= usize::MAX ==> v.string_runs@[i as int].offset == pos,
{
    lemma_run_at(v.string_runs@, pos);
}

} // verus!

//! What a call from a script answers, and what it asks of the target on the way.
use vstd::prelude::*;

use crate::host_error::HostError;
use crate::process_reader::ModuleInfo;
use crate::scan_value::{NumValue, ScanValueType};

verus! {

/// Bytes to be written at an address.
#[derive(Debug)]
pub struct MemWrite {
    pub addr: usize,
    pub bytes: Vec<u8>,
}

/// What a write puts where.
pub struct WriteView {
    pub addr: usize,
    pub bytes: Seq<u8>,
}

impl View for MemWrite {
    type V = WriteView;

    open spec fn view(&self) -> WriteView {
        WriteView { addr: self.addr, bytes: self.bytes@ }
    }
}

/// What a list of writes puts where.
pub open spec fn writes_view(w: Seq<MemWrite>) -> Seq<WriteView> {
    Seq::new(w.len(), |i: int| w[i]@)
}

/// A field of a layout: its name, its type, how many bytes it takes and where it
/// starts.
#[derive(Debug)]
pub struct FieldSpec {
    pub name: String,
    pub vt: ScanValueType,
    pub width: usize,
    pub off: usize,
}

/// How a number that was read is answered.
#[derive(Clone, Copy, Debug, PartialEq, Eq, Structural)]
pub enum NumberForm {
    /// In its own type.
    Plain,
    /// As a floating-point number.
    Real,
    /// In decimal, as a text.
    Decimal,
}

/// A mapping of the target.
#[derive(Debug)]
pub struct MapRegion {
    pub start: usize,
    pub size: usize,
    pub end: usize,
    pub perms: String,
}

/// What is said of a mapping.
pub struct RegionView {
    pub start: usize,
    pub size: usize,
    pub end: usize,
    pub perms: Seq<char>,
}

impl View for MapRegion {
    type V = RegionView;

    open spec fn view(&self) -> RegionView {
        RegionView { start: self.start, size: self.size, end: self.end, perms: self.perms@ }
    }
}

/// An instruction as it is answered.
#[derive(Debug)]
pub struct InsnReply {
    pub address: u64,
    pub bytes: String,
    pub text: String,
    pub target: Option<u64>,
}

/// A class as it is listed.
#[derive(Debug)]
pub struct ClassReply {
    pub id: String,
    pub name: String,
    pub size: usize,
    pub formula: String,
}

/// A node as it is listed.
#[derive(Debug)]
pub struct NodeReply {
    pub tag: String,
    pub name: String,
    pub comment: String,
}

/// An entry of the cheat table as it is listed.
#[derive(Debug)]
pub struct EntryReply {
    pub index: usize,
    pub description: String,
    pub address: String,
    pub value_type: String,
    pub frozen: bool,
}

/// An enum as it is listed.
#[derive(Debug)]
pub struct EnumReply {
    pub name: String,
    pub size: u8,
    pub use_flags: bool,
    pub values: Vec<(String, i64)>,
}

/// A pointer path: where it starts, the offsets behind each step, and the module
/// that its formula names.
#[derive(Debug)]
pub struct PathReply {
    pub module: String,
    pub module_base: usize,
    pub base: usize,
    pub offsets: Vec<isize>,
}

/// A hit of a scan with what it holds and what it held.
#[derive(Clone, Copy, Debug, PartialEq, Eq, Structural)]
pub struct HitReply {
    pub address: usize,
    pub value: NumValue,
    pub previous: NumValue,
}

/// What a call answers.
#[derive(Debug)]
pub enum Reply {
    Null,
    Bool(bool),
    Bytes(Vec<u8>),
    /// A number in its own type.
    Plain(NumValue),
    /// A number as a floating-point number.
    Real(NumValue),
    /// Numbers as floating-point numbers.
    Reals(Vec<NumValue>),
    Text(String),
    /// A count, as a floating-point number.
    Count(usize),
    /// An index or id.
    Index(usize),
    Pid(u32),
    HotkeyId(u32),
    Address(usize),
    Addresses(Vec<usize>),
    Record(Vec<(String, NumValue)>),
    Records(Vec<Vec<(String, NumValue)>>),
    Modules(Vec<ModuleInfo>),
    Module(ModuleInfo),
    Regions(Vec<MapRegion>),
    Region(MapRegion),
    Symbols(Vec<(String, usize)>),
    Classes(Vec<ClassReply>),
    Class { id: String, name: String, formula: String, nodes: Vec<NodeReply> },
    Instructions(Vec<InsnReply>),
    Entries(Vec<EntryReply>),
    Enums(Vec<EnumReply>),
    Enum(EnumReply),
    Paths(Vec<PathReply>),
    /// Which of the given paths are kept, by their numbers.
    Kept(Vec<usize>),
    Hits(Vec<HitReply>),
}

/// What a call asks of the target before it can answer.
#[derive(Debug)]
pub enum HostOp {
    ReadBytes { addr: usize, len: usize },
    /// Make the writes in order; then the call is over.
    Write { writes: Vec<MemWrite>, then: Result<Reply, HostError> },
    ReadValues { addr: usize, vt: ScanValueType, width: usize, total: usize },
    /// Read the displacement of an instruction, then answer what it points at.
    ReadRip { at: usize, insn: usize, instr_len: usize },
    /// Read the fields in order; then the call is over, with the error if there
    /// is one.
    ReadFields { addr: usize, fields: Vec<FieldSpec>, error: Option<HostError> },
    ReadArray { addr: usize, total: usize, stride: usize, fields: Vec<FieldSpec> },
    ReadNumber { addr: usize, vt: ScanValueType, form: NumberForm },
    ReadPointer { addr: usize },
    ReadText { addr: usize, max: usize },
    /// Read the next unit of a text of 16-bit units.
    ReadUnit { at: usize, addr: usize, max: usize, units: Vec<u16> },
    /// Read the next pointer of a chain.
    ReadLink { at: usize, offsets: Vec<i64>, next: usize },
    IsMapped { addr: usize, pid: u32 },
    ReadMaps { pid: u32, at: Option<usize> },
    ResolveSymbol { addr: usize },
    Exports { base: usize },
    ResolveExport { base: usize, name: String },
    /// Scan a module's image for a pattern.
    PatternScan { base: usize, size: usize, pattern: String },
    /// Scan for a pattern, then follow the displacement of the first hit.
    PatternRip {
        base: usize,
        size: usize,
        pattern: String,
        disp_off: usize,
        instr_len: usize,
        deref: bool,
    },
    /// Scan a module's image for a value.
    ValueScan { base: usize, size: usize, vt: ScanValueType, value: String },
    /// Scan a range for a value.
    RangeScan { start: usize, size: usize, ty: String, value: String },
    PointerScan {
        goal: usize,
        max_depth: usize,
        max_offset: usize,
        /// The name of a class that is made of the first path.
        class: Option<Option<String>>,
    },
    Rescan { paths: Vec<Option<PathStart>>, goal: usize },
    MakeSignature { base: usize, size: usize, off: usize, min_len: usize, max_len: usize },
    /// Parse the value that is scanned for, then run the first scan.
    FirstScan { vt: ScanValueType, compare: usize, value: Option<String> },
    NextScan { compare: usize, value: Option<String> },
    /// Read what the hits hold.
    ReadHits { vt: ScanValueType, addresses: Vec<usize> },
    /// Check a formula, then set it.
    CheckFormula { key: String, formula: String },
    ResolveFormula { formula: String },
    /// Resolve the class's base and dissect so many bytes there.
    Dissect { class: u128, formula: String, size: usize },
    Disassemble { addr: u64, bytes: usize, count: usize },
    /// Disassemble the function at an address, so many bytes of it at most.
    DisassembleFunction { addr: u64, max: usize },
    Decode { bytes: Vec<u8>, base: u64 },
    /// Find the code of a module that refers to an address.
    CodeRefs { pid: u32, base: usize, size: usize, target: u64 },
}

/// Where a pointer path starts and its offsets.
#[derive(Debug)]
pub struct PathStart {
    pub base: usize,
    pub offsets: Vec<isize>,
}

/// Where a call stands: answered, or waiting for the target.
#[derive(Debug)]
pub enum HostStep {
    Done(Result<Reply, HostError>),
    Ask(HostOp),
}

/// The call is over with an error.
pub open spec fn failed(step: HostStep, e: HostError) -> bool {
    step == HostStep::Done(Err(e))
}

} // verus!

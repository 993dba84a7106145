//! Why a call from a script failed, and how that is said.
use vstd::prelude::*;
use vstd::string::StringExecFns;

use crate::json::ArgError;
use crate::text::{
    decimal, decimal_exec, hex_lower, hex_lower_exec, prefixed_hex, prefixed_hex_exec, string_of,
};

verus! {

/// The most bytes that one call may read.
pub const MAX_SCRIPT_READ: usize = 67108864;

/// The text that `Debug` writes for a string: in quotes, with escapes.
pub uninterp spec fn quoted_text(s: Seq<char>) -> Seq<char>;

/// Calls `Debug` of `str` through `format!`. The result is a function of the
/// string alone; what it escapes is left unsaid.
#[verifier::external_body]
pub(crate) fn quoted(s: &str) -> (q: String)
    ensures
        q@ == quoted_text(s@),
{
    format!("{s:?}")
}

/// What was being done when the target refused.
#[derive(Clone, Copy, Debug, PartialEq, Eq, Structural)]
pub enum Stage {
    Read,
    Write,
    ChainRead,
    Regions,
    Resolve,
    ReadRelative,
    Deref,
    Modules,
    EnumerateModules,
    ResolveBase,
    MakeNode,
    ExecRegions,
    Exports,
    Attach,
    PointerScan,
    Disassemble,
    FirstScan,
    NextScan,
    Needle,
}

impl Stage {
    pub open spec fn text(self) -> Seq<char> {
        match self {
            Stage::Read => "read: "@,
            Stage::Write => "write: "@,
            Stage::ChainRead => "chain read: "@,
            Stage::Regions => "regions: "@,
            Stage::Resolve => "resolve: "@,
            Stage::ReadRelative => "read rel32: "@,
            Stage::Deref => "deref: "@,
            Stage::Modules => "modules: "@,
            Stage::EnumerateModules => "enumerate modules: "@,
            Stage::ResolveBase => "resolve base: "@,
            Stage::MakeNode => "node: "@,
            Stage::ExecRegions => "exec regions: "@,
            Stage::Exports => "exports: "@,
            Stage::Attach => "ProcessTarget: "@,
            Stage::PointerScan => "pointer_scan: "@,
            Stage::Disassemble => "disasm: "@,
            Stage::FirstScan => "scan.first: "@,
            Stage::NextScan => "scan.next: "@,
            Stage::Needle => "bad value: "@,
        }
    }

    fn label(self) -> (s: &'static str)
        ensures
            s@ == self.text(),
    {
        match self {
            Stage::Read => "read: ",
            Stage::Write => "write: ",
            Stage::ChainRead => "chain read: ",
            Stage::Regions => "regions: ",
            Stage::Resolve => "resolve: ",
            Stage::ReadRelative => "read rel32: ",
            Stage::Deref => "deref: ",
            Stage::Modules => "modules: ",
            Stage::EnumerateModules => "enumerate modules: ",
            Stage::ResolveBase => "resolve base: ",
            Stage::MakeNode => "node: ",
            Stage::ExecRegions => "exec regions: ",
            Stage::Exports => "exports: ",
            Stage::Attach => "ProcessTarget: ",
            Stage::PointerScan => "pointer_scan: ",
            Stage::Disassemble => "disasm: ",
            Stage::FirstScan => "scan.first: ",
            Stage::NextScan => "scan.next: ",
            Stage::Needle => "bad value: ",
        }
    }
}

/// What was wrong with a call, where no value has to be named.
#[derive(Clone, Copy, Debug, PartialEq, Eq, Structural)]
pub enum Misuse {
    WriteBytesNeedsArray,
    ReadValuesOverflow,
    WriteValuesNeedsArray,
    ReadStructLayout,
    ReadStructName,
    ReadStructType,
    ReadArrayLayout,
    FieldName,
    FieldType,
    StrideZero,
    ReadArrayOverflow,
    WriteStructLayout,
    WriteStructValues,
    WriteStructName,
    WriteStructType,
    ChainNeedsArray,
    NoModules,
    NoAnchor,
    PathNeedsArray,
    PathsNeedArray,
    DecodeNeedsArray,
    TableAddNeedsObject,
    EnumValuesNeedObject,
    NextWithoutSession,
    ResultsWithoutSession,
    ValuesWithoutSession,
    NotAttached,
}

impl Misuse {
    pub open spec fn text(self) -> Seq<char> {
        match self {
            Misuse::WriteBytesNeedsArray => "writeBytes: expected byte array"@,
            Misuse::ReadValuesOverflow => "readValues: size overflow"@,
            Misuse::WriteValuesNeedsArray => "writeValues: expected an array"@,
            Misuse::ReadStructLayout => "readStruct: layout must be an array"@,
            Misuse::ReadStructName => "readStruct: field needs a name"@,
            Misuse::ReadStructType => "readStruct: field needs a type"@,
            Misuse::ReadArrayLayout => "readStructArray: layout must be an array"@,
            Misuse::FieldName => "field needs a name"@,
            Misuse::FieldType => "field needs a type"@,
            Misuse::StrideZero => "readStructArray: struct stride is 0"@,
            Misuse::ReadArrayOverflow => "readStructArray: size overflow"@,
            Misuse::WriteStructLayout => "writeStruct: layout must be an array"@,
            Misuse::WriteStructValues => "writeStruct: values must be an object"@,
            Misuse::WriteStructName => "writeStruct: field needs a name"@,
            Misuse::WriteStructType => "writeStruct: field needs a type"@,
            Misuse::ChainNeedsArray => "readChain: expected offsets array"@,
            Misuse::NoModules => "no modules"@,
            Misuse::NoAnchor => "no modules to anchor pointer scan"@,
            Misuse::PathNeedsArray => "path must be an array"@,
            Misuse::PathsNeedArray => "paths must be an array"@,
            Misuse::DecodeNeedsArray => "decodeBytes: expected a byte array"@,
            Misuse::TableAddNeedsObject => "table.add: expected object argument"@,
            Misuse::EnumValuesNeedObject => "enums.define: `values` must be an object"@,
            Misuse::NextWithoutSession =>
                "scan.next: no active scan session — call scan.first first"@,
            Misuse::ResultsWithoutSession => "scan.results: no active scan session"@,
            Misuse::ValuesWithoutSession => "scan.resultsWithValues: no active scan session"@,
            Misuse::NotAttached => "not attached"@,
        }
    }

    fn label(self) -> (s: &'static str)
        ensures
            s@ == self.text(),
    {
        match self {
            Misuse::WriteBytesNeedsArray => "writeBytes: expected byte array",
            Misuse::ReadValuesOverflow => "readValues: size overflow",
            Misuse::WriteValuesNeedsArray => "writeValues: expected an array",
            Misuse::ReadStructLayout => "readStruct: layout must be an array",
            Misuse::ReadStructName => "readStruct: field needs a name",
            Misuse::ReadStructType => "readStruct: field needs a type",
            Misuse::ReadArrayLayout => "readStructArray: layout must be an array",
            Misuse::FieldName => "field needs a name",
            Misuse::FieldType => "field needs a type",
            Misuse::StrideZero => "readStructArray: struct stride is 0",
            Misuse::ReadArrayOverflow => "readStructArray: size overflow",
            Misuse::WriteStructLayout => "writeStruct: layout must be an array",
            Misuse::WriteStructValues => "writeStruct: values must be an object",
            Misuse::WriteStructName => "writeStruct: field needs a name",
            Misuse::WriteStructType => "writeStruct: field needs a type",
            Misuse::ChainNeedsArray => "readChain: expected offsets array",
            Misuse::NoModules => "no modules",
            Misuse::NoAnchor => "no modules to anchor pointer scan",
            Misuse::PathNeedsArray => "path must be an array",
            Misuse::PathsNeedArray => "paths must be an array",
            Misuse::DecodeNeedsArray => "decodeBytes: expected a byte array",
            Misuse::TableAddNeedsObject => "table.add: expected object argument",
            Misuse::EnumValuesNeedObject => "enums.define: `values` must be an object",
            Misuse::NextWithoutSession =>
                "scan.next: no active scan session — call scan.first first",
            Misuse::ResultsWithoutSession => "scan.results: no active scan session",
            Misuse::ValuesWithoutSession => "scan.resultsWithValues: no active scan session",
            Misuse::NotAttached => "not attached",
        }
    }
}

/// Why a call failed.
#[derive(Debug)]
pub enum HostError {
    Arg(ArgError),
    Misuse(Misuse),
    /// The target refused; the text says why.
    Failed(Stage, String),
    UnknownMethod(String),
    ReadTooLong(usize),
    ValuesTooLong(usize),
    ArrayTooLong(usize),
    RangeTooLong(usize),
    UnknownType(String),
    NoFixedWidth(String),
    UnsupportedType(String),
    FreezeUnknownType(String),
    /// A value that does not parse, and the type.
    FreezeBadValue(String, String),
    ModuleNotFound(String),
    NotInAModule(u64),
    UnknownScanType(String),
    /// A formula, and what is wrong with it.
    BadFormula(String, String),
    UnknownNode(String),
    OffsetTaken(usize),
    ClassNotFound(String),
    EnumValueNotInteger(String),
    EnumBadSize(u64),
    BadCombo(String),
    FirstUnknownType(String),
    FirstUnknownCompare(String),
    /// A comparison that needs an earlier scan.
    FirstNeedsPrevious(String),
    NextUnknownCompare(String),
    NextIsBaseline(String),
    /// A comparison that needs a value.
    NeedsValue(String),
    /// A value, the tag of its type, and what is wrong with it.
    BadNeedle(String, String, String),
}

/// How a refused argument is reported.
pub open spec fn arg_error_text(e: ArgError) -> Seq<char> {
    match e {
        ArgError::NotAList => "args must be an array"@,
        ArgError::Missing(i) => "missing argument #"@ + decimal(i as nat),
        ArgError::NegativeAddress => "negative address"@,
        ArgError::BadNumericAddress => "bad numeric address"@,
        ArgError::BadAddressText(s) => "bad address string: "@ + quoted_text(s@),
        ArgError::NotAnAddress(v) => "expected an address, got "@ + v@,
        ArgError::NotANumber(v) => "expected a number, got "@ + v@,
        ArgError::BadInteger => "bad integer"@,
        ArgError::BadIntText(s) => "bad int: "@ + quoted_text(s@),
        ArgError::NotAnInteger(v) => "expected an integer, got "@ + v@,
        ArgError::BadUnsigned => "bad unsigned"@,
        ArgError::BadUnsignedText(s) => "bad u64: "@ + quoted_text(s@),
        ArgError::NotUnsigned(v) => "expected an unsigned integer, got "@ + v@,
    }
}

fn with_text(head: &str, tail: &str) -> (s: String)
    ensures
        s@ == head@ + tail@,
{
    let mut s = head.to_string();
    s.append(tail);
    s
}

fn with_quoted(head: &str, tail: &str) -> (s: String)
    ensures
        s@ == head@ + quoted_text(tail@),
{
    let q = quoted(tail);
    with_text(head, q.as_str())
}

fn with_number(head: &str, n: u64) -> (s: String)
    ensures
        s@ == head@ + decimal(n as nat),
{
    let d = string_of(decimal_exec(n).as_slice());
    with_text(head, d.as_str())
}

fn with_cap(head: &str, n: u64, tail: &str) -> (s: String)
    ensures
        s@ == head@ + decimal(n as nat) + " exceeds cap of "@ + decimal(MAX_SCRIPT_READ as nat)
            + tail@,
{
    let mut s = with_number(head, n);
    s.append(" exceeds cap of ");
    let d = string_of(decimal_exec(MAX_SCRIPT_READ as u64).as_slice());
    s.append(d.as_str());
    s.append(tail);
    s
}

pub fn arg_error_message(e: &ArgError) -> (m: String)
    ensures
        m@ == arg_error_text(*e),
{
    match e {
        ArgError::NotAList => "args must be an array".to_string(),
        ArgError::Missing(i) => with_number("missing argument #", *i as u64),
        ArgError::NegativeAddress => "negative address".to_string(),
        ArgError::BadNumericAddress => "bad numeric address".to_string(),
        ArgError::BadAddressText(s) => with_quoted("bad address string: ", s.as_str()),
        ArgError::NotAnAddress(v) => with_text("expected an address, got ", v.as_str()),
        ArgError::NotANumber(v) => with_text("expected a number, got ", v.as_str()),
        ArgError::BadInteger => "bad integer".to_string(),
        ArgError::BadIntText(s) => with_quoted("bad int: ", s.as_str()),
        ArgError::NotAnInteger(v) => with_text("expected an integer, got ", v.as_str()),
        ArgError::BadUnsigned => "bad unsigned".to_string(),
        ArgError::BadUnsignedText(s) => with_quoted("bad u64: ", s.as_str()),
        ArgError::NotUnsigned(v) => with_text("expected an unsigned integer, got ", v.as_str()),
    }
}

impl HostError {
    /// How the error is reported to the script.
    pub open spec fn text(self) -> Seq<char> {
        match self {
            HostError::Arg(e) => arg_error_text(e),
            HostError::Misuse(m) => m.text(),
            HostError::Failed(stage, why) => stage.text() + why@,
            HostError::UnknownMethod(m) => "unknown host method: "@ + m@,
            HostError::ReadTooLong(n) => "readBytes length "@ + decimal(n as nat)
                + " exceeds cap of "@ + decimal(MAX_SCRIPT_READ as nat) + " bytes"@,
            HostError::ValuesTooLong(n) => "readValues span "@ + decimal(n as nat)
                + " exceeds cap of "@ + decimal(MAX_SCRIPT_READ as nat) + ""@,
            HostError::ArrayTooLong(n) => "readStructArray span "@ + decimal(n as nat)
                + " exceeds cap"@,
            HostError::RangeTooLong(n) => "scan.range size "@ + decimal(n as nat)
                + " exceeds cap of "@ + decimal(MAX_SCRIPT_READ as nat) + ""@,
            HostError::UnknownType(t) => "unknown type: "@ + t@,
            HostError::UnsupportedType(t) => "writeValues: unsupported type "@ + t@,
            HostError::NoFixedWidth(t) => "type "@ + t@ + " has no fixed width"@,
            HostError::FreezeUnknownType(t) => "mem.freeze: unknown type "@ + quoted_text(t@),
            HostError::FreezeBadValue(v, t) => "mem.freeze: value "@ + quoted_text(v@)
                + " not valid for type "@ + t@,
            HostError::ModuleNotFound(n) => "module not found: "@ + n@,
            HostError::NotInAModule(a) => "0x"@ + hex_lower(a as nat) + " is not inside any module"@,
            HostError::UnknownScanType(t) => "unknown scan type: "@ + t@,
            HostError::BadFormula(f, e) => "invalid address formula "@ + quoted_text(f@) + ": "@
                + e@,
            HostError::UnknownNode(t) => "unknown node type: "@ + t@,
            HostError::OffsetTaken(o) => "offset "@ + prefixed_hex(o as nat)
                + " falls inside an existing field"@,
            HostError::ClassNotFound(k) => "class not found: "@ + k@,
            HostError::EnumValueNotInteger(k) => "enums.define: value for "@ + quoted_text(k@)
                + " must be an integer"@,
            HostError::EnumBadSize(s) => "enums.define: size must be 1/2/4/8, got "@ + decimal(
                s as nat,
            ),
            HostError::BadCombo(c) => "hotkeys.register: bad combo "@ + quoted_text(c@),
            HostError::FirstUnknownType(t) => "scan.first: unknown type "@ + quoted_text(t@),
            HostError::FirstUnknownCompare(t) => "scan.first: unknown compare "@ + quoted_text(t@),
            HostError::FirstNeedsPrevious(c) => "scan.first: compare "@ + c@
                + " needs a previous scan; use it in scan.next"@,
            HostError::NextUnknownCompare(t) => "scan.next: unknown compare "@ + quoted_text(t@),
            HostError::NextIsBaseline(t) => "scan.next: "@ + quoted_text(t@)
                + " is a first-scan baseline — pass it to scan.first, then narrow with \"changed\"/\"increased\"/\"decreased\" or a value"@,
            HostError::NeedsValue(c) => "compare "@ + c@ + " needs a value"@,
            HostError::BadNeedle(v, t, e) => "bad value "@ + quoted_text(v@) + " for type "@ + t@
                + ": "@ + e@,
        }
    }

    pub fn message(&self) -> (m: String)
        ensures
            m@ == self.text(),
    {
        match self {
            HostError::Arg(e) => arg_error_message(e),
            HostError::Misuse(m) => m.label().to_string(),
            HostError::Failed(stage, why) => with_text(stage.label(), why.as_str()),
            HostError::UnknownMethod(m) => with_text("unknown host method: ", m.as_str()),
            HostError::ReadTooLong(n) => with_cap("readBytes length ", *n as u64, " bytes"),
            HostError::ValuesTooLong(n) => with_cap("readValues span ", *n as u64, ""),
            HostError::ArrayTooLong(n) => {
                let mut s = with_number("readStructArray span ", *n as u64);
                s.append(" exceeds cap");
                s
            },
            HostError::RangeTooLong(n) => with_cap("scan.range size ", *n as u64, ""),
            HostError::UnknownType(t) => with_text("unknown type: ", t.as_str()),
            HostError::UnsupportedType(t) => with_text(
                "writeValues: unsupported type ",
                t.as_str(),
            ),
            HostError::NoFixedWidth(t) => {
                let mut s = with_text("type ", t.as_str());
                s.append(" has no fixed width");
                s
            },
            HostError::FreezeUnknownType(t) => with_quoted(
                "mem.freeze: unknown type ",
                t.as_str(),
            ),
            HostError::FreezeBadValue(v, t) => {
                let mut s = with_quoted("mem.freeze: value ", v.as_str());
                s.append(" not valid for type ");
                s.append(t.as_str());
                s
            },
            HostError::ModuleNotFound(n) => with_text("module not found: ", n.as_str()),
            HostError::NotInAModule(a) => {
                let h = string_of(hex_lower_exec(*a).as_slice());
                let mut s = with_text("0x", h.as_str());
                s.append(" is not inside any module");
                s
            },
            HostError::UnknownScanType(t) => with_text("unknown scan type: ", t.as_str()),
            HostError::BadFormula(f, e) => {
                let mut s = with_quoted("invalid address formula ", f.as_str());
                s.append(": ");
                s.append(e.as_str());
                s
            },
            HostError::UnknownNode(t) => with_text("unknown node type: ", t.as_str()),
            HostError::OffsetTaken(o) => {
                let h = prefixed_hex_exec(*o as u64);
                let mut s = with_text("offset ", h.as_str());
                s.append(" falls inside an existing field");
                s
            },
            HostError::ClassNotFound(k) => with_text("class not found: ", k.as_str()),
            HostError::EnumValueNotInteger(k) => {
                let mut s = with_quoted("enums.define: value for ", k.as_str());
                s.append(" must be an integer");
                s
            },
            HostError::EnumBadSize(n) => with_number(
                "enums.define: size must be 1/2/4/8, got ",
                *n,
            ),
            HostError::BadCombo(c) => with_quoted("hotkeys.register: bad combo ", c.as_str()),
            HostError::FirstUnknownType(t) => with_quoted("scan.first: unknown type ", t.as_str()),
            HostError::FirstUnknownCompare(t) => with_quoted(
                "scan.first: unknown compare ",
                t.as_str(),
            ),
            HostError::FirstNeedsPrevious(c) => {
                let mut s = with_text("scan.first: compare ", c.as_str());
                s.append(" needs a previous scan; use it in scan.next");
                s
            },
            HostError::NextUnknownCompare(t) => with_quoted(
                "scan.next: unknown compare ",
                t.as_str(),
            ),
            HostError::NextIsBaseline(t) => {
                let mut s = with_quoted("scan.next: ", t.as_str());
                s.append(
                    " is a first-scan baseline — pass it to scan.first, then narrow with \"changed\"/\"increased\"/\"decreased\" or a value",
                );
                s
            },
            HostError::NeedsValue(c) => {
                let mut s = with_text("compare ", c.as_str());
                s.append(" needs a value");
                s
            },
            HostError::BadNeedle(v, t, e) => {
                let mut s = with_quoted("bad value ", v.as_str());
                s.append(" for type ");
                s.append(t.as_str());
                s.append(": ");
                s.append(e.as_str());
                s
            },
        }
    }
}

} // verus!

//! The modules of the attached process.
use vstd::prelude::*;

use crate::text::{ascii_lower, ascii_lower_exec, chars_of, same_text};

verus! {

/// A module mapped into the attached process.
#[derive(Debug)]
pub struct ModuleInfo {
    pub base: usize,
    pub size: usize,
    pub name: String,
}

impl Clone for ModuleInfo {
    fn clone(&self) -> (r: Self)
        ensures
            r == *self,
    {
        ModuleInfo { base: self.base, size: self.size, name: self.name.clone() }
    }
}

/// Two texts agree but for the case of ASCII letters.
pub open spec fn same_ignoring_case(a: Seq<char>, b: Seq<char>) -> bool {
    ascii_lower(a) == ascii_lower(b)
}

pub fn same_ignoring_case_exec(a: &str, b: &str) -> (r: bool)
    ensures
        r == same_ignoring_case(a@, b@),
{
    let x = chars_of(a);
    let y = chars_of(b);
    let lx = ascii_lower_exec(x.as_slice());
    let ly = ascii_lower_exec(y.as_slice());
    same_text(lx.as_slice(), ly.as_slice())
}

/// The first address behind a module, as far as addresses go.
pub open spec fn module_end(m: ModuleInfo) -> int {
    if m.base + m.size > usize::MAX {
        usize::MAX as int
    } else {
        m.base + m.size
    }
}

/// `addr` lies in the module.
pub open spec fn in_module(m: ModuleInfo, addr: int) -> bool {
    m.base <= addr < module_end(m)
}

/// `i` is the first index of `s` for which `p` holds, or the length of `s`.
pub open spec fn is_first<T>(s: Seq<T>, i: int, p: spec_fn(T) -> bool) -> bool {
    &&& 0 <= i <= s.len()
    &&& i < s.len() ==> p(s[i])
    &&& forall|j: int| 0 <= j < i ==> !p(#[trigger] s[j])
}

/// The index of the first module of the given name, in any case of its letters.
pub fn find_module(modules: &[ModuleInfo], name: &str) -> (r: Option<usize>)
    ensures
        match r {
            Some(i) => i < modules@.len() && is_first(
                modules@,
                i as int,
                |m: ModuleInfo| same_ignoring_case(m.name@, name@),
            ),
            None => forall|j: int|
                0 <= j < modules@.len() ==> !same_ignoring_case(
                    (#[trigger] modules@[j]).name@,
                    name@,
                ),
        },
{
    let mut i: usize = 0;
    while i < modules.len()
        invariant
            i <= modules@.len(),
            forall|j: int|
                0 <= j < i ==> !same_ignoring_case((#[trigger] modules@[j]).name@, name@),
        decreases modules@.len() - i,
    {
        if same_ignoring_case_exec(modules[i].name.as_str(), name) {
            return Some(i);
        }
        i += 1;
    }
    None
}

/// The index of the first module that holds `addr`.
pub fn module_at(modules: &[ModuleInfo], addr: usize) -> (r: Option<usize>)
    ensures
        match r {
            Some(i) => i < modules@.len() && is_first(
                modules@,
                i as int,
                |m: ModuleInfo| in_module(m, addr as int),
            ),
            None => forall|j: int|
                0 <= j < modules@.len() ==> !in_module(#[trigger] modules@[j], addr as int),
        },
{
    let mut i: usize = 0;
    while i < modules.len()
        invariant
            i <= modules@.len(),
            forall|j: int| 0 <= j < i ==> !in_module(#[trigger] modules@[j], addr as int),
        decreases modules@.len() - i,
    {
        let m = &modules[i];
        if addr >= m.base && addr < m.base.saturating_add(m.size) {
            return Some(i);
        }
        i += 1;
    }
    None
}

/// `base` is that of the first module of the given name, in any case of its
/// letters; there is none where no module has it.
pub open spec fn is_module_base(modules: Seq<ModuleInfo>, name: Seq<char>, r: Option<usize>) -> bool {
    match r {
        Some(base) => exists|i: int|
            0 <= i < modules.len() && (#[trigger] modules[i]).base == base && is_first(
                modules,
                i,
                |m: ModuleInfo| same_ignoring_case(m.name@, name),
            ),
        None => forall|j: int|
            0 <= j < modules.len() ==> !same_ignoring_case((#[trigger] modules[j]).name@, name),
    }
}

/// What formulas are resolved with: the modules of the attached process, as they
/// were listed last.
#[derive(Debug)]
pub struct ProcessReader {
    pub modules: Vec<ModuleInfo>,
}

impl ProcessReader {
    pub fn new(modules: Vec<ModuleInfo>) -> (r: Self)
        ensures
            r.modules == modules,
    {
        ProcessReader { modules }
    }

    /// The base address of the first module of the given name, in any case of its
    /// letters.
    pub fn resolve_module(&self, name: &str) -> (r: Option<usize>)
        ensures
            is_module_base(self.modules@, name@, r),
    {
        match find_module(self.modules.as_slice(), name) {
            Some(i) => Some(self.modules[i].base),
            None => None,
        }
    }
}

} // verus!

//! The calls from scripts about the target: its modules and its mappings.
use vstd::prelude::*;
use vstd::slice::slice_subrange;

use crate::address::{split_on, split_on_exec};
use crate::host_error::{HostError, Misuse, Stage};
use crate::host_ops::{HostOp, HostStep, MapRegion, RegionView, Reply};
use crate::json::{
    addr_arg, addr_at, opt_arg, opt_arg_at, opt_text, opt_text_arg, text_arg, text_at, Json,
};
use crate::process_reader::{in_module, same_ignoring_case, same_ignoring_case_exec, ModuleInfo};
use crate::text::{
    chars_of, hex_lower, is_white, is_white_exec, parse_int_spec, parse_unsigned, same_str, skip, string_of,
    trim_start, trim_start_exec, zero_padded,
};

verus! {

/// The attached process: its id, its name, and its modules or why they could not
/// be listed.
#[derive(Debug)]
pub struct Target {
    pub pid: u32,
    pub name: Option<String>,
    pub modules: Result<Vec<ModuleInfo>, String>,
}

/// The id of the attached process.
pub open spec fn pid_of(process: Option<Target>) -> Option<u32> {
    match process {
        Some(t) => Some(t.pid),
        None => None,
    }
}

pub fn pid_of_exec(process: &Option<Target>) -> (r: Option<u32>)
    ensures
        r == pid_of(*process),
{
    match process {
        Some(t) => Some(t.pid),
        None => None,
    }
}

/// The modules of the attached process, or why there are none.
pub open spec fn modules_of(process: Option<Target>) -> Result<Vec<ModuleInfo>, HostError> {
    match process {
        None => Err(HostError::Misuse(Misuse::NotAttached)),
        Some(t) => match t.modules {
            Ok(m) => Ok(m),
            Err(e) => Err(HostError::Failed(Stage::EnumerateModules, e)),
        },
    }
}

pub fn modules_of_exec<'a>(process: &'a Option<Target>) -> (r: Result<
    &'a Vec<ModuleInfo>,
    HostError,
>)
    ensures
        match r {
            Ok(m) => modules_of(*process) == Ok::<Vec<ModuleInfo>, HostError>(*m),
            Err(e) => modules_of(*process) == Err::<Vec<ModuleInfo>, HostError>(e),
        },
{
    match process {
        None => Err(HostError::Misuse(Misuse::NotAttached)),
        Some(t) => match &t.modules {
            Ok(m) => Ok(m),
            Err(e) => Err(HostError::Failed(Stage::EnumerateModules, e.clone())),
        },
    }
}

/// The first module of that name, in any case of its letters.
pub open spec fn module_named(mods: Seq<ModuleInfo>, name: Seq<char>) -> Option<ModuleInfo>
    decreases mods.len(),
{
    if mods.len() == 0 {
        None
    } else if same_ignoring_case(mods[0].name@, name) {
        Some(mods[0])
    } else {
        module_named(mods.subrange(1, mods.len() as int), name)
    }
}

/// The first module that an address lies in.
pub open spec fn module_holding(mods: Seq<ModuleInfo>, addr: int) -> Option<ModuleInfo>
    decreases mods.len(),
{
    if mods.len() == 0 {
        None
    } else if in_module(mods[0], addr) {
        Some(mods[0])
    } else {
        module_holding(mods.subrange(1, mods.len() as int), addr)
    }
}

pub fn module_named_exec(mods: &Vec<ModuleInfo>, name: &str) -> (r: Option<ModuleInfo>)
    ensures
        r == module_named(mods@, name@),
{
    let mut i: usize = 0;
    assert(mods@.subrange(0, mods@.len() as int) =~= mods@);
    while i < mods.len()
        invariant
            i <= mods@.len(),
            module_named(mods@, name@) == module_named(
                mods@.subrange(i as int, mods@.len() as int),
                name@,
            ),
        decreases mods@.len() - i,
    {
        proof {
            let rest = mods@.subrange(i as int, mods@.len() as int);
            assert(rest.subrange(1, rest.len() as int) =~= mods@.subrange(
                i + 1,
                mods@.len() as int,
            ));
        }
        if same_ignoring_case_exec(mods[i].name.as_str(), name) {
            return Some(mods[i].clone());
        }
        i += 1;
    }
    None
}

pub fn module_holding_exec(mods: &Vec<ModuleInfo>, addr: usize) -> (r: Option<ModuleInfo>)
    ensures
        r == module_holding(mods@, addr as int),
{
    let mut i: usize = 0;
    assert(mods@.subrange(0, mods@.len() as int) =~= mods@);
    while i < mods.len()
        invariant
            i <= mods@.len(),
            module_holding(mods@, addr as int) == module_holding(
                mods@.subrange(i as int, mods@.len() as int),
                addr as int,
            ),
        decreases mods@.len() - i,
    {
        proof {
            let rest = mods@.subrange(i as int, mods@.len() as int);
            assert(rest.subrange(1, rest.len() as int) =~= mods@.subrange(
                i + 1,
                mods@.len() as int,
            ));
        }
        let m = &mods[i];
        if addr >= m.base && addr < m.base.saturating_add(m.size) {
            return Some(m.clone());
        }
        i += 1;
    }
    None
}

/// The module that a call names: by its name, or the first where it names none.
pub open spec fn asked_module(process: Option<Target>, name: Option<String>) -> Result<
    ModuleInfo,
    HostError,
> {
    match modules_of(process) {
        Err(e) => Err(e),
        Ok(mods) => match name {
            Some(n) => match module_named(mods@, n@) {
                Some(m) => Ok(m),
                None => Err(HostError::ModuleNotFound(n)),
            },
            None => if mods@.len() > 0 {
                Ok(mods@[0])
            } else {
                Err(HostError::Misuse(Misuse::NoModules))
            },
        },
    }
}

pub fn asked_module_exec(process: &Option<Target>, name: Option<String>) -> (r: Result<
    ModuleInfo,
    HostError,
>)
    ensures
        r == asked_module(*process, name),
{
    let mods = match modules_of_exec(process) {
        Ok(m) => m,
        Err(e) => return Err(e),
    };
    match name {
        Some(n) => match module_named_exec(mods, n.as_str()) {
            Some(m) => Ok(m),
            None => Err(HostError::ModuleNotFound(n)),
        },
        None => if mods.len() > 0 {
            Ok(mods[0].clone())
        } else {
            Err(HostError::Misuse(Misuse::NoModules))
        },
    }
}

fn copy_modules(mods: &Vec<ModuleInfo>) -> (out: Vec<ModuleInfo>)
    ensures
        out@ == mods@,
{
    let mut out: Vec<ModuleInfo> = Vec::new();
    let mut i: usize = 0;
    while i < mods.len()
        invariant
            i <= mods@.len(),
            out@ == mods@.subrange(0, i as int),
        decreases mods@.len() - i,
    {
        out.push(mods[i].clone());
        i += 1;
    }
    assert(mods@.subrange(0, mods@.len() as int) =~= mods@);
    out
}

/// Answers a module, or null where there is none.
pub open spec fn module_reply(m: Option<ModuleInfo>) -> Reply {
    match m {
        Some(m) => Reply::Module(m),
        None => Reply::Null,
    }
}

fn module_reply_exec(m: Option<ModuleInfo>) -> (r: Reply)
    ensures
        r == module_reply(m),
{
    match m {
        Some(m) => Reply::Module(m),
        None => Reply::Null,
    }
}

/// `n` as a double-precision number: integers above 2^53 are rounded to the
/// nearest that it can hold, and halfway to the even one. `unit` is the distance
/// between two of these, as far as it has been found.
pub open spec fn as_double(n: int, unit: int) -> int
    decreases n / unit,
    when 0 < unit && 0 <= n
{
    if n / unit < 0x20_0000_0000_0000 {
        let q = n / unit;
        let r = n % unit;
        if 2 * r > unit || (2 * r == unit && q % 2 == 1) {
            (q + 1) * unit
        } else {
            q * unit
        }
    } else {
        proof {
            assert(n / (2 * unit) < n / unit) by (nonlinear_arith)
                requires
                    unit > 0,
                    n / unit >= 0x20_0000_0000_0000,
            ;
        }
        as_double(n, 2 * unit)
    }
}

/// `n` as a double-precision number.
pub fn as_double_exec(n: u64) -> (d: u128)
    ensures
        d == as_double(n as int, 1),
{
    let mut unit: u128 = 1;
    while n as u128 / unit >= 0x20_0000_0000_0000
        invariant
            1 <= unit <= 0x1000,
            as_double(n as int, 1) == as_double(n as int, unit as int),
        decreases n as int / unit as int,
    {
        proof {
            let u = unit as int;
            let m = n as int;
            assert(m / (2 * u) < m / u) by (nonlinear_arith)
                requires
                    u > 0,
                    m / u >= 0x20_0000_0000_0000,
            ;
            assert(u <= 0x7ff) by (nonlinear_arith)
                requires
                    u > 0,
                    m < 0x1_0000_0000_0000_0000,
                    m / u >= 0x20_0000_0000_0000,
            ;
        }
        unit = unit * 2;
    }
    let q: u128 = n as u128 / unit;
    let r: u128 = n as u128 % unit;
    assert((q + 1) * unit <= 0x20_0000_0000_0000 * 0x1000 && q * unit <= (q + 1) * unit)
        by (nonlinear_arith)
        requires
            0 <= q < 0x20_0000_0000_0000,
            1 <= unit <= 0x1000,
    ;
    if 2 * r > unit || (2 * r == unit && q % 2 == 1) {
        (q + 1) * unit
    } else {
        q * unit
    }
}

/// How many characters in front are not white space.
pub open spec fn word_len(s: Seq<char>) -> nat
    decreases s.len(),
{
    if s.len() == 0 || is_white(s[0]) {
        0
    } else {
        1 + word_len(skip(s, 1))
    }
}

/// How many characters stand in front of the first `c`.
pub open spec fn run_before(s: Seq<char>, c: char) -> nat
    decreases s.len(),
{
    if s.len() == 0 || s[0] == c {
        0
    } else {
        1 + run_before(skip(s, 1), c)
    }
}

fn word_len_exec(s: &[char]) -> (n: usize)
    ensures
        n == word_len(s@),
        n <= s@.len(),
{
    let mut i: usize = 0;
    assert(skip(s@, 0) =~= s@);
    while i < s.len() && !is_white_exec(s[i])
        invariant
            i <= s@.len(),
            word_len(s@) == i + word_len(skip(s@, i as int)),
        decreases s@.len() - i,
    {
        assert(skip(skip(s@, i as int), 1) =~= skip(s@, i + 1));
        i += 1;
    }
    i
}

fn run_before_exec(s: &[char], c: char) -> (n: usize)
    ensures
        n == run_before(s@, c),
        n <= s@.len(),
{
    let mut i: usize = 0;
    assert(skip(s@, 0) =~= s@);
    while i < s.len() && s[i] != c
        invariant
            i <= s@.len(),
            run_before(s@, c) == i + run_before(skip(s@, i as int), c),
        decreases s@.len() - i,
    {
        assert(skip(skip(s@, i as int), 1) =~= skip(s@, i + 1));
        i += 1;
    }
    i
}

/// The mapping that a line of the maps file describes: `start-end perms ...`,
/// both addresses in hex.
pub open spec fn line_region(line: Seq<char>) -> Option<RegionView> {
    let t = trim_start(line);
    let range = t.subrange(0, word_len(t) as int);
    let rest = trim_start(skip(t, word_len(t) as int));
    let perms = rest.subrange(0, word_len(rest) as int);
    let dash = run_before(range, '-') as int;
    if dash == range.len() {
        None
    } else {
        match (
            parse_int_spec(range.subrange(0, dash), 16, 0, usize::MAX as int),
            parse_int_spec(skip(range, dash + 1), 16, 0, usize::MAX as int),
        ) {
            (Ok(start), Ok(end)) => Some(
                RegionView {
                    start: start as usize,
                    size: (end as usize).wrapping_sub(start as usize),
                    end: end as usize,
                    perms: if perms.len() == 0 {
                        "----"@
                    } else {
                        perms
                    },
                },
            ),
            _ => None,
        }
    }
}

/// Reads one line of the maps file.
pub fn line_region_exec(line: &[char]) -> (r: Option<MapRegion>)
    ensures
        match r {
            Some(m) => line_region(line@) == Some(m@),
            None => line_region(line@) is None,
        },
{
    let t = trim_start_exec(line);
    let n: usize = word_len_exec(t);
    let range = slice_subrange(t, 0, n);
    let after = slice_subrange(t, n, t.len());
    assert(after@ =~= skip(t@, n as int));
    let rest = trim_start_exec(after);
    let k: usize = word_len_exec(rest);
    let perms = slice_subrange(rest, 0, k);
    let dash: usize = run_before_exec(range, '-');
    if dash == range.len() {
        return None;
    }
    let from = slice_subrange(range, 0, dash);
    let to = slice_subrange(range, dash + 1, range.len());
    assert(to@ =~= skip(range@, dash + 1));
    let start: usize = match parse_unsigned(from, 16, usize::MAX as u64) {
        Ok(v) => v as usize,
        Err(_) => return None,
    };
    let end: usize = match parse_unsigned(to, 16, usize::MAX as u64) {
        Ok(v) => v as usize,
        Err(_) => return None,
    };
    let perms = if perms.len() == 0 {
        "----".to_string()
    } else {
        string_of(perms)
    };
    Some(MapRegion { start, size: end.wrapping_sub(start), end, perms })
}

/// The mappings that lines describe.
pub open spec fn lines_regions(lines: Seq<Seq<char>>) -> Seq<RegionView>
    decreases lines.len(),
{
    if lines.len() == 0 {
        Seq::empty()
    } else {
        match line_region(lines.last()) {
            Some(r) => lines_regions(lines.drop_last()).push(r),
            None => lines_regions(lines.drop_last()),
        }
    }
}

/// The mappings that the maps file of a process lists.
pub open spec fn maps_regions(maps: Seq<char>) -> Seq<RegionView> {
    lines_regions(split_on(maps, '\n'))
}

/// What is said of a list of mappings.
pub open spec fn regions_view(v: Seq<MapRegion>) -> Seq<RegionView> {
    Seq::new(v.len(), |i: int| v[i]@)
}

/// Reads the maps file of a process.
pub fn regions(maps: &str) -> (out: Vec<MapRegion>)
    ensures
        regions_view(out@) == maps_regions(maps@),
{
    let c = chars_of(maps);
    let lines = split_on_exec(c.as_slice(), '\n');
    let ghost all = split_on(maps@, '\n');
    let mut out: Vec<MapRegion> = Vec::new();
    let mut i: usize = 0;
    assert(regions_view(out@) =~= Seq::<RegionView>::empty());
    while i < lines.len()
        invariant
            i <= lines@.len(),
            lines@.len() == all.len(),
            forall|k: int| 0 <= k < lines@.len() ==> (#[trigger] lines@[k])@ == all[k],
            regions_view(out@) == lines_regions(all.subrange(0, i as int)),
        decreases lines@.len() - i,
    {
        assert(all.subrange(0, i + 1).drop_last() =~= all.subrange(0, i as int));
        assert(lines@[i as int]@ == all[i as int]);
        match line_region_exec(lines[i].as_slice()) {
            Some(m) => {
                let ghost before = out@;
                out.push(m);
                assert(regions_view(out@) =~= regions_view(before).push(m@));
            },
            None => {},
        }
        i += 1;
    }
    assert(all.subrange(0, all.len() as int) =~= all);
    out
}

/// An address lies in a mapping, both compared as double-precision numbers.
pub open spec fn region_holds(r: RegionView, addr: usize) -> bool {
    as_double(r.start as int, 1) <= as_double(addr as int, 1) < as_double(r.end as int, 1)
}

/// The first mapping that an address lies in.
pub open spec fn region_at(regions: Seq<RegionView>, addr: usize) -> Option<RegionView>
    decreases regions.len(),
{
    if regions.len() == 0 {
        None
    } else if region_holds(regions[0], addr) {
        Some(regions[0])
    } else {
        region_at(regions.subrange(1, regions.len() as int), addr)
    }
}

/// Answers `proc.regions`, or `proc.regionAt` for an address. `maps` is the maps
/// file, where it could be read.
pub fn finish_regions(maps: Option<String>, at: Option<usize>) -> (r: Reply)
    ensures
        ({
            let all = match maps {
                Some(t) => maps_regions(t@),
                None => Seq::empty(),
            };
            match at {
                None => r matches Reply::Regions(v) && regions_view(v@) == all,
                Some(addr) => match region_at(all, addr) {
                    Some(m) => r matches Reply::Region(x) && x@ == m,
                    None => r == Reply::Null,
                },
            }
        }),
{
    let mut all: Vec<MapRegion> = match maps {
        Some(t) => regions(t.as_str()),
        None => Vec::new(),
    };
    let ghost views = regions_view(all@);
    proof {
        if maps is None {
            assert(regions_view(all@) =~= Seq::<RegionView>::empty());
        }
    }
    let addr: usize = match at {
        None => return Reply::Regions(all),
        Some(a) => a,
    };
    let a: u128 = as_double_exec(addr as u64);
    let mut i: usize = 0;
    assert(views.subrange(0, views.len() as int) =~= views);
    while i < all.len()
        invariant
            i <= all@.len(),
            views == regions_view(all@),
            a == as_double(addr as int, 1),
            region_at(views, addr) == region_at(
                views.subrange(i as int, views.len() as int),
                addr,
            ),
            at == Some(addr),
            views == match maps {
                Some(t) => maps_regions(t@),
                None => Seq::empty(),
            },
        decreases all@.len() - i,
    {
        proof {
            let rest = views.subrange(i as int, views.len() as int);
            assert(rest.subrange(1, rest.len() as int) =~= views.subrange(
                i + 1,
                views.len() as int,
            ));
            assert(rest[0] == all@[i as int]@);
        }
        let start: u128 = as_double_exec(all[i].start as u64);
        let end: u128 = as_double_exec(all[i].end as u64);
        if start <= a && a < end {
            let m = all.swap_remove(i);
            return Reply::Region(m);
        }
        i += 1;
    }
    Reply::Null
}

pub(crate) fn fail(e: HostError) -> (s: HostStep)
    ensures
        s == HostStep::Done(Err::<Reply, HostError>(e)),
{
    HostStep::Done(Err(e))
}

/// `proc.regions()` and `proc.regionAt(addr)`: without a process there are none.
pub open spec fn asks_regions(process: Option<Target>, at: Option<usize>, step: HostStep) -> bool {
    match process {
        Some(t) => step == HostStep::Ask(HostOp::ReadMaps { pid: t.pid, at }),
        None => match at {
            None => step matches HostStep::Done(Ok(Reply::Regions(v))) && v@.len() == 0,
            Some(_) => step == HostStep::Done(Ok(Reply::Null)),
        },
    }
}

fn ask_regions(process: &Option<Target>, at: Option<usize>) -> (step: HostStep)
    ensures
        asks_regions(*process, at, step),
{
    match process {
        Some(t) => HostStep::Ask(HostOp::ReadMaps { pid: t.pid, at }),
        None => match at {
            None => HostStep::Done(Ok(Reply::Regions(Vec::new()))),
            Some(_) => HostStep::Done(Ok(Reply::Null)),
        },
    }
}

/// What a method about the target does; `None` for a method that is none of
/// these.
pub open spec fn proc_called(
    method: Seq<char>,
    args: Json,
    process: Option<Target>,
    r: Option<HostStep>,
) -> bool {
    if method == "proc.attached"@ {
        r == Some(HostStep::Done(Ok(Reply::Bool(process is Some))))
    } else if method == "proc.pid"@ {
        r == Some(
            HostStep::Done(
                Ok(
                    Reply::Pid(
                        match pid_of(process) {
                            Some(p) => p,
                            None => 0,
                        },
                    ),
                ),
            ),
        )
    } else if method == "proc.name"@ {
        match process {
            None => r == Some(HostStep::Done(Err(HostError::Misuse(Misuse::NotAttached)))),
            Some(t) => r matches Some(HostStep::Done(Ok(Reply::Text(n)))) && n@ == match t.name {
                Some(name) => name@,
                None => ""@,
            },
        }
    } else if method == "proc.modules"@ {
        match modules_of(process) {
            Err(e) => r == Some(HostStep::Done(Err(e))),
            Ok(mods) => r matches Some(HostStep::Done(Ok(Reply::Modules(m)))) && m@ == mods@,
        }
    } else if method == "proc.module"@ {
        r == Some(
            match text_at(args, 0) {
                Err(e) => HostStep::Done(Err(HostError::Arg(e))),
                Ok(name) => match modules_of(process) {
                    Err(e) => HostStep::Done(Err(e)),
                    Ok(mods) => HostStep::Done(Ok(module_reply(module_named(mods@, name@)))),
                },
            },
        )
    } else if method == "proc.moduleAt"@ {
        r == Some(
            match addr_at(args, 0) {
                Err(e) => HostStep::Done(Err(HostError::Arg(e))),
                Ok(addr) => match modules_of(process) {
                    Err(e) => HostStep::Done(Err(e)),
                    Ok(mods) => HostStep::Done(
                        Ok(module_reply(module_holding(mods@, addr as int))),
                    ),
                },
            },
        )
    } else if method == "proc.baseAddress"@ {
        r == Some(
            match asked_module(process, opt_text(opt_arg_at(args, 0))) {
                Err(e) => HostStep::Done(Err(e)),
                Ok(m) => HostStep::Done(Ok(Reply::Address(m.base))),
            },
        )
    } else if method == "proc.regions"@ {
        r matches Some(s) && asks_regions(process, None, s)
    } else if method == "proc.regionAt"@ {
        match addr_at(args, 0) {
            Err(e) => r == Some(HostStep::Done(Err(HostError::Arg(e)))),
            Ok(addr) => r matches Some(s) && asks_regions(process, Some(addr), s),
        }
    } else if method == "proc.resolveSymbol"@ {
        r == Some(
            match addr_at(args, 0) {
                Err(e) => HostStep::Done(Err(HostError::Arg(e))),
                Ok(addr) => if process is None {
                    HostStep::Done(Err(HostError::Misuse(Misuse::NotAttached)))
                } else {
                    HostStep::Ask(HostOp::ResolveSymbol { addr })
                },
            },
        )
    } else if method == "proc.exports"@ {
        r == Some(
            match asked_module(process, opt_text(opt_arg_at(args, 0))) {
                Err(e) => HostStep::Done(Err(e)),
                Ok(m) => HostStep::Ask(HostOp::Exports { base: m.base }),
            },
        )
    } else if method == "proc.resolveExport"@ {
        r == Some(
            match (text_at(args, 0), text_at(args, 1)) {
                (Err(e), _) => HostStep::Done(Err(HostError::Arg(e))),
                (Ok(_), Err(e)) => HostStep::Done(Err(HostError::Arg(e))),
                (Ok(module), Ok(name)) => match asked_module(process, Some(module)) {
                    Err(e) => HostStep::Done(Err(e)),
                    Ok(m) => HostStep::Ask(HostOp::ResolveExport { base: m.base, name }),
                },
            },
        )
    } else {
        r is None
    }
}

/// Calls a method about the target.
pub fn proc_call(method: &str, args: &Json, process: &Option<Target>) -> (r: Option<HostStep>)
    ensures
        proc_called(method@, *args, *process, r),
{
    if same_str(method, "proc.attached") {
        return Some(HostStep::Done(Ok(Reply::Bool(process.is_some()))));
    }
    if same_str(method, "proc.pid") {
        let pid: u32 = match pid_of_exec(process) {
            Some(p) => p,
            None => 0,
        };
        return Some(HostStep::Done(Ok(Reply::Pid(pid))));
    }
    if same_str(method, "proc.name") {
        return match process {
            None => Some(fail(HostError::Misuse(Misuse::NotAttached))),
            Some(t) => match &t.name {
                Some(n) => Some(HostStep::Done(Ok(Reply::Text(n.clone())))),
                None => Some(HostStep::Done(Ok(Reply::Text("".to_string())))),
            },
        };
    }
    if same_str(method, "proc.modules") {
        return match modules_of_exec(process) {
            Err(e) => Some(fail(e)),
            Ok(m) => Some(HostStep::Done(Ok(Reply::Modules(copy_modules(m))))),
        };
    }
    if same_str(method, "proc.module") {
        let name = match text_arg(args, 0) {
            Ok(t) => t,
            Err(e) => return Some(fail(HostError::Arg(e))),
        };
        return match modules_of_exec(process) {
            Err(e) => Some(fail(e)),
            Ok(m) => Some(
                HostStep::Done(Ok(module_reply_exec(module_named_exec(m, name.as_str())))),
            ),
        };
    }
    if same_str(method, "proc.moduleAt") {
        let addr: usize = match addr_arg(args, 0) {
            Ok(a) => a,
            Err(e) => return Some(fail(HostError::Arg(e))),
        };
        return match modules_of_exec(process) {
            Err(e) => Some(fail(e)),
            Ok(m) => Some(HostStep::Done(Ok(module_reply_exec(module_holding_exec(m, addr))))),
        };
    }
    if same_str(method, "proc.baseAddress") {
        return match asked_module_exec(process, opt_text_arg(opt_arg(args, 0))) {
            Err(e) => Some(fail(e)),
            Ok(m) => Some(HostStep::Done(Ok(Reply::Address(m.base)))),
        };
    }
    if same_str(method, "proc.regions") {
        return Some(ask_regions(process, None));
    }
    if same_str(method, "proc.regionAt") {
        return match addr_arg(args, 0) {
            Ok(a) => Some(ask_regions(process, Some(a))),
            Err(e) => Some(fail(HostError::Arg(e))),
        };
    }
    if same_str(method, "proc.resolveSymbol") {
        return match addr_arg(args, 0) {
            Ok(addr) => if process.is_none() {
                Some(fail(HostError::Misuse(Misuse::NotAttached)))
            } else {
                Some(HostStep::Ask(HostOp::ResolveSymbol { addr }))
            },
            Err(e) => Some(fail(HostError::Arg(e))),
        };
    }
    if same_str(method, "proc.exports") {
        return match asked_module_exec(process, opt_text_arg(opt_arg(args, 0))) {
            Err(e) => Some(fail(e)),
            Ok(m) => Some(HostStep::Ask(HostOp::Exports { base: m.base })),
        };
    }
    if same_str(method, "proc.resolveExport") {
        let module = match text_arg(args, 0) {
            Ok(t) => t,
            Err(e) => return Some(fail(HostError::Arg(e))),
        };
        let name = match text_arg(args, 1) {
            Ok(t) => t,
            Err(e) => return Some(fail(HostError::Arg(e))),
        };
        return match asked_module_exec(process, Some(module)) {
            Err(e) => Some(fail(e)),
            Ok(m) => Some(HostStep::Ask(HostOp::ResolveExport { base: m.base, name })),
        };
    }
    None
}

/// Answers `proc.resolveSymbol` and `scan.makeSignature`: a text, or null where
/// there is none.
pub fn finish_text(text: Result<Option<String>, String>) -> (r: Result<Reply, HostError>)
    ensures
        r == match text {
            Ok(Some(t)) => Ok::<Reply, HostError>(Reply::Text(t)),
            Ok(None) => Ok::<Reply, HostError>(Reply::Null),
            Err(e) => Err::<Reply, HostError>(HostError::Failed(Stage::Resolve, e)),
        },
{
    match text {
        Ok(Some(t)) => Ok(Reply::Text(t)),
        Ok(None) => Ok(Reply::Null),
        Err(e) => Err(HostError::Failed(Stage::Resolve, e)),
    }
}

/// Answers `proc.exports`.
pub fn finish_exports(symbols: Result<Vec<(String, usize)>, String>) -> (r: Result<
    Reply,
    HostError,
>)
    ensures
        r == match symbols {
            Ok(s) => Ok::<Reply, HostError>(Reply::Symbols(s)),
            Err(e) => Err::<Reply, HostError>(HostError::Failed(Stage::Exports, e)),
        },
{
    match symbols {
        Ok(s) => Ok(Reply::Symbols(s)),
        Err(e) => Err(HostError::Failed(Stage::Exports, e)),
    }
}

/// Answers `proc.resolveExport`.
pub fn finish_resolve_export(addr: Result<Option<usize>, String>) -> (r: Result<Reply, HostError>)
    ensures
        r == match addr {
            Ok(Some(a)) => Ok::<Reply, HostError>(Reply::Address(a)),
            Ok(None) => Ok::<Reply, HostError>(Reply::Null),
            Err(e) => Err::<Reply, HostError>(HostError::Failed(Stage::Resolve, e)),
        },
{
    match addr {
        Ok(Some(a)) => Ok(Reply::Address(a)),
        Ok(None) => Ok(Reply::Null),
        Err(e) => Err(HostError::Failed(Stage::Resolve, e)),
    }
}

/// Below 2^53 nothing is rounded: an address there lies in a mapping exactly if
/// it is at or behind its start and in front of its end.
pub proof fn low_addresses_are_exact(r: RegionView, addr: usize)
    requires
        addr < 0x20_0000_0000_0000,
        r.start < 0x20_0000_0000_0000,
        r.end < 0x20_0000_0000_0000,
    ensures
        region_holds(r, addr) <==> r.start <= addr < r.end,
{
}

/// The module of a name is the first that has the name, however its letters are cased.
pub proof fn module_is_the_first_of_its_name(mods: Seq<ModuleInfo>, name: Seq<char>)
    ensures
        match module_named(mods, name) {
            Some(m) => exists|i: int|
                {
                    &&& 0 <= i < mods.len()
                    &&& #[trigger] mods[i] == m
                    &&& same_ignoring_case(m.name@, name)
                    &&& forall|j: int|
                        0 <= j < i ==> !same_ignoring_case((#[trigger] mods[j]).name@, name)
                },
            None => forall|j: int|
                0 <= j < mods.len() ==> !same_ignoring_case((#[trigger] mods[j]).name@, name),
        },
    decreases mods.len(),
{
    if mods.len() > 0 {
        let rest = mods.subrange(1, mods.len() as int);
        module_is_the_first_of_its_name(rest, name);
        assert forall|j: int| 0 < j < mods.len() implies (#[trigger] mods[j]) == rest[j - 1] by {}
        if same_ignoring_case(mods[0].name@, name) {
            assert(mods[0] == module_named(mods, name)->0);
        } else if let Some(m) = module_named(rest, name) {
            let i = choose|i: int|
                {
                    &&& 0 <= i < rest.len()
                    &&& #[trigger] rest[i] == m
                    &&& same_ignoring_case(m.name@, name)
                    &&& forall|j: int|
                        0 <= j < i ==> !same_ignoring_case((#[trigger] rest[j]).name@, name)
                };
            assert(mods[i + 1] == m);
        }
    }
}

/// The module of an address holds the address, and there is none only where no module
/// holds it.
pub proof fn module_at_holds_its_address(mods: Seq<ModuleInfo>, addr: int)
    ensures
        match module_holding(mods, addr) {
            Some(m) => mods.contains(m) && m.base <= addr && addr - m.base < m.size,
            None => forall|j: int|
                0 <= j < mods.len() && (#[trigger] mods[j]).base + mods[j].size <= usize::MAX
                    ==> !(mods[j].base <= addr && addr - mods[j].base < mods[j].size),
        },
    decreases mods.len(),
{
    if mods.len() > 0 {
        let rest = mods.subrange(1, mods.len() as int);
        module_at_holds_its_address(rest, addr);
        assert forall|j: int| 0 < j < mods.len() implies (#[trigger] mods[j]) == rest[j - 1] by {}
        if in_module(mods[0], addr) {
            assert(mods.contains(mods[0]));
        } else if let Some(m) = module_holding(rest, addr) {
            let i = rest.index_of(m);
            assert(mods[i + 1] == m);
        }
    }
}

/// A region goes from its start to its end.
pub proof fn region_spans_its_range(line: Seq<char>)
    ensures
        line_region(line) matches Some(r) ==> r.start <= r.end ==> r.start + r.size == r.end,
        line_region(line) matches Some(r) ==> r.perms.len() > 0,
{
    reveal_strlit("----");
}

proof fn lemma_word(s: Seq<char>, n: nat)
    requires
        n <= s.len(),
        forall|i: int| 0 <= i < n ==> !is_white(#[trigger] s[i]),
        n == s.len() || is_white(s[n as int]),
    ensures
        word_len(s) == n,
    decreases n,
{
    if n > 0 {
        let t = skip(s, 1);
        assert forall|i: int| 0 <= i < n - 1 implies !is_white(#[trigger] t[i]) by {
            assert(!is_white(s[i + 1]));
        }
        lemma_word(t, (n - 1) as nat);
        assert(!is_white(s[0]));
    }
}

proof fn lemma_run(s: Seq<char>, c: char, n: nat)
    requires
        n < s.len(),
        forall|i: int| 0 <= i < n ==> #[trigger] s[i] != c,
        s[n as int] == c,
    ensures
        run_before(s, c) == n,
    decreases n,
{
    if n > 0 {
        let t = skip(s, 1);
        assert forall|i: int| 0 <= i < n - 1 implies #[trigger] t[i] != c by {
            assert(s[i + 1] != c);
        }
        lemma_run(t, c, (n - 1) as nat);
        assert(s[0] != c);
    }
}

proof fn lemma_digits_plain(n: nat)
    ensures
        hex_lower(n).len() > 0,
        forall|i: int|
            0 <= i < hex_lower(n).len() ==> !is_white(#[trigger] hex_lower(n)[i]) && hex_lower(n)[i]
                != '-',
{
    crate::text::lemma_digits_are_digits(n, 16, false);
    assert forall|i: int| 0 <= i < hex_lower(n).len() implies !is_white(
        #[trigger] hex_lower(n)[i],
    ) && hex_lower(n)[i] != '-' by {
        assert(crate::text::digit_value(hex_lower(n)[i], 16) is Some);
    }
}

/// A line of the map that names a range and its permissions is read as that range with
/// those permissions, whatever follows.
pub proof fn map_line_is_read(start: usize, end: usize, perms: Seq<char>, rest: Seq<char>)
    requires
        start <= end,
        perms.len() > 0,
        forall|i: int| 0 <= i < perms.len() ==> !is_white(#[trigger] perms[i]),
    ensures
        line_region(
            hex_lower(start as nat) + seq!['-'] + hex_lower(end as nat) + seq![' '] + perms + seq![
                ' ',
            ] + rest,
        ) == Some(RegionView { start, end, size: (end - start) as usize, perms }),
{
    let a = hex_lower(start as nat);
    let b = hex_lower(end as nat);
    let range = a + seq!['-'] + b;
    let line = range + seq![' '] + perms + seq![' '] + rest;
    assert(line =~= a + seq!['-'] + b + seq![' '] + perms + seq![' '] + rest);
    lemma_digits_plain(start as nat);
    lemma_digits_plain(end as nat);
    assert forall|i: int| 0 <= i < range.len() implies !is_white(#[trigger] range[i]) by {
        if i < a.len() {
            assert(range[i] == a[i]);
        } else if i > a.len() {
            assert(range[i] == b[i - a.len() - 1]);
        }
    }
    assert(line[0] == range[0]);
    assert(trim_start(line) == line);
    assert forall|i: int| 0 <= i < range.len() implies !is_white(#[trigger] line[i]) by {
        assert(line[i] == range[i]);
    }
    assert(line[range.len() as int] == ' ');
    lemma_word(line, range.len());
    assert(line.subrange(0, range.len() as int) =~= range);
    let tail = skip(line, range.len() as int);
    let words = perms + seq![' '] + rest;
    assert(tail =~= seq![' '] + words);
    assert(tail.subrange(1, tail.len() as int) =~= words);
    assert(words[0] == perms[0]);
    reveal_with_fuel(trim_start, 2);
    assert(trim_start(words) == words);
    assert(trim_start(tail) == words);
    assert forall|i: int| 0 <= i < perms.len() implies !is_white(#[trigger] words[i]) by {
        assert(words[i] == perms[i]);
    }
    assert(words[perms.len() as int] == ' ');
    lemma_word(words, perms.len());
    assert(words.subrange(0, perms.len() as int) =~= perms);
    assert forall|i: int| 0 <= i < a.len() implies #[trigger] range[i] != '-' by {
        assert(range[i] == a[i]);
    }
    assert(range[a.len() as int] == '-');
    lemma_run(range, '-', a.len());
    assert(range.subrange(0, a.len() as int) =~= a);
    assert(skip(range, (a.len() + 1) as int) =~= b);
    crate::text::lemma_padded_round_trip(start as nat, 0, 16, false, usize::MAX as int);
    crate::text::lemma_padded_round_trip(end as nat, 0, 16, false, usize::MAX as int);
    assert(zero_padded(a, 0) =~= a);
    assert(zero_padded(b, 0) =~= b);
}

/// Each line of the map that names a region gives that region, and nothing else gives
/// one.
pub proof fn every_line_gives_its_region(lines: Seq<Seq<char>>, r: RegionView)
    ensures
        lines_regions(lines).contains(r) <==> exists|i: int|
            0 <= i < lines.len() && line_region(#[trigger] lines[i]) == Some(r),
        lines_regions(lines).len() <= lines.len(),
    decreases lines.len(),
{
    if lines.len() > 0 {
        let rest = lines.drop_last();
        let before = lines_regions(rest);
        let all = lines_regions(lines);
        every_line_gives_its_region(rest, r);
        if all.contains(r) {
            let k = all.index_of(r);
            if k < before.len() {
                assert(before[k] == r);
                let i = choose|i: int|
                    0 <= i < rest.len() && line_region(#[trigger] rest[i]) == Some(r);
                assert(line_region(lines[i]) == Some(r));
            } else {
                assert(line_region(lines[lines.len() - 1]) == Some(r));
            }
        }
        if exists|i: int| 0 <= i < lines.len() && line_region(#[trigger] lines[i]) == Some(r) {
            let i = choose|i: int|
                0 <= i < lines.len() && line_region(#[trigger] lines[i]) == Some(r);
            if i < rest.len() {
                assert(line_region(rest[i]) == Some(r));
                let k = before.index_of(r);
                assert(all[k] == r);
            } else {
                assert(all[before.len() as int] == r);
            }
        }
    }
}

/// The base address of a module is where it starts: that of the named one, or of the
/// first where none is named.
pub proof fn base_address_is_where_the_module_starts(
    args: Json,
    process: Target,
    mods: Vec<ModuleInfo>,
    m: ModuleInfo,
    r: Option<HostStep>,
)
    requires
        proc_called("proc.baseAddress"@, args, Some(process), r),
        process.modules == Ok::<Vec<ModuleInfo>, String>(mods),
        match opt_text(opt_arg_at(args, 0)) {
            Some(n) => module_named(mods@, n@) == Some(m),
            None => mods@.len() > 0 && mods@[0] == m,
        },
    ensures
        r == Some(HostStep::Done(Ok::<Reply, HostError>(Reply::Address(m.base)))),
{
    assert("proc.attached"@ != "proc.baseAddress"@) by {
        reveal_strlit("proc.attached");
        reveal_strlit("proc.baseAddress");
        assert("proc.attached"@.len() != "proc.baseAddress"@.len());
    }
    assert("proc.pid"@ != "proc.baseAddress"@) by {
        reveal_strlit("proc.pid");
        reveal_strlit("proc.baseAddress");
        assert("proc.pid"@.len() != "proc.baseAddress"@.len());
    }
    assert("proc.name"@ != "proc.baseAddress"@) by {
        reveal_strlit("proc.name");
        reveal_strlit("proc.baseAddress");
        assert("proc.name"@.len() != "proc.baseAddress"@.len());
    }
    assert("proc.modules"@ != "proc.baseAddress"@) by {
        reveal_strlit("proc.modules");
        reveal_strlit("proc.baseAddress");
        assert("proc.modules"@.len() != "proc.baseAddress"@.len());
    }
    assert("proc.module"@ != "proc.baseAddress"@) by {
        reveal_strlit("proc.module");
        reveal_strlit("proc.baseAddress");
        assert("proc.module"@.len() != "proc.baseAddress"@.len());
    }
    assert("proc.moduleAt"@ != "proc.baseAddress"@) by {
        reveal_strlit("proc.moduleAt");
        reveal_strlit("proc.baseAddress");
        assert("proc.moduleAt"@.len() != "proc.baseAddress"@.len());
    }
}

/// The module at an address is answered, or nothing where none holds it.
pub proof fn module_at_is_answered(
    args: Json,
    process: Target,
    mods: Vec<ModuleInfo>,
    addr: usize,
    r: Option<HostStep>,
)
    requires
        proc_called("proc.moduleAt"@, args, Some(process), r),
        process.modules == Ok::<Vec<ModuleInfo>, String>(mods),
        addr_at(args, 0) matches Ok(a) && a == addr,
    ensures
        r matches Some(HostStep::Done(Ok(Reply::Module(m)))) ==> mods@.contains(m) && m.base <= addr
            && addr - m.base < m.size,
        r is Some,
        module_holding(mods@, addr as int) is None <==> r == Some(
            HostStep::Done(Ok::<Reply, HostError>(Reply::Null)),
        ),
{
    assert("proc.attached"@ != "proc.moduleAt"@) by {
        reveal_strlit("proc.attached");
        reveal_strlit("proc.moduleAt");
        assert("proc.attached"@[5] != "proc.moduleAt"@[5]);
    }
    assert("proc.pid"@ != "proc.moduleAt"@) by {
        reveal_strlit("proc.pid");
        reveal_strlit("proc.moduleAt");
        assert("proc.pid"@.len() != "proc.moduleAt"@.len());
    }
    assert("proc.name"@ != "proc.moduleAt"@) by {
        reveal_strlit("proc.name");
        reveal_strlit("proc.moduleAt");
        assert("proc.name"@.len() != "proc.moduleAt"@.len());
    }
    assert("proc.modules"@ != "proc.moduleAt"@) by {
        reveal_strlit("proc.modules");
        reveal_strlit("proc.moduleAt");
        assert("proc.modules"@.len() != "proc.moduleAt"@.len());
    }
    assert("proc.module"@ != "proc.moduleAt"@) by {
        reveal_strlit("proc.module");
        reveal_strlit("proc.moduleAt");
        assert("proc.module"@.len() != "proc.moduleAt"@.len());
    }
    module_at_holds_its_address(mods@, addr as int);
}

/// The process that is attached is answered under its own number.
pub proof fn attached_process_is_answered(args: Json, process: Option<Target>, r: Option<HostStep>)
    ensures
        proc_called("proc.attached"@, args, process, r) ==> r == Some(
            HostStep::Done(Ok::<Reply, HostError>(Reply::Bool(process is Some))),
        ),
        proc_called("proc.pid"@, args, process, r) ==> (process matches Some(t) ==> r == Some(
            HostStep::Done(Ok::<Reply, HostError>(Reply::Pid(t.pid))),
        )),
{
    assert("proc.attached"@ != "proc.pid"@) by {
        reveal_strlit("proc.attached");
        reveal_strlit("proc.pid");
        assert("proc.attached"@.len() != "proc.pid"@.len());
    }
}

} // verus!

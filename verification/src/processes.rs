//! The list of processes that can be attached.
use vstd::prelude::*;
use vstd::string::StringExecFns;

use crate::order::{sort_ordered, stably_ordered, text_before_exec, TextKey, TextKeyed};
use crate::text::{
    ascii_lower, ascii_lower_exec, chars_of, contains_text, contains_text_exec, decimal,
    decimal_exec, string_of,
};

verus! {

/// A process: its id and its name.
#[derive(Debug)]
pub struct ProcessEntry {
    pub id: u32,
    pub name: String,
}

impl TextKeyed for ProcessEntry {
    /// By the name, in any case of its letters, then by the id.
    open spec fn key_of(&self) -> TextKey {
        TextKey { first: 0, text: ascii_lower(self.name@), last: self.id as int }
    }

    fn comes_before(&self, other: &Self) -> (r: bool) {
        let ca = chars_of(self.name.as_str());
        let cb = chars_of(other.name.as_str());
        let a = ascii_lower_exec(ca.as_slice());
        let b = ascii_lower_exec(cb.as_slice());
        if text_before_exec(a.as_slice(), b.as_slice()) {
            return true;
        }
        crate::text::same_text(a.as_slice(), b.as_slice()) && self.id < other.id
    }
}

/// Sorts processes by name, in any case of its letters, then by id.
pub fn sort_processes(list: Vec<ProcessEntry>) -> (out: Vec<ProcessEntry>)
    ensures
        stably_ordered(list@, out@),
{
    sort_ordered(list)
}

/// The process passes the filter: its name, in any case of its letters, or its id
/// holds the text.
pub open spec fn process_matches(e: ProcessEntry, filter: Seq<char>) -> bool {
    filter.len() == 0 || contains_text(ascii_lower(e.name@), ascii_lower(filter)) || contains_text(
        decimal(e.id as nat),
        ascii_lower(filter),
    )
}

/// The places of the processes that pass the filter.
pub open spec fn matching(list: Seq<ProcessEntry>, filter: Seq<char>) -> Seq<usize>
    decreases list.len(),
{
    if list.len() == 0 {
        Seq::empty()
    } else if process_matches(list.last(), filter) {
        matching(list.drop_last(), filter).push((list.len() - 1) as usize)
    } else {
        matching(list.drop_last(), filter)
    }
}

/// The places of the processes that are shown.
pub fn shown_processes(list: &Vec<ProcessEntry>, filter: &str) -> (out: Vec<usize>)
    ensures
        out@ == matching(list@, filter@),
{
    let cf = chars_of(filter);
    let low = ascii_lower_exec(cf.as_slice());
    let mut out: Vec<usize> = Vec::new();
    let mut i: usize = 0;
    while i < list.len()
        invariant
            i <= list@.len(),
            cf@ == filter@,
            low@ == ascii_lower(filter@),
            out@ == matching(list@.subrange(0, i as int), filter@),
        decreases list@.len() - i,
    {
        assert(list@.subrange(0, i + 1).drop_last() =~= list@.subrange(0, i as int));
        assert(list@.subrange(0, i + 1).last() == list@[i as int]);
        let cn = chars_of(list[i].name.as_str());
        let name = ascii_lower_exec(cn.as_slice());
        let id = decimal_exec(list[i].id as u64);
        if cf.len() == 0 || contains_text_exec(name.as_slice(), low.as_slice())
            || contains_text_exec(id.as_slice(), low.as_slice()) {
            out.push(i);
        }
        i += 1;
    }
    assert(list@.subrange(0, list@.len() as int) =~= list@);
    out
}

/// How a process is listed.
pub fn process_label(e: &ProcessEntry) -> (s: String)
    ensures
        s@ == e.name@ + "   [pid "@ + decimal(e.id as nat) + "]"@,
{
    let mut s = e.name.clone();
    s.append("   [pid ");
    let d = string_of(decimal_exec(e.id as u64).as_slice());
    s.append(d.as_str());
    s.append("]");
    s
}

/// What a process is called: its name, or its id where it has none.
pub open spec fn called_name(name: Seq<char>, pid: u32) -> Seq<char> {
    if name.len() == 0 {
        "pid:"@ + decimal(pid as nat)
    } else {
        name
    }
}

pub fn display_name(name: &str, pid: u32) -> (s: String)
    ensures
        s@ == called_name(name@, pid),
{
    if name.is_empty() {
        let mut s = "pid:".to_string();
        let d = string_of(decimal_exec(pid as u64).as_slice());
        s.append(d.as_str());
        s
    } else {
        name.to_string()
    }
}

/// Just those processes are shown that match the filter, in the order of the list.
pub proof fn matching_processes_are_shown(list: Seq<ProcessEntry>, filter: Seq<char>, x: usize)
    requires
        list.len() <= usize::MAX,
    ensures
        matching(list, filter).contains(x) <==> x < list.len() && process_matches(
            list[x as int],
            filter,
        ),
        forall|i: int, j: int|
            0 <= i < j < matching(list, filter).len() ==> matching(list, filter)[i] < matching(
                list,
                filter,
            )[j],
        forall|i: int|
            0 <= i < matching(list, filter).len() ==> #[trigger] matching(list, filter)[i]
                < list.len(),
    decreases list.len(),
{
    if list.len() > 0 {
        let rest = list.drop_last();
        let before = matching(rest, filter);
        let all = matching(list, filter);
        matching_processes_are_shown(rest, filter, x);
        if before.contains(x) {
            let i = before.index_of(x);
            assert(all[i] == x);
        }
        if x == list.len() - 1 && process_matches(list.last(), filter) {
            assert(all[before.len() as int] == x);
        }
        if all.contains(x) {
            let i = all.index_of(x);
            if i < before.len() {
                assert(before[i] == x);
            }
        }
    }
}

/// A process is found by its name, however its letters are cased, and by its number.
pub proof fn process_is_found_by_name_and_number(e: ProcessEntry, filter: Seq<char>)
    requires
        filter.len() == 0 || ascii_lower(filter) == ascii_lower(e.name@) || ascii_lower(filter)
            == decimal(e.id as nat),
    ensures
        process_matches(e, filter),
{
    let l = ascii_lower(e.name@);
    let d = decimal(e.id as nat);
    let f = ascii_lower(filter);
    assert(l.subrange(0, l.len() as int) =~= l);
    assert(d.subrange(0, d.len() as int) =~= d);
    if f == l {
        assert(l.subrange(0, 0int + f.len()) == f);
    }
    if f == d {
        assert(d.subrange(0, 0int + f.len()) == f);
    }
}

} // verus!

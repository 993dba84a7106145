//! The navigator: a browsable index of what a dissect found.
use vstd::prelude::*;
use vstd::string::StringExecFns;

use crate::sort::{sort_by_key, stably_sorted, Keyed};
use crate::text::{
    ascii_lower, ascii_lower_exec, chars_of, contains_text, contains_text_exec, hex_lower,
    hex_lower_exec, string_of,
};
use crate::xrefs::{preview_of, DissectResult, XrefList};

verus! {

/// Which index the panel shows.
#[derive(Clone, Copy, Debug, PartialEq, Eq, Structural)]
pub enum NavView {
    Strings,
    Functions,
    Calls,
}

/// What a click asks for.
#[derive(Clone, Copy, Debug, PartialEq, Eq, Structural)]
pub enum NavAction {
    /// Jump the disassembler to this address.
    GotoDisasm(usize),
    /// Jump the hex viewer to this address.
    GotoMemory(usize),
    /// Dissect the modules that the disassembler browses.
    RunDissect,
}

/// A string that code refers to.
#[derive(Debug)]
pub struct NavString {
    pub addr: u64,
    pub preview: String,
    pub refs: usize,
}

/// A call target.
#[derive(Clone, Copy, Debug, PartialEq, Eq, Structural)]
pub struct NavFunction {
    pub addr: u64,
    pub callers: usize,
}

/// A call.
#[derive(Clone, Copy, Debug, PartialEq, Eq, Structural)]
pub struct NavCall {
    pub site: u64,
    pub target: u64,
}

impl Keyed for NavCall {
    open spec fn key_of(self) -> u64 {
        self.site
    }

    fn key(&self) -> (k: u64) {
        self.site
    }
}

/// The panel's state. The lists are those of the dissect number `built_for`.
#[derive(Debug)]
pub struct NavigatorPanel {
    pub view: NavView,
    pub filter: String,
    pub built_for: Option<u64>,
    pub strings: Vec<NavString>,
    pub functions: Vec<NavFunction>,
    pub calls: Vec<NavCall>,
}

/// The calls of the first `n` sites of one list.
pub open spec fn calls_of_list(list: XrefList, n: nat) -> Seq<NavCall> {
    Seq::new(n, |i: int| NavCall { site: list.from@[i].0, target: list.target })
}

/// The calls of several lists, one list behind the other.
pub open spec fn calls_of(lists: Seq<XrefList>) -> Seq<NavCall>
    decreases lists.len(),
{
    if lists.len() == 0 {
        Seq::empty()
    } else {
        calls_of(lists.drop_last()) + calls_of_list(lists.last(), lists.last().from@.len())
    }
}

/// The numbers below `n` for which `p` holds, ascending.
pub open spec fn kept(n: nat, p: spec_fn(int) -> bool) -> Seq<usize>
    decreases n,
{
    if n == 0 {
        Seq::empty()
    } else if p(n - 1) {
        kept((n - 1) as nat, p).push((n - 1) as usize)
    } else {
        kept((n - 1) as nat, p)
    }
}

/// An entry passes the filter: by its address in hex, or by its label, in any
/// case of its letters.
pub open spec fn nav_match(filter: Seq<char>, addr: u64, label: Option<Seq<char>>) -> bool {
    ||| filter.len() == 0
    ||| contains_text(hex_lower(addr as nat), ascii_lower(filter))
    ||| label matches Some(l) && contains_text(ascii_lower(l), ascii_lower(filter))
}

impl NavigatorPanel {
    /// Nothing is listed, and nothing is left out.
    pub open spec fn is_fresh(&self) -> bool {
        &&& self.view == NavView::Functions
        &&& self.filter@.len() == 0
        &&& self.built_for is None
        &&& self.strings@.len() == 0
        &&& self.functions@.len() == 0
        &&& self.calls@.len() == 0
    }

    pub fn new() -> (p: Self)
        ensures
            p.is_fresh(),
    {
        NavigatorPanel {
            view: NavView::Functions,
            filter: String::new(),
            built_for: None,
            strings: Vec::new(),
            functions: Vec::new(),
            calls: Vec::new(),
        }
    }

    /// The lists are those of `d`: strings and functions ascend by address, calls
    /// by site.
    pub open spec fn lists_of(&self, d: DissectResult) -> bool {
        &&& self.strings@.len() == d.strings.lists@.len()
        &&& forall|i: int|
            0 <= i < self.strings@.len() ==> {
                &&& (#[trigger] self.strings@[i]).addr == d.strings.lists@[i].target
                &&& self.strings@[i].refs == d.strings.lists@[i].from@.len()
                &&& self.strings@[i].preview@ == match preview_of(
                    d.string_previews@,
                    d.strings.lists@[i].target,
                ) {
                    Some(t) => t,
                    None => Seq::empty(),
                }
            }
        &&& self.functions@.len() == d.calls.lists@.len()
        &&& forall|i: int|
            0 <= i < self.functions@.len() ==> #[trigger] self.functions@[i] == (NavFunction {
                addr: d.calls.lists@[i].target,
                callers: d.calls.lists@[i].from@.len() as usize,
            })
        &&& stably_sorted(calls_of(d.calls.lists@), self.calls@)
    }

    /// Rebuilds the lists where the dissect is another than before. `dissect` is
    /// the number of the dissect and its result.
    pub fn refresh(&mut self, dissect: Option<(u64, &DissectResult)>)
        ensures
            final(self).view == old(self).view,
            final(self).filter == old(self).filter,
            ({
                let epoch = match dissect {
                    Some((e, _)) => Some(e),
                    None => None,
                };
                if old(self).built_for == epoch {
                    *final(self) == *old(self)
                } else {
                    &&& final(self).built_for == epoch
                    &&& match dissect {
                        Some((_, d)) => final(self).lists_of(*d),
                        None => final(self).strings@.len() == 0 && final(self).functions@.len()
                            == 0 && final(self).calls@.len() == 0,
                    }
                }
            }),
    {
        let epoch: Option<u64> = match dissect {
            Some((e, _)) => Some(e),
            None => None,
        };
        let same = match (self.built_for, epoch) {
            (None, None) => true,
            (Some(a), Some(b)) => a == b,
            _ => false,
        };
        if same {
            return;
        }
        match dissect {
            Some((_, d)) => {
                self.rebuild(d);
            },
            None => {
                self.strings = Vec::new();
                self.functions = Vec::new();
                self.calls = Vec::new();
            },
        }
        self.built_for = epoch;
    }

    fn rebuild(&mut self, d: &DissectResult)
        ensures
            final(self).view == old(self).view,
            final(self).filter == old(self).filter,
            final(self).built_for == old(self).built_for,
            final(self).lists_of(*d),
    {
        let mut strings: Vec<NavString> = Vec::new();
        let mut i: usize = 0;
        while i < d.strings.lists.len()
            invariant
                i <= d.strings.lists@.len(),
                strings@.len() == i,
                forall|j: int|
                    0 <= j < i ==> {
                        &&& (#[trigger] strings@[j]).addr == d.strings.lists@[j].target
                        &&& strings@[j].refs == d.strings.lists@[j].from@.len()
                        &&& strings@[j].preview@ == match preview_of(
                            d.string_previews@,
                            d.strings.lists@[j].target,
                        ) {
                            Some(t) => t,
                            None => Seq::empty(),
                        }
                    },
            decreases d.strings.lists@.len() - i,
        {
            let list = &d.strings.lists[i];
            let preview = match d.preview(list.target) {
                Some(t) => t.clone(),
                None => String::new(),
            };
            strings.push(NavString { addr: list.target, preview, refs: list.from.len() });
            i += 1;
        }
        let mut functions: Vec<NavFunction> = Vec::new();
        let mut calls: Vec<NavCall> = Vec::new();
        let mut k: usize = 0;
        while k < d.calls.lists.len()
            invariant
                k <= d.calls.lists@.len(),
                functions@.len() == k,
                forall|j: int|
                    0 <= j < k ==> #[trigger] functions@[j] == (NavFunction {
                        addr: d.calls.lists@[j].target,
                        callers: d.calls.lists@[j].from@.len() as usize,
                    }),
                calls@ == calls_of(d.calls.lists@.subrange(0, k as int)),
            decreases d.calls.lists@.len() - k,
        {
            let list = &d.calls.lists[k];
            functions.push(NavFunction { addr: list.target, callers: list.from.len() });
            let ghost before = calls@;
            let mut n: usize = 0;
            while n < list.from.len()
                invariant
                    n <= list.from@.len(),
                    calls@ == before + calls_of_list(*list, n as nat),
                decreases list.from@.len() - n,
            {
                calls.push(NavCall { site: list.from[n].0, target: list.target });
                n += 1;
                assert(calls@ =~= before + calls_of_list(*list, n as nat));
            }
            assert(d.calls.lists@.subrange(0, k + 1).drop_last() =~= d.calls.lists@.subrange(
                0,
                k as int,
            ));
            k += 1;
        }
        assert(d.calls.lists@.subrange(0, d.calls.lists@.len() as int) =~= d.calls.lists@);
        self.strings = strings;
        self.functions = functions;
        self.calls = sort_by_key(calls.as_slice());
    }

    /// Whether an entry passes the filter.
    pub fn matches(&self, addr: u64, label: Option<&str>) -> (r: bool)
        ensures
            r == nav_match(
                self.filter@,
                addr,
                match label {
                    Some(l) => Some(l@),
                    None => None,
                },
            ),
    {
        let f = chars_of(self.filter.as_str());
        if f.len() == 0 {
            return true;
        }
        let low = ascii_lower_exec(f.as_slice());
        let hex = hex_lower_exec(addr);
        if contains_text_exec(hex.as_slice(), low.as_slice()) {
            return true;
        }
        match label {
            Some(l) => {
                let text = chars_of(l);
                let low_text = ascii_lower_exec(text.as_slice());
                contains_text_exec(low_text.as_slice(), low.as_slice())
            },
            None => false,
        }
    }

    /// The string with the given number passes the filter.
    pub open spec fn string_kept(&self) -> spec_fn(int) -> bool {
        |i: int| nav_match(self.filter@, self.strings@[i].addr, Some(self.strings@[i].preview@))
    }

    /// The function with the given number passes the filter.
    pub open spec fn function_kept(&self) -> spec_fn(int) -> bool {
        |i: int| nav_match(self.filter@, self.functions@[i].addr, None)
    }

    /// The call with the given number passes the filter, by its site or target.
    pub open spec fn call_kept(&self) -> spec_fn(int) -> bool {
        |i: int|
            nav_match(self.filter@, self.calls@[i].site, None) || nav_match(
                self.filter@,
                self.calls@[i].target,
                None,
            )
    }

    /// The strings that pass the filter.
    pub fn string_rows(&self) -> (rows: Vec<usize>)
        ensures
            rows@ == kept(self.strings@.len(), self.string_kept()),
    {
        let mut rows: Vec<usize> = Vec::new();
        let mut i: usize = 0;
        while i < self.strings.len()
            invariant
                i <= self.strings@.len(),
                rows@ == kept(i as nat, self.string_kept()),
            decreases self.strings@.len() - i,
        {
            if self.matches(self.strings[i].addr, Some(self.strings[i].preview.as_str())) {
                rows.push(i);
            }
            i += 1;
        }
        rows
    }

    /// The functions that pass the filter.
    pub fn function_rows(&self) -> (rows: Vec<usize>)
        ensures
            rows@ == kept(self.functions@.len(), self.function_kept()),
    {
        let mut rows: Vec<usize> = Vec::new();
        let mut i: usize = 0;
        while i < self.functions.len()
            invariant
                i <= self.functions@.len(),
                rows@ == kept(i as nat, self.function_kept()),
            decreases self.functions@.len() - i,
        {
            if self.matches(self.functions[i].addr, None) {
                rows.push(i);
            }
            i += 1;
        }
        rows
    }

    /// The calls that pass the filter.
    pub fn call_rows(&self) -> (rows: Vec<usize>)
        ensures
            rows@ == kept(self.calls@.len(), self.call_kept()),
    {
        let mut rows: Vec<usize> = Vec::new();
        let mut i: usize = 0;
        while i < self.calls.len()
            invariant
                i <= self.calls@.len(),
                rows@ == kept(i as nat, self.call_kept()),
            decreases self.calls@.len() - i,
        {
            let c = self.calls[i];
            if self.matches(c.site, None) || self.matches(c.target, None) {
                rows.push(i);
            }
            i += 1;
        }
        rows
    }

    /// How many entries the shown index has.
    pub fn count(&self) -> (n: usize)
        ensures
            n == match self.view {
                NavView::Strings => self.strings@.len(),
                NavView::Functions => self.functions@.len(),
                NavView::Calls => self.calls@.len(),
            },
    {
        match self.view {
            NavView::Strings => self.strings.len(),
            NavView::Functions => self.functions.len(),
            NavView::Calls => self.calls.len(),
        }
    }

    /// Where a click on the entry with the given number goes: a string opens the
    /// hex viewer, a function or a call site the disassembler.
    pub fn click(&self, index: usize) -> (a: Option<NavAction>)
        ensures
            a == match self.view {
                NavView::Strings => if index < self.strings@.len() {
                    Some(NavAction::GotoMemory(self.strings@[index as int].addr as usize))
                } else {
                    None
                },
                NavView::Functions => if index < self.functions@.len() {
                    Some(NavAction::GotoDisasm(self.functions@[index as int].addr as usize))
                } else {
                    None
                },
                NavView::Calls => if index < self.calls@.len() {
                    Some(NavAction::GotoDisasm(self.calls@[index as int].site as usize))
                } else {
                    None
                },
            },
    {
        match self.view {
            NavView::Strings => if index < self.strings.len() {
                Some(NavAction::GotoMemory(self.strings[index].addr as usize))
            } else {
                None
            },
            NavView::Functions => if index < self.functions.len() {
                Some(NavAction::GotoDisasm(self.functions[index].addr as usize))
            } else {
                None
            },
            NavView::Calls => if index < self.calls.len() {
                Some(NavAction::GotoDisasm(self.calls[index].site as usize))
            } else {
                None
            },
        }
    }
}

/// What a function without a symbol is called.
pub fn unnamed_function(addr: u64) -> (s: String)
    ensures
        s@ == "sub_"@ + hex_lower(addr as nat),
{
    let mut s = "sub_".to_string();
    let digits = string_of(hex_lower_exec(addr).as_slice());
    s.append(digits.as_str());
    s
}

/// What a filter leaves are entries that pass it, ascending, and it leaves each
/// of them.
pub proof fn filter_is_exact(n: nat, p: spec_fn(int) -> bool, x: usize)
    requires
        n <= usize::MAX,
    ensures
        kept(n, p).contains(x) <==> x < n && p(x as int),
        forall|i: int, j: int| 0 <= i < j < kept(n, p).len() ==> kept(n, p)[i] < kept(n, p)[j],
        forall|i: int| 0 <= i < kept(n, p).len() ==> #[trigger] kept(n, p)[i] < n,
    decreases n,
{
    if n > 0 {
        let rest = kept((n - 1) as nat, p);
        let all = kept(n, p);
        filter_is_exact((n - 1) as nat, p, x);
        if p(n - 1) {
            assert(all == rest.push((n - 1) as usize));
            if rest.contains(x) {
                let i = rest.index_of(x);
                assert(all[i] == x);
            }
            if x == n - 1 {
                assert(all[rest.len() as int] == x);
            }
            if all.contains(x) {
                let i = all.index_of(x);
                if i < rest.len() {
                    assert(rest[i] == x);
                }
            }
        }
    }
}

proof fn lemma_call_of(lists: Seq<XrefList>, i: int, k: int)
    requires
        0 <= i < lists.len(),
        0 <= k < lists[i].from@.len(),
    ensures
        calls_of(lists).contains(NavCall { site: lists[i].from@[k].0, target: lists[i].target }),
    decreases lists.len(),
{
    let c = NavCall { site: lists[i].from@[k].0, target: lists[i].target };
    let all = calls_of(lists);
    let before = calls_of(lists.drop_last());
    if i == lists.len() - 1 {
        assert(all[before.len() + k] == c);
    } else {
        lemma_call_of(lists.drop_last(), i, k);
        let j = before.index_of(c);
        assert(all[j] == c);
    }
}

/// Every call that was found is listed, with the place that it is made from and the
/// function that it goes to.
pub proof fn every_call_is_listed(panel: NavigatorPanel, d: DissectResult, i: int, k: int)
    requires
        panel.lists_of(d),
        0 <= i < d.calls.lists@.len(),
        0 <= k < d.calls.lists@[i].from@.len(),
    ensures
        exists|j: int|
            0 <= j < panel.calls@.len() && (#[trigger] panel.calls@[j]).site
                == d.calls.lists@[i].from@[k].0 && panel.calls@[j].target == d.calls.lists@[i].target,
        panel.functions@[i].addr == d.calls.lists@[i].target,
        forall|a: int, b: int|
            0 <= a < b < panel.calls@.len() ==> (#[trigger] panel.calls@[a]).site <= (
            #[trigger] panel.calls@[b]).site,
{
    let lists = d.calls.lists@;
    let c = NavCall { site: lists[i].from@[k].0, target: lists[i].target };
    lemma_call_of(lists, i, k);
    crate::sort::lemma_sorted_same_elements(calls_of(lists), panel.calls@, c);
    let j = panel.calls@.index_of(c);
    assert(panel.calls@[j] == c);
    assert forall|a: int, b: int| 0 <= a < b < panel.calls@.len() implies (
    #[trigger] panel.calls@[a]).site <= (#[trigger] panel.calls@[b]).site by {
        assert(panel.calls@[a].key_of() <= panel.calls@[b].key_of());
    }
}

/// An entry is found by its whole name, however its letters are cased, and by the
/// digits of its address; without a filter every entry is shown.
pub proof fn entry_is_found_by_its_name(
    filter: Seq<char>,
    addr: u64,
    label: Seq<char>,
)
    ensures
        filter.len() == 0 ==> nav_match(filter, addr, Some(label)) && nav_match(filter, addr, None),
        ascii_lower(filter) == ascii_lower(label) ==> nav_match(filter, addr, Some(label)),
        ascii_lower(filter) == hex_lower(addr as nat) ==> nav_match(filter, addr, None),
        nav_match(filter, addr, None) ==> nav_match(filter, addr, Some(label)),
{
    let l = ascii_lower(label);
    let h = hex_lower(addr as nat);
    assert(l.subrange(0, l.len() as int) =~= l);
    assert(h.subrange(0, h.len() as int) =~= h);
    if ascii_lower(filter) == l {
        assert(l.subrange(0, 0int + l.len()) == ascii_lower(filter));
    }
    if ascii_lower(filter) == h {
        assert(h.subrange(0, 0int + h.len()) == ascii_lower(filter));
    }
}

/// A string is found by what it says, a function by its address, and a call by either of
/// its ends.
pub proof fn entries_are_found_by_what_they_show(panel: NavigatorPanel, i: int)
    ensures
        0 <= i < panel.strings@.len() && ascii_lower(panel.filter@) == ascii_lower(
            panel.strings@[i].preview@,
        ) ==> (panel.string_kept())(i),
        0 <= i < panel.functions@.len() && ascii_lower(panel.filter@) == hex_lower(
            panel.functions@[i].addr as nat,
        ) ==> (panel.function_kept())(i),
        0 <= i < panel.calls@.len() && (ascii_lower(panel.filter@) == hex_lower(
            panel.calls@[i].site as nat,
        ) || ascii_lower(panel.filter@) == hex_lower(panel.calls@[i].target as nat)) ==> (
        panel.call_kept())(i),
{
    if 0 <= i < panel.strings@.len() {
        entry_is_found_by_its_name(panel.filter@, panel.strings@[i].addr, panel.strings@[i].preview@);
    }
    if 0 <= i < panel.functions@.len() {
        entry_is_found_by_its_name(panel.filter@, panel.functions@[i].addr, Seq::empty());
    }
    if 0 <= i < panel.calls@.len() {
        entry_is_found_by_its_name(panel.filter@, panel.calls@[i].site, Seq::empty());
        entry_is_found_by_its_name(panel.filter@, panel.calls@[i].target, Seq::empty());
    }
}

} // verus!

//! The modules panel: which modules are ticked, and what that scopes.
use vstd::prelude::*;
use vstd::string::StringExecFns;

use crate::process_reader::ModuleInfo;
use crate::text::{
    ascii_lower, ascii_lower_exec, chars_of, contains_text, contains_text_exec, decimal, decimal_exec,
    same_str, string_of,
};

verus! {

/// The ticked modules and the name filter.
///
/// `selected` runs parallel to the module list that the panel was last shown;
/// `selected_names` holds the names of the ticked modules, each once. Other
/// panels read the names: their module lists are in another order.
#[derive(Debug)]
pub struct ModulesPanel {
    pub filter: String,
    pub selected: Vec<bool>,
    pub selected_names: Vec<String>,
}

/// `name` is one of `names`.
pub open spec fn has_name(names: Seq<String>, name: Seq<char>) -> bool {
    exists|i: int| 0 <= i < names.len() && (#[trigger] names[i])@ == name
}

/// No two of `names` are the same text.
pub open spec fn distinct_names(names: Seq<String>) -> bool {
    forall|i: int, j: int|
        0 <= i < j < names.len() ==> (#[trigger] names[i])@ != (#[trigger] names[j])@
}

/// The modules whose name is one of `names`, in their order.
pub open spec fn named_modules(modules: Seq<ModuleInfo>, names: Seq<String>) -> Seq<ModuleInfo>
    decreases modules.len(),
{
    if modules.len() == 0 {
        modules
    } else if has_name(names, modules.last().name@) {
        named_modules(modules.drop_last(), names).push(modules.last())
    } else {
        named_modules(modules.drop_last(), names)
    }
}

/// The modules that a selection leaves in scope: all of them where nothing is
/// selected.
pub open spec fn scoped(modules: Seq<ModuleInfo>, names: Seq<String>) -> Seq<ModuleInfo> {
    if names.len() == 0 {
        modules
    } else {
        named_modules(modules, names)
    }
}

/// The line that tells of an active scope; none where nothing is selected.
pub open spec fn scope_line(names: Seq<String>, in_scope: Seq<ModuleInfo>) -> Option<Seq<char>> {
    if names.len() == 0 {
        None
    } else if in_scope.len() == 0 {
        Some(
            "Modules tab: "@ + decimal(names.len())
                + " module(s) selected, none loaded in this process — nothing in scope."@,
        )
    } else if in_scope.len() == 1 {
        Some("Scoped to "@ + in_scope[0].name@ + " (Modules tab)"@)
    } else {
        Some("Scoped to "@ + decimal(in_scope.len()) + " modules (Modules tab)"@)
    }
}

/// A module passes the name filter, in any case of its letters.
pub open spec fn passes_filter(m: ModuleInfo, filter: Seq<char>) -> bool {
    filter.len() == 0 || contains_text(ascii_lower(m.name@), ascii_lower(filter))
}

/// The indices at which `flags` is set, in ascending order.
pub open spec fn set_indices(flags: Seq<bool>) -> Seq<usize>
    decreases flags.len(),
{
    if flags.len() == 0 {
        Seq::empty()
    } else if flags.last() {
        set_indices(flags.drop_last()).push((flags.len() - 1) as usize)
    } else {
        set_indices(flags.drop_last())
    }
}

/// The text names a ticked module.
pub open spec fn names_ticked(
    modules: Seq<ModuleInfo>,
    selected: Seq<bool>,
    name: Seq<char>,
) -> bool {
    exists|i: int|
        0 <= i < modules.len() && i < selected.len() && selected[i] && (
        #[trigger] modules[i]).name@ == name
}

pub fn has_name_exec(names: &Vec<String>, name: &str) -> (r: bool)
    ensures
        r == has_name(names@, name@),
{
    let mut i: usize = 0;
    while i < names.len()
        invariant
            i <= names@.len(),
            forall|j: int| 0 <= j < i ==> (#[trigger] names@[j])@ != name@,
        decreases names@.len() - i,
    {
        if same_str(names[i].as_str(), name) {
            assert(names@[i as int]@ == name@);
            return true;
        }
        i += 1;
    }
    false
}

impl ModulesPanel {
    /// No name is held twice.
    pub open spec fn wf(&self) -> bool {
        distinct_names(self.selected_names@)
    }

    pub fn new() -> (p: Self)
        ensures
            p.wf(),
            p.filter@ == Seq::<char>::empty(),
            p.selected@ == Seq::<bool>::empty(),
            p.selected_names@ == Seq::<String>::empty(),
    {
        ModulesPanel { filter: String::new(), selected: Vec::new(), selected_names: Vec::new() }
    }

    /// Resets the selection for a freshly attached process.
    pub fn on_attach(&mut self, modules: &[ModuleInfo])
        ensures
            final(self).wf(),
            final(self).filter == old(self).filter,
            final(self).selected@ == Seq::new(modules@.len(), |i: int| false),
            final(self).selected_names@ == Seq::<String>::empty(),
    {
        self.selected = vec![false; modules.len()];
        self.selected_names = Vec::new();
        assert(self.selected@ =~= Seq::new(modules@.len(), |i: int| false));
    }

    /// Nothing is ticked or filtered.
    pub open spec fn cleared(&self) -> bool {
        self.filter@.len() == 0 && self.selected@.len() == 0 && self.selected_names@.len() == 0
    }

    pub fn on_detach(&mut self)
        ensures
            final(self).wf(),
            final(self).cleared(),
    {
        self.selected.clear();
        self.selected_names.clear();
        self.filter = String::new();
    }

    /// Narrows `modules` to the ticked ones. An empty selection is no filter; a
    /// selection that matches nothing leaves nothing.
    pub fn scope(&self, modules: &[ModuleInfo]) -> (out: Vec<ModuleInfo>)
        ensures
            out@ == scoped(modules@, self.selected_names@),
    {
        let all = self.selected_names.len() == 0;
        let mut out: Vec<ModuleInfo> = Vec::new();
        let mut i: usize = 0;
        while i < modules.len()
            invariant
                i <= modules@.len(),
                all == (self.selected_names@.len() == 0),
                out@ == scoped(modules@.subrange(0, i as int), self.selected_names@),
            decreases modules@.len() - i,
        {
            assert(modules@.subrange(0, i + 1).drop_last() =~= modules@.subrange(0, i as int));
            assert(modules@.subrange(0, i as int).push(modules@[i as int]) =~= modules@.subrange(
                0,
                i + 1,
            ));
            if all || has_name_exec(&self.selected_names, modules[i].name.as_str()) {
                out.push(modules[i].clone());
            }
            i += 1;
        }
        assert(modules@.subrange(0, modules@.len() as int) =~= modules@);
        out
    }

    /// One line about the active scope, given the list that [`Self::scope`] left.
    pub fn scope_hint(&self, in_scope: &[ModuleInfo]) -> (r: Option<String>)
        ensures
            match r {
                Some(line) => scope_line(self.selected_names@, in_scope@) == Some(line@),
                None => scope_line(self.selected_names@, in_scope@) is None,
            },
    {
        if self.selected_names.len() == 0 {
            return None;
        }
        if in_scope.len() == 0 {
            let mut line = "Modules tab: ".to_string();
            let n = string_of(decimal_exec(self.selected_names.len() as u64).as_slice());
            line.append(n.as_str());
            line.append(" module(s) selected, none loaded in this process — nothing in scope.");
            return Some(line);
        }
        let mut line = "Scoped to ".to_string();
        if in_scope.len() == 1 {
            line.append(in_scope[0].name.as_str());
            line.append(" (Modules tab)");
        } else {
            let n = string_of(decimal_exec(in_scope.len() as u64).as_slice());
            line.append(n.as_str());
            line.append(" modules (Modules tab)");
        }
        Some(line)
    }

    /// Brings the ticks in step with a module list of another length: ticks
    /// beyond its end are dropped, new modules start unticked.
    pub fn sync(&mut self, modules: &[ModuleInfo])
        ensures
            final(self).filter == old(self).filter,
            final(self).selected_names == old(self).selected_names,
            final(self).selected@ == Seq::new(
                modules@.len(),
                |i: int| i < old(self).selected@.len() && old(self).selected@[i],
            ),
    {
        let n: usize = modules.len();
        self.selected.truncate(n);
        let ghost kept = self.selected@;
        while self.selected.len() < n
            invariant
                kept.len() <= self.selected@.len() <= n,
                kept == self.selected@.subrange(0, kept.len() as int),
                forall|j: int|
                    kept.len() <= j < self.selected@.len() ==> !(#[trigger] self.selected@[j]),
                self.filter == old(self).filter,
                self.selected_names == old(self).selected_names,
            decreases n - self.selected@.len(),
        {
            self.selected.push(false);
            assert(kept =~= self.selected@.subrange(0, kept.len() as int));
        }
        assert forall|j: int| 0 <= j < kept.len() implies self.selected@[j] == old(self).selected@[j] by {
            assert(kept[j] == self.selected@[j]);
        }
        assert(self.selected@ =~= Seq::new(
            modules@.len(),
            |i: int| i < old(self).selected@.len() && old(self).selected@[i],
        ));
    }

    /// Whether a module passes the name filter.
    pub fn is_visible(&self, m: &ModuleInfo) -> (r: bool)
        ensures
            r == passes_filter(*m, self.filter@),
    {
        let f = chars_of(self.filter.as_str());
        if f.len() == 0 {
            return true;
        }
        let name = chars_of(m.name.as_str());
        let low_name = ascii_lower_exec(name.as_slice());
        let low_filter = ascii_lower_exec(f.as_slice());
        contains_text_exec(low_name.as_slice(), low_filter.as_slice())
    }

    /// Whether the box "Select all" shows a tick: something is visible, and all
    /// of it is ticked.
    pub fn all_visible_selected(&self, modules: &[ModuleInfo]) -> (r: bool)
        requires
            self.selected@.len() == modules@.len(),
        ensures
            r == ((exists|i: int|
                0 <= i < modules@.len() && passes_filter(#[trigger] modules@[i], self.filter@))
                && (forall|i: int|
                0 <= i < modules@.len() && passes_filter(#[trigger] modules@[i], self.filter@)
                    ==> self.selected@[i])),
    {
        let mut any = false;
        let mut i: usize = 0;
        while i < modules.len()
            invariant
                i <= modules@.len(),
                self.selected@.len() == modules@.len(),
                any == (exists|j: int|
                    0 <= j < i && passes_filter(#[trigger] modules@[j], self.filter@)),
                forall|j: int|
                    0 <= j < i && passes_filter(#[trigger] modules@[j], self.filter@)
                        ==> self.selected@[j],
            decreases modules@.len() - i,
        {
            if self.is_visible(&modules[i]) {
                assert(passes_filter(modules@[i as int], self.filter@));
                any = true;
                if !self.selected[i] {
                    return false;
                }
            }
            i += 1;
        }
        any
    }

    /// Ticks or unticks every visible module.
    pub fn select_visible(&mut self, modules: &[ModuleInfo], on: bool)
        requires
            old(self).selected@.len() == modules@.len(),
        ensures
            final(self).filter == old(self).filter,
            final(self).selected_names == old(self).selected_names,
            final(self).selected@ == Seq::new(
                modules@.len(),
                |i: int|
                    if passes_filter(modules@[i], old(self).filter@) {
                        on
                    } else {
                        old(self).selected@[i]
                    },
            ),
    {
        let mut i: usize = 0;
        while i < modules.len()
            invariant
                i <= modules@.len(),
                self.selected@.len() == modules@.len(),
                old(self).selected@.len() == modules@.len(),
                self.filter == old(self).filter,
                self.selected_names == old(self).selected_names,
                forall|j: int|
                    0 <= j < i ==> self.selected@[j] == (if passes_filter(
                        modules@[j],
                        old(self).filter@,
                    ) {
                        on
                    } else {
                        old(self).selected@[j]
                    }),
                forall|j: int| i <= j < modules@.len() ==> self.selected@[j] == old(self).selected@[j],
            decreases modules@.len() - i,
        {
            if self.is_visible(&modules[i]) {
                self.selected.set(i, on);
            }
            i += 1;
        }
        assert(self.selected@ =~= Seq::new(
            modules@.len(),
            |i: int|
                if passes_filter(modules@[i], old(self).filter@) {
                    on
                } else {
                    old(self).selected@[i]
                },
        ));
    }

    /// Unticks every module.
    pub fn clear_selection(&mut self)
        ensures
            final(self).filter == old(self).filter,
            final(self).selected_names == old(self).selected_names,
            final(self).selected@ == Seq::new(old(self).selected@.len(), |i: int| false),
    {
        self.selected = vec![false; self.selected.len()];
        assert(self.selected@ =~= Seq::new(old(self).selected@.len(), |i: int| false));
    }

    /// Ticks or unticks one module.
    pub fn set_selected(&mut self, index: usize, on: bool)
        requires
            index < old(self).selected@.len(),
        ensures
            final(self).filter == old(self).filter,
            final(self).selected_names == old(self).selected_names,
            final(self).selected@ == old(self).selected@.update(index as int, on),
    {
        self.selected.set(index, on);
    }

    /// Mirrors the ticks into the name list.
    pub fn refresh_names(&mut self, modules: &[ModuleInfo])
        ensures
            final(self).wf(),
            final(self).filter == old(self).filter,
            final(self).selected == old(self).selected,
            forall|name: Seq<char>| #[trigger]
                has_name(final(self).selected_names@, name) <==> names_ticked(
                    modules@,
                    old(self).selected@,
                    name,
                ),
    {
        let mut names: Vec<String> = Vec::new();
        let mut i: usize = 0;
        while i < modules.len() && i < self.selected.len()
            invariant
                i <= modules@.len(),
                i <= self.selected@.len(),
                self.filter == old(self).filter,
                self.selected == old(self).selected,
                distinct_names(names@),
                forall|name: Seq<char>| #[trigger]
                    has_name(names@, name) <==> exists|j: int|
                        0 <= j < i && self.selected@[j] && (#[trigger] modules@[j]).name@ == name,
            decreases modules@.len() - i,
        {
            if self.selected[i] {
                let known = has_name_exec(&names, modules[i].name.as_str());
                let ghost before = names@;
                if !known {
                    names.push(modules[i].name.clone());
                }
                proof {
                    let added = modules@[i as int].name@;
                    assert forall|name: Seq<char>| #[trigger]
                        has_name(names@, name) <==> exists|j: int|
                            0 <= j < i + 1 && self.selected@[j] && (
                            #[trigger] modules@[j]).name@ == name by {
                        assert(has_name(before, name) <==> exists|j: int|
                            0 <= j < i && self.selected@[j] && (
                            #[trigger] modules@[j]).name@ == name);
                        if has_name(before, name) {
                            let k = choose|k: int|
                                0 <= k < before.len() && (#[trigger] before[k])@ == name;
                            assert(names@[k]@ == name);
                        }
                        if name == added {
                            if known {
                                assert(has_name(before, added));
                            } else {
                                assert(names@[before.len() as int]@ == name);
                            }
                            assert(modules@[i as int].name@ == name);
                        }
                        if has_name(names@, name) && name != added {
                            let k = choose|k: int|
                                0 <= k < names@.len() && (#[trigger] names@[k])@ == name;
                            assert(before[k]@ == name);
                        }
                    }
                    assert forall|a: int, b: int| 0 <= a < b < names@.len() implies (
                    #[trigger] names@[a])@ != (#[trigger] names@[b])@ by {
                        if b == before.len() {
                            assert(before[a]@ != added) by {
                                assert(!has_name(before, added));
                            }
                        } else {
                            assert(before[a]@ != before[b]@);
                        }
                    }
                }
            }
            i += 1;
        }
        assert forall|name: Seq<char>| #[trigger]
            has_name(names@, name) <==> names_ticked(modules@, self.selected@, name) by {}
        self.selected_names = names;
    }

    /// The indices of the ticked modules, ascending.
    pub fn selected_indices(&self) -> (out: Vec<usize>)
        ensures
            out@ == set_indices(self.selected@),
    {
        let mut out: Vec<usize> = Vec::new();
        let mut i: usize = 0;
        while i < self.selected.len()
            invariant
                i <= self.selected@.len(),
                out@ == set_indices(self.selected@.subrange(0, i as int)),
            decreases self.selected@.len() - i,
        {
            assert(self.selected@.subrange(0, i + 1).drop_last() =~= self.selected@.subrange(
                0,
                i as int,
            ));
            if self.selected[i] {
                out.push(i);
            }
            i += 1;
        }
        assert(self.selected@.subrange(0, self.selected@.len() as int) =~= self.selected@);
        out
    }
}

/// Someone who ticks nothing gets every module.
pub proof fn empty_selection_scopes_everything(modules: Seq<ModuleInfo>)
    ensures
        scoped(modules, Seq::empty()) == modules,
        scope_line(Seq::empty(), modules) is None,
{
}

/// A selection never widens: what it leaves in scope are modules of the list
/// whose names are selected, and it leaves each of those.
pub proof fn selection_narrows_by_name(modules: Seq<ModuleInfo>, names: Seq<String>, m: ModuleInfo)
    requires
        names.len() > 0,
    ensures
        scoped(modules, names).contains(m) <==> modules.contains(m) && has_name(names, m.name@),
    decreases modules.len(),
{
    if modules.len() > 0 {
        let rest = modules.drop_last();
        selection_narrows_by_name(rest, names, m);
        assert(modules =~= rest.push(modules.last()));
        let inner = named_modules(rest, names);
        let outer = named_modules(modules, names);
        if has_name(names, modules.last().name@) {
            assert(outer == inner.push(modules.last()));
            assert(outer.contains(m) <==> inner.contains(m) || m == modules.last()) by {
                if inner.contains(m) {
                    let i = inner.index_of(m);
                    assert(outer[i] == m);
                }
                if m == modules.last() {
                    assert(outer[inner.len() as int] == m);
                }
                if outer.contains(m) {
                    let i = outer.index_of(m);
                    if i < inner.len() {
                        assert(inner[i] == m);
                    }
                }
            }
        }
        assert(modules.contains(m) <==> rest.contains(m) || m == modules.last()) by {
            if rest.contains(m) {
                let i = rest.index_of(m);
                assert(modules[i] == m);
            }
            if m == modules.last() {
                assert(modules[modules.len() - 1] == m);
            }
            if modules.contains(m) {
                let i = modules.index_of(m);
                if i < rest.len() {
                    assert(rest[i] == m);
                }
            }
        }
    }
}

/// After a detach the next process starts unscoped.
pub proof fn detach_drops_the_scope(panel: ModulesPanel, modules: Seq<ModuleInfo>)
    requires
        panel.selected_names@ == Seq::<String>::empty(),
    ensures
        scoped(modules, panel.selected_names@) == modules,
        scope_line(panel.selected_names@, modules) is None,
{
}

/// The modules that are picked are those that are ticked, in their order.
pub proof fn ticked_modules_are_picked(flags: Seq<bool>, x: usize)
    requires
        flags.len() <= usize::MAX,
    ensures
        set_indices(flags).contains(x) <==> x < flags.len() && flags[x as int],
        forall|i: int, j: int|
            0 <= i < j < set_indices(flags).len() ==> set_indices(flags)[i] < set_indices(flags)[j],
        forall|i: int|
            0 <= i < set_indices(flags).len() ==> #[trigger] set_indices(flags)[i] < flags.len(),
    decreases flags.len(),
{
    if flags.len() > 0 {
        let rest = flags.drop_last();
        let before = set_indices(rest);
        let all = set_indices(flags);
        ticked_modules_are_picked(rest, x);
        if before.contains(x) {
            let i = before.index_of(x);
            assert(all[i] == x);
        }
        if flags.last() && x == flags.len() - 1 {
            assert(all[before.len() as int] == x);
        }
        if all.contains(x) {
            let i = all.index_of(x);
            if i < before.len() {
                assert(before[i] == x);
            }
        }
    }
}

/// A module is found by its whole name, however its letters are cased.
pub proof fn module_is_found_by_its_name(m: ModuleInfo, filter: Seq<char>)
    requires
        ascii_lower(filter) == ascii_lower(m.name@) || filter.len() == 0,
    ensures
        passes_filter(m, filter),
{
    let l = ascii_lower(m.name@);
    assert(l.subrange(0, l.len() as int) =~= l);
    if filter.len() > 0 {
        assert(l.subrange(0, 0int + ascii_lower(filter).len()) == ascii_lower(filter));
    }
}

} // verus!

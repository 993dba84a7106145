//! Cross-references that a dissect of code found, and their merging.
use vstd::prelude::*;

use crate::sort::{lemma_sorted_same_elements, sort_by_key, sorted_by_key, Keyed};

verus! {

/// A code address.
#[derive(Clone, Copy, Debug, PartialEq, Eq, Structural)]
pub struct Site(pub u64);

impl Keyed for Site {
    open spec fn key_of(self) -> u64 {
        self.0
    }

    fn key(&self) -> (k: u64) {
        self.0
    }
}

/// The sites that refer to one target.
#[derive(Debug)]
pub struct XrefList {
    pub target: u64,
    pub from: Vec<Site>,
}

/// The referring sites of each target, ascending by target.
#[derive(Debug)]
pub struct XrefMap {
    pub lists: Vec<XrefList>,
}

/// The sites that `lists` holds for `target`.
pub open spec fn sites_of(lists: Seq<XrefList>, target: u64) -> Option<Seq<Site>>
    decreases lists.len(),
{
    if lists.len() == 0 {
        None
    } else if lists.last().target == target {
        Some(lists.last().from@)
    } else {
        sites_of(lists.drop_last(), target)
    }
}

/// Targets ascend, each held once.
pub open spec fn targets_ascend(lists: Seq<XrefList>) -> bool {
    forall|i: int, j: int|
        0 <= i < j < lists.len() ==> (#[trigger] lists[i]).target < (#[trigger] lists[j]).target
}

/// No site twice, in ascending order.
pub open spec fn ascending(s: Seq<Site>) -> bool {
    forall|i: int, j: int| 0 <= i < j < s.len() ==> (#[trigger] s[i]).0 < (#[trigger] s[j]).0
}

/// Two lists of sites for one target, one behind the other.
pub open spec fn joined(a: Option<Seq<Site>>, b: Option<Seq<Site>>) -> Option<Seq<Site>> {
    match (a, b) {
        (None, b) => b,
        (a, None) => a,
        (Some(x), Some(y)) => Some(x + y),
    }
}

proof fn lemma_sites_at(lists: Seq<XrefList>, i: int)
    requires
        targets_ascend(lists),
        0 <= i < lists.len(),
    ensures
        sites_of(lists, lists[i].target) == Some(lists[i].from@),
    decreases lists.len(),
{
    if i < lists.len() - 1 {
        assert(lists[i].target < lists[lists.len() - 1].target);
        lemma_sites_at(lists.drop_last(), i);
    }
}

proof fn lemma_sites_none(lists: Seq<XrefList>, target: u64)
    requires
        forall|i: int| 0 <= i < lists.len() ==> (#[trigger] lists[i]).target != target,
    ensures
        sites_of(lists, target) is None,
    decreases lists.len(),
{
    if lists.len() > 0 {
        lemma_sites_none(lists.drop_last(), target);
    }
}

proof fn lemma_sites_some(lists: Seq<XrefList>, target: u64)
    requires
        sites_of(lists, target) is Some,
    ensures
        exists|i: int|
            0 <= i < lists.len() && (#[trigger] lists[i]).target == target && sites_of(
                lists,
                target,
            ) == Some(lists[i].from@),
    decreases lists.len(),
{
    if lists.last().target == target {
        assert(lists[lists.len() - 1].target == target);
    } else {
        lemma_sites_some(lists.drop_last(), target);
        let r = lists.drop_last();
        let i = choose|i: int|
            0 <= i < r.len() && (#[trigger] r[i]).target == target && sites_of(r, target) == Some(
                r[i].from@,
            );
        assert(lists[i].target == target);
    }
}

impl XrefMap {
    pub open spec fn wf(&self) -> bool {
        targets_ascend(self.lists@)
    }

    /// The sites that refer to `target`.
    pub open spec fn at(&self, target: u64) -> Option<Seq<Site>> {
        sites_of(self.lists@, target)
    }

    pub fn new() -> (m: Self)
        ensures
            m.wf(),
            m.lists@.len() == 0,
            forall|k: u64| #[trigger] m.at(k) is None,
    {
        XrefMap { lists: Vec::new() }
    }

    /// The index of the first list whose target is not below `target`.
    fn position(&self, target: u64) -> (i: usize)
        requires
            self.wf(),
        ensures
            i <= self.lists@.len(),
            forall|j: int| 0 <= j < i ==> (#[trigger] self.lists@[j]).target < target,
            forall|j: int| i <= j < self.lists@.len() ==> (#[trigger] self.lists@[j]).target >= target,
    {
        let mut lo: usize = 0;
        let mut hi: usize = self.lists.len();
        while lo < hi
            invariant
                lo <= hi <= self.lists@.len(),
                self.wf(),
                forall|j: int| 0 <= j < lo ==> (#[trigger] self.lists@[j]).target < target,
                forall|j: int|
                    hi <= j < self.lists@.len() ==> (#[trigger] self.lists@[j]).target >= target,
            decreases hi - lo,
        {
            let mid: usize = lo + (hi - lo) / 2;
            if self.lists[mid].target < target {
                lo = mid + 1;
            } else {
                hi = mid;
            }
        }
        lo
    }

    /// The sites that refer to `target`, if it is known.
    pub fn get(&self, target: u64) -> (r: Option<&Vec<Site>>)
        requires
            self.wf(),
        ensures
            match r {
                Some(v) => self.at(target) == Some(v@),
                None => self.at(target) is None,
            },
    {
        let i: usize = self.position(target);
        if i < self.lists.len() && self.lists[i].target == target {
            proof {
                lemma_sites_at(self.lists@, i as int);
            }
            Some(&self.lists[i].from)
        } else {
            proof {
                assert forall|j: int| 0 <= j < self.lists@.len() implies (
                #[trigger] self.lists@[j]).target != target by {
                    if i < j {
                        assert(self.lists@[i as int].target < self.lists@[j].target);
                    }
                }
                lemma_sites_none(self.lists@, target);
            }
            None
        }
    }

    /// Puts `sites` behind the sites that are known for `target`.
    pub fn append(&mut self, target: u64, sites: Vec<Site>)
        requires
            old(self).wf(),
        ensures
            final(self).wf(),
            forall|k: u64| #[trigger]
                final(self).at(k) == if k == target {
                    joined(old(self).at(target), Some(sites@))
                } else {
                    old(self).at(k)
                },
    {
        let i: usize = self.position(target);
        let ghost before = self.lists@;
        if i < self.lists.len() && self.lists[i].target == target {
            let mut list = self.lists.remove(i);
            let ghost was = list.from@;
            let mut more = sites;
            list.from.append(&mut more);
            self.lists.insert(i, list);
            proof {
                let after = self.lists@;
                assert(after =~= before.update(i as int, after[i as int]));
                assert(after[i as int].from@ == was + sites@);
                assert(targets_ascend(after));
                assert forall|k: u64| #[trigger] self.at(k) == (if k == target {
                    joined(old(self).at(target), Some(sites@))
                } else {
                    old(self).at(k)
                }) by {
                    lemma_sites_update(before, after, i as int, k);
                }
            }
        } else {
            self.lists.insert(i, XrefList { target, from: sites });
            proof {
                let after = self.lists@;
                assert forall|a: int, b: int| 0 <= a < b < after.len() implies (
                #[trigger] after[a]).target < (#[trigger] after[b]).target by {
                    if a < i && b > i {
                        assert(before[a].target < before[b - 1].target);
                    } else if a == i {
                        assert(before[b - 1].target >= target);
                        assert(before[i as int].target <= before[b - 1].target);
                    } else if a > i {
                        assert(before[a - 1].target < before[b - 1].target);
                    }
                }
                assert forall|k: u64| #[trigger] self.at(k) == (if k == target {
                    joined(old(self).at(target), Some(sites@))
                } else {
                    old(self).at(k)
                }) by {
                    if k == target {
                        lemma_sites_at(after, i as int);
                        assert forall|j: int| 0 <= j < before.len() implies (
                        #[trigger] before[j]).target != target by {
                            if i < j {
                                assert(before[i as int].target < before[j].target);
                            }
                        }
                        lemma_sites_none(before, target);
                    } else {
                        lemma_sites_insert(before, after, i as int, k);
                    }
                }
            }
        }
    }
}

proof fn lemma_sites_update(before: Seq<XrefList>, after: Seq<XrefList>, i: int, k: u64)
    requires
        0 <= i < before.len(),
        after == before.update(i, after[i]),
        after[i].target == before[i].target,
        targets_ascend(before),
        targets_ascend(after),
    ensures
        sites_of(after, k) == if k == before[i].target {
            Some(after[i].from@)
        } else {
            sites_of(before, k)
        },
        k == before[i].target ==> sites_of(before, k) == Some(before[i].from@),
{
    if k == before[i].target {
        lemma_sites_at(after, i);
        lemma_sites_at(before, i);
    } else if sites_of(before, k) is Some {
        lemma_sites_some(before, k);
        let j = choose|j: int|
            0 <= j < before.len() && (#[trigger] before[j]).target == k && sites_of(before, k)
                == Some(before[j].from@);
        lemma_sites_at(after, j);
    } else if sites_of(after, k) is Some {
        lemma_sites_some(after, k);
        let j = choose|j: int|
            0 <= j < after.len() && (#[trigger] after[j]).target == k && sites_of(after, k) == Some(
                after[j].from@,
            );
        lemma_sites_at(before, j);
    }
}

proof fn lemma_sites_insert(before: Seq<XrefList>, after: Seq<XrefList>, i: int, k: u64)
    requires
        0 <= i <= before.len(),
        after == before.insert(i, after[i]),
        k != after[i].target,
        targets_ascend(before),
        targets_ascend(after),
    ensures
        sites_of(after, k) == sites_of(before, k),
{
    if sites_of(before, k) is Some {
        lemma_sites_some(before, k);
        let j = choose|j: int|
            0 <= j < before.len() && (#[trigger] before[j]).target == k && sites_of(before, k)
                == Some(before[j].from@);
        if j < i {
            assert(after[j] == before[j]);
            lemma_sites_at(after, j);
        } else {
            assert(after[j + 1] == before[j]);
            lemma_sites_at(after, j + 1);
        }
    } else if sites_of(after, k) is Some {
        lemma_sites_some(after, k);
        let j = choose|j: int|
            0 <= j < after.len() && (#[trigger] after[j]).target == k && sites_of(after, k) == Some(
                after[j].from@,
            );
        if j < i {
            assert(before[j] == after[j]);
            lemma_sites_at(before, j);
        } else {
            assert(before[j - 1] == after[j]);
            lemma_sites_at(before, j - 1);
        }
    }
}

/// Sorts sites and drops repeated ones.
pub fn sorted_unique(s: &[Site]) -> (out: Vec<Site>)
    ensures
        ascending(out@),
        forall|x: Site| #[trigger] out@.contains(x) <==> s@.contains(x),
{
    let sorted = sort_by_key(s);
    let mut out: Vec<Site> = Vec::new();
    let mut i: usize = 0;
    while i < sorted.len()
        invariant
            i <= sorted@.len(),
            sorted_by_key(sorted@),
            ascending(out@),
            i > 0 ==> out@.len() > 0 && out@.last() == sorted@[i - 1],
            i == 0 ==> out@.len() == 0,
            forall|x: Site| #[trigger]
                out@.contains(x) <==> sorted@.subrange(0, i as int).contains(x),
        decreases sorted@.len() - i,
    {
        let x = sorted[i];
        let ghost before = out@;
        let ghost seen = sorted@.subrange(0, i as int);
        let ghost next = sorted@.subrange(0, i + 1);
        let repeated = out.len() > 0 && out[out.len() - 1].0 == x.0;
        if !repeated {
            out.push(x);
        }
        proof {
            assert(next =~= seen.push(x));
            if i > 0 {
                assert(sorted@[i - 1].key_of() <= sorted@[i as int].key_of());
            }
            assert forall|y: Site| #[trigger] out@.contains(y) <==> next.contains(y) by {
                assert(before.contains(y) <==> seen.contains(y));
                if seen.contains(y) {
                    let j = seen.index_of(y);
                    assert(next[j] == y);
                }
                if before.contains(y) {
                    let j = before.index_of(y);
                    assert(out@[j] == y);
                }
                if y == x {
                    assert(next[i as int] == y);
                    assert(out@[out@.len() - 1] == y);
                }
                if out@.contains(y) && y != x {
                    let j = out@.index_of(y);
                    assert(before[j] == y);
                }
                if next.contains(y) && y != x {
                    let j = next.index_of(y);
                    assert(seen[j] == y);
                }
            }
        }
        i += 1;
    }
    proof {
        assert(sorted@.subrange(0, sorted@.len() as int) =~= sorted@);
        assert forall|x: Site| #[trigger] out@.contains(x) <==> s@.contains(x) by {
            lemma_sorted_same_elements(s@, sorted@, x);
            assert(out@.contains(x) <==> sorted@.contains(x));
        }
    }
    out
}

/// The text found at an address.
#[derive(Debug)]
pub struct Preview {
    pub addr: u64,
    pub text: String,
}

/// What a dissect found: calls, jumps and string references by target, and a
/// preview of each string. Of several previews of an address the last counts.
#[derive(Debug)]
pub struct DissectResult {
    pub calls: XrefMap,
    pub jumps: XrefMap,
    pub strings: XrefMap,
    pub string_previews: Vec<Preview>,
}

/// The preview of the string at `addr`.
pub open spec fn preview_of(previews: Seq<Preview>, addr: u64) -> Option<Seq<char>>
    decreases previews.len(),
{
    if previews.len() == 0 {
        None
    } else if previews.last().addr == addr {
        Some(previews.last().text@)
    } else {
        preview_of(previews.drop_last(), addr)
    }
}

proof fn lemma_preview_concat(a: Seq<Preview>, b: Seq<Preview>, addr: u64)
    ensures
        preview_of(a + b, addr) == match preview_of(b, addr) {
            Some(t) => Some(t),
            None => preview_of(a, addr),
        },
    decreases b.len(),
{
    if b.len() == 0 {
        assert(a + b =~= a);
    } else {
        assert((a + b).drop_last() =~= a + b.drop_last());
        lemma_preview_concat(a, b.drop_last(), addr);
    }
}

impl DissectResult {
    pub open spec fn wf(&self) -> bool {
        self.calls.wf() && self.jumps.wf() && self.strings.wf()
    }

    pub fn new() -> (d: Self)
        ensures
            d.wf(),
            forall|k: u64| #[trigger] d.calls.at(k) is None,
            forall|k: u64| #[trigger] d.jumps.at(k) is None,
            forall|k: u64| #[trigger] d.strings.at(k) is None,
            d.string_previews@.len() == 0,
            d.calls.lists@.len() == 0,
            d.jumps.lists@.len() == 0,
            d.strings.lists@.len() == 0,
    {
        DissectResult {
            calls: XrefMap::new(),
            jumps: XrefMap::new(),
            strings: XrefMap::new(),
            string_previews: Vec::new(),
        }
    }

    /// The preview of the string at `addr`.
    pub fn preview(&self, addr: u64) -> (r: Option<&String>)
        ensures
            match r {
                Some(t) => preview_of(self.string_previews@, addr) == Some(t@),
                None => preview_of(self.string_previews@, addr) is None,
            },
    {
        let mut n: usize = self.string_previews.len();
        assert(self.string_previews@.subrange(0, n as int) =~= self.string_previews@);
        while n > 0
            invariant
                n <= self.string_previews@.len(),
                preview_of(self.string_previews@, addr) == preview_of(
                    self.string_previews@.subrange(0, n as int),
                    addr,
                ),
            decreases n,
        {
            assert(self.string_previews@.subrange(0, n as int).drop_last()
                =~= self.string_previews@.subrange(0, n - 1));
            if self.string_previews[n - 1].addr == addr {
                return Some(&self.string_previews[n - 1].text);
            }
            n -= 1;
        }
        None
    }
}

/// Every list of `from` behind the list that `into` has for the same target.
fn merge_map(into: &mut XrefMap, from: XrefMap)
    requires
        old(into).wf(),
        from.wf(),
    ensures
        final(into).wf(),
        forall|k: u64| #[trigger] final(into).at(k) == joined(old(into).at(k), from.at(k)),
{
    let mut rest = from;
    let ghost start = into.lists@;
    proof {
        assert forall|k: u64| #[trigger] sites_of(Seq::<XrefList>::empty(), k) is None by {}
    }
    // Lists are taken from the end, so what is still to come has smaller targets.
    while rest.lists.len() > 0
        invariant
            into.wf(),
            rest.wf(),
            from.wf(),
            rest.lists@.len() <= from.lists@.len(),
            rest.lists@ == from.lists@.subrange(0, rest.lists@.len() as int),
            forall|k: u64| #[trigger]
                into.at(k) == joined(
                    old(into).at(k),
                    sites_of(
                        from.lists@.subrange(rest.lists@.len() as int, from.lists@.len() as int),
                        k,
                    ),
                ),
        decreases rest.lists@.len(),
    {
        let ghost n = rest.lists@.len() as int;
        let ghost done = from.lists@.subrange(n, from.lists@.len() as int);
        let ghost more = from.lists@.subrange(n - 1, from.lists@.len() as int);
        let ghost before = *into;
        let list = rest.lists.pop().unwrap();
        let target: u64 = list.target;
        let ghost sites = list.from@;
        proof {
            assert(from.lists@[n - 1] == list);
            assert(more =~= seq![list] + done);
            assert forall|k: u64| #[trigger] sites_of(more, k) == (if k == target {
                Some(sites)
            } else {
                sites_of(done, k)
            }) by {
                lemma_sites_cons(list, done, k);
                if k == target {
                    assert forall|j: int| 0 <= j < done.len() implies (
                    #[trigger] done[j]).target != target by {
                        assert(from.lists@[n - 1].target < from.lists@[n + j].target);
                    }
                    lemma_sites_none(done, target);
                }
            }
        }
        into.append(target, list.from);
        proof {
            assert forall|k: u64| #[trigger] into.at(k) == joined(
                old(into).at(k),
                sites_of(more, k),
            ) by {
                assert(before.at(k) == joined(old(into).at(k), sites_of(done, k)));
                assert(sites_of(more, k) == (if k == target {
                    Some(sites)
                } else {
                    sites_of(done, k)
                }));
                if k == target {
                    assert forall|j: int| 0 <= j < done.len() implies (
                    #[trigger] done[j]).target != target by {
                        assert(from.lists@[n - 1].target < from.lists@[n + j].target);
                    }
                    lemma_sites_none(done, target);
                }
            }
        }
    }
    assert(from.lists@.subrange(0, from.lists@.len() as int) =~= from.lists@);
}

proof fn lemma_sites_cons(head: XrefList, tail: Seq<XrefList>, k: u64)
    ensures
        sites_of(seq![head] + tail, k) == match sites_of(tail, k) {
            Some(s) => Some(s),
            None => if head.target == k {
                Some(head.from@)
            } else {
                None
            },
        },
    decreases tail.len(),
{
    let whole = seq![head] + tail;
    if tail.len() == 0 {
        assert(whole.drop_last() =~= Seq::<XrefList>::empty());
        assert(sites_of(Seq::<XrefList>::empty(), k) is None);
    } else {
        assert(whole.drop_last() =~= seq![head] + tail.drop_last());
        lemma_sites_cons(head, tail.drop_last(), k);
    }
}

/// Folds the cross-references of `from` into `into`: the sites of a target one
/// behind the other, a preview of `from` in place of an earlier one.
pub fn merge_dissect(into: &mut DissectResult, from: DissectResult)
    requires
        old(into).wf(),
        from.wf(),
    ensures
        final(into).wf(),
        forall|k: u64| #[trigger]
            final(into).calls.at(k) == joined(old(into).calls.at(k), from.calls.at(k)),
        forall|k: u64| #[trigger]
            final(into).jumps.at(k) == joined(old(into).jumps.at(k), from.jumps.at(k)),
        forall|k: u64| #[trigger]
            final(into).strings.at(k) == joined(old(into).strings.at(k), from.strings.at(k)),
        forall|k: u64| #[trigger]
            preview_of(final(into).string_previews@, k) == match preview_of(
                from.string_previews@,
                k,
            ) {
                Some(t) => Some(t),
                None => preview_of(old(into).string_previews@, k),
            },
{
    let ghost was = into.string_previews@;
    let ghost came = from.string_previews@;
    merge_map(&mut into.calls, from.calls);
    merge_map(&mut into.jumps, from.jumps);
    merge_map(&mut into.strings, from.strings);
    let mut previews = from.string_previews;
    into.string_previews.append(&mut previews);
    proof {
        assert forall|k: u64| #[trigger] preview_of(into.string_previews@, k) == (match preview_of(
            came,
            k,
        ) {
            Some(t) => Some(t),
            None => preview_of(was, k),
        }) by {
            lemma_preview_concat(was, came, k);
        }
    }
}

/// `out` holds for each target the sites of `s`, ascending and each once.
pub open spec fn normalised(s: XrefMap, out: XrefMap) -> bool {
    &&& out.wf()
    &&& forall|k: u64| #[trigger] out.at(k) is Some <==> s.at(k) is Some
    &&& forall|k: u64| #[trigger]
        out.at(k) is Some ==> ascending(out.at(k)->0) && forall|x: Site| #[trigger]
            out.at(k)->0.contains(x) <==> s.at(k)->0.contains(x)
}

fn normalise_map(map: &XrefMap) -> (out: XrefMap)
    requires
        map.wf(),
    ensures
        normalised(*map, out),
{
    let mut lists: Vec<XrefList> = Vec::new();
    let mut i: usize = 0;
    while i < map.lists.len()
        invariant
            i <= map.lists@.len(),
            map.wf(),
            lists@.len() == i,
            forall|j: int|
                0 <= j < i ==> (#[trigger] lists@[j]).target == map.lists@[j].target && ascending(
                    lists@[j].from@,
                ) && forall|x: Site| #[trigger]
                    lists@[j].from@.contains(x) <==> map.lists@[j].from@.contains(x),
        decreases map.lists@.len() - i,
    {
        let from = sorted_unique(map.lists[i].from.as_slice());
        lists.push(XrefList { target: map.lists[i].target, from });
        i += 1;
    }
    let out = XrefMap { lists };
    proof {
        assert forall|a: int, b: int| 0 <= a < b < out.lists@.len() implies (
        #[trigger] out.lists@[a]).target < (#[trigger] out.lists@[b]).target by {
            assert(map.lists@[a].target < map.lists@[b].target);
        }
        assert forall|k: u64| #[trigger] out.at(k) is Some <==> map.at(k) is Some by {
            if out.at(k) is Some {
                lemma_sites_some(out.lists@, k);
                let j = choose|j: int|
                    0 <= j < out.lists@.len() && (#[trigger] out.lists@[j]).target == k;
                lemma_sites_at(map.lists@, j);
            }
            if map.at(k) is Some {
                lemma_sites_some(map.lists@, k);
                let j = choose|j: int|
                    0 <= j < map.lists@.len() && (#[trigger] map.lists@[j]).target == k;
                lemma_sites_at(out.lists@, j);
                assert(out.lists@[j].target == k);
            }
        }
        assert forall|k: u64| #[trigger] out.at(k) is Some implies ascending(out.at(k)->0)
            && forall|x: Site| #[trigger]
            out.at(k)->0.contains(x) <==> map.at(k)->0.contains(x) by {
            lemma_sites_some(out.lists@, k);
            let j = choose|j: int|
                0 <= j < out.lists@.len() && (#[trigger] out.lists@[j]).target == k && sites_of(
                    out.lists@,
                    k,
                ) == Some(out.lists@[j].from@);
            lemma_sites_at(map.lists@, j);
        }
    }
    out
}

/// The first failure among the dissects of several modules; else their merge,
/// the sites of each target ascending and each once.
pub fn compute_dissect_many(parts: Vec<Result<DissectResult, String>>) -> (r: Result<
    DissectResult,
    String,
>)
    requires
        forall|i: int|
            0 <= i < parts@.len() ==> (#[trigger] parts@[i] matches Ok(d) ==> d.wf()),
    ensures
        match r {
            Ok(d) => {
                &&& forall|i: int| 0 <= i < parts@.len() ==> (#[trigger] parts@[i]) is Ok
                &&& d.wf()
                &&& forall|k: u64| #[trigger]
                    d.calls.at(k) is Some ==> ascending(d.calls.at(k)->0)
                &&& forall|k: u64| #[trigger]
                    d.jumps.at(k) is Some ==> ascending(d.jumps.at(k)->0)
                &&& forall|k: u64| #[trigger]
                    d.strings.at(k) is Some ==> ascending(d.strings.at(k)->0)
                &&& forall|k: u64, x: Site|
                    refers(d.calls, k, x) <==> exists|i: int|
                        0 <= i < parts@.len() && #[trigger] refers(parts@[i]->Ok_0.calls, k, x)
                &&& forall|k: u64, x: Site|
                    refers(d.jumps, k, x) <==> exists|i: int|
                        0 <= i < parts@.len() && #[trigger] refers(parts@[i]->Ok_0.jumps, k, x)
                &&& forall|k: u64, x: Site|
                    refers(d.strings, k, x) <==> exists|i: int|
                        0 <= i < parts@.len() && #[trigger] refers(parts@[i]->Ok_0.strings, k, x)
                &&& forall|k: u64|
                    #[trigger] lists(d.calls, k) <==> exists|i: int|
                        0 <= i < parts@.len() && #[trigger] lists(parts@[i]->Ok_0.calls, k)
                &&& forall|k: u64|
                    #[trigger] lists(d.jumps, k) <==> exists|i: int|
                        0 <= i < parts@.len() && #[trigger] lists(parts@[i]->Ok_0.jumps, k)
                &&& forall|k: u64|
                    #[trigger] lists(d.strings, k) <==> exists|i: int|
                        0 <= i < parts@.len() && #[trigger] lists(parts@[i]->Ok_0.strings, k)
                &&& forall|k: u64| #[trigger]
                    preview_of(d.string_previews@, k) == merged_preview(parts@, k)
            },
            Err(m) => exists|i: int|
                0 <= i < parts@.len() && #[trigger] parts@[i] == Err::<DissectResult, String>(m)
                    && forall|j: int| 0 <= j < i ==> (#[trigger] parts@[j]) is Ok,
        },
{
    let mut rest = parts;
    let mut i: usize = 0;
    while i < rest.len()
        invariant
            i <= rest@.len(),
            rest == parts,
            forall|j: int| 0 <= j < i ==> (#[trigger] rest@[j]) is Ok,
        decreases rest@.len() - i,
    {
        match &rest[i] {
            Ok(_) => {},
            Err(m) => {
                return Err(m.clone());
            },
        }
        i += 1;
    }
    let mut merged = DissectResult::new();
    let ghost all = parts@;
    proof {
        assert forall|k: u64, x: Site| !(#[trigger] refers(merged.calls, k, x)) by {
            assert(merged.calls.at(k) is None);
        }
        assert forall|k: u64, x: Site| !(#[trigger] refers(merged.jumps, k, x)) by {
            assert(merged.jumps.at(k) is None);
        }
        assert forall|k: u64, x: Site| !(#[trigger] refers(merged.strings, k, x)) by {
            assert(merged.strings.at(k) is None);
        }
    }
    let n: usize = rest.len();
    let mut done: usize = 0;
    while done < n
        invariant
            done <= n,
            n == all.len(),
            rest@ == all.subrange(done as int, n as int),
            forall|j: int| 0 <= j < n ==> (#[trigger] all[j]) is Ok && all[j]->Ok_0.wf(),
            merged.wf(),
            forall|k: u64, x: Site| #[trigger]
                refers(merged.calls, k, x) <==> exists|i: int|
                    0 <= i < done && #[trigger] refers(all[i]->Ok_0.calls, k, x),
            forall|k: u64, x: Site| #[trigger]
                refers(merged.jumps, k, x) <==> exists|i: int|
                    0 <= i < done && #[trigger] refers(all[i]->Ok_0.jumps, k, x),
            forall|k: u64, x: Site| #[trigger]
                refers(merged.strings, k, x) <==> exists|i: int|
                    0 <= i < done && #[trigger] refers(all[i]->Ok_0.strings, k, x),
            forall|k: u64|
                #[trigger] lists(merged.calls, k) <==> exists|i: int|
                    0 <= i < done && #[trigger] lists(all[i]->Ok_0.calls, k),
            forall|k: u64|
                #[trigger] lists(merged.jumps, k) <==> exists|i: int|
                    0 <= i < done && #[trigger] lists(all[i]->Ok_0.jumps, k),
            forall|k: u64|
                #[trigger] lists(merged.strings, k) <==> exists|i: int|
                    0 <= i < done && #[trigger] lists(all[i]->Ok_0.strings, k),
            forall|k: u64| #[trigger]
                preview_of(merged.string_previews@, k) == merged_preview(
                    all.subrange(0, done as int),
                    k,
                ),
        decreases n - done,
    {
        let ghost before = merged;
        assert(rest@[0] == all[done as int]);
        let part = rest.remove(0);
        assert(rest@ =~= all.subrange(done + 1, n as int));
        if let Ok(d) = part {
            assert(d == all[done as int]->Ok_0);
            merge_dissect(&mut merged, d);
            proof {
                assert(all.subrange(0, done + 1).drop_last() =~= all.subrange(0, done as int));
                assert forall|k: u64| #[trigger]
                    lists(merged.calls, k) <==> exists|i: int|
                        0 <= i < done + 1 && #[trigger] lists(all[i]->Ok_0.calls, k) by {
                    assert(merged.calls.at(k) == joined(before.calls.at(k), d.calls.at(k)));
                    assert(lists(before.calls, k) <==> exists|i: int|
                        0 <= i < done && #[trigger] lists(all[i]->Ok_0.calls, k));
                    if lists(d.calls, k) {
                        assert(lists(all[done as int]->Ok_0.calls, k));
                    }
                }
                assert forall|k: u64| #[trigger]
                    lists(merged.jumps, k) <==> exists|i: int|
                        0 <= i < done + 1 && #[trigger] lists(all[i]->Ok_0.jumps, k) by {
                    assert(merged.jumps.at(k) == joined(before.jumps.at(k), d.jumps.at(k)));
                    assert(lists(before.jumps, k) <==> exists|i: int|
                        0 <= i < done && #[trigger] lists(all[i]->Ok_0.jumps, k));
                    if lists(d.jumps, k) {
                        assert(lists(all[done as int]->Ok_0.jumps, k));
                    }
                }
                assert forall|k: u64| #[trigger]
                    lists(merged.strings, k) <==> exists|i: int|
                        0 <= i < done + 1 && #[trigger] lists(all[i]->Ok_0.strings, k) by {
                    assert(merged.strings.at(k) == joined(before.strings.at(k), d.strings.at(k)));
                    assert(lists(before.strings, k) <==> exists|i: int|
                        0 <= i < done && #[trigger] lists(all[i]->Ok_0.strings, k));
                    if lists(d.strings, k) {
                        assert(lists(all[done as int]->Ok_0.strings, k));
                    }
                }
                assert forall|k: u64, x: Site| #[trigger]
                    refers(merged.calls, k, x) <==> exists|i: int|
                        0 <= i < done + 1 && #[trigger] refers(all[i]->Ok_0.calls, k, x) by {
                    lemma_refers_joined(before.calls, d.calls, merged.calls, k, x);
                    assert(refers(before.calls, k, x) <==> exists|i: int|
                        0 <= i < done && #[trigger] refers(all[i]->Ok_0.calls, k, x));
                    if refers(d.calls, k, x) {
                        assert(refers(all[done as int]->Ok_0.calls, k, x));
                    }
                }
                assert forall|k: u64, x: Site| #[trigger]
                    refers(merged.jumps, k, x) <==> exists|i: int|
                        0 <= i < done + 1 && #[trigger] refers(all[i]->Ok_0.jumps, k, x) by {
                    lemma_refers_joined(before.jumps, d.jumps, merged.jumps, k, x);
                    assert(refers(before.jumps, k, x) <==> exists|i: int|
                        0 <= i < done && #[trigger] refers(all[i]->Ok_0.jumps, k, x));
                    if refers(d.jumps, k, x) {
                        assert(refers(all[done as int]->Ok_0.jumps, k, x));
                    }
                }
                assert forall|k: u64, x: Site| #[trigger]
                    refers(merged.strings, k, x) <==> exists|i: int|
                        0 <= i < done + 1 && #[trigger] refers(all[i]->Ok_0.strings, k, x) by {
                    lemma_refers_joined(before.strings, d.strings, merged.strings, k, x);
                    assert(refers(before.strings, k, x) <==> exists|i: int|
                        0 <= i < done && #[trigger] refers(all[i]->Ok_0.strings, k, x));
                    if refers(d.strings, k, x) {
                        assert(refers(all[done as int]->Ok_0.strings, k, x));
                    }
                }
            }
        }
        done += 1;
    }
    assert(all.subrange(0, n as int) =~= all);
    let calls = normalise_map(&merged.calls);
    let jumps = normalise_map(&merged.jumps);
    let strings = normalise_map(&merged.strings);
    proof {
        assert forall|k: u64, x: Site| refers(calls, k, x) <==> refers(merged.calls, k, x) by {
            assert(calls.at(k) is Some <==> merged.calls.at(k) is Some);
        }
        assert forall|k: u64, x: Site| refers(jumps, k, x) <==> refers(merged.jumps, k, x) by {
            assert(jumps.at(k) is Some <==> merged.jumps.at(k) is Some);
        }
        assert forall|k: u64, x: Site| refers(strings, k, x) <==> refers(merged.strings, k, x) by {
            assert(strings.at(k) is Some <==> merged.strings.at(k) is Some);
        }
        assert forall|k: u64| #[trigger] lists(calls, k) <==> lists(merged.calls, k) by {
            assert(calls.at(k) is Some <==> merged.calls.at(k) is Some);
        }
        assert forall|k: u64| #[trigger] lists(jumps, k) <==> lists(merged.jumps, k) by {
            assert(jumps.at(k) is Some <==> merged.jumps.at(k) is Some);
        }
        assert forall|k: u64| #[trigger] lists(strings, k) <==> lists(merged.strings, k) by {
            assert(strings.at(k) is Some <==> merged.strings.at(k) is Some);
        }
    }
    Ok(DissectResult { calls, jumps, strings, string_previews: merged.string_previews })
}

/// The preview of the string at `addr` in the last part that has one.
pub open spec fn merged_preview(parts: Seq<Result<DissectResult, String>>, addr: u64) -> Option<
    Seq<char>,
>
    decreases parts.len(),
{
    if parts.len() == 0 {
        None
    } else {
        match preview_of(parts.last()->Ok_0.string_previews@, addr) {
            Some(t) => Some(t),
            None => merged_preview(parts.drop_last(), addr),
        }
    }
}

/// `k` is a target that is listed.
pub open spec fn lists(map: XrefMap, k: u64) -> bool {
    map.at(k) is Some
}

/// `x` is a site that refers to `k`.
pub open spec fn refers(map: XrefMap, k: u64, x: Site) -> bool {
    map.at(k) matches Some(v) && v.contains(x)
}

proof fn lemma_refers_joined(a: XrefMap, b: XrefMap, out: XrefMap, k: u64, x: Site)
    requires
        out.at(k) == joined(a.at(k), b.at(k)),
    ensures
        refers(out, k, x) <==> refers(a, k, x) || refers(b, k, x),
{
    if a.at(k) is Some && b.at(k) is Some {
        let s = a.at(k)->0;
        let t = b.at(k)->0;
        if s.contains(x) {
            let i = s.index_of(x);
            assert((s + t)[i] == x);
        }
        if t.contains(x) {
            let i = t.index_of(x);
            assert((s + t)[s.len() + i] == x);
        }
        if (s + t).contains(x) {
            let i = (s + t).index_of(x);
            if i < s.len() {
                assert(s[i] == x);
            } else {
                assert(t[i - s.len()] == x);
            }
        }
    }
}

/// The sites that refer to `addr` in any way, ascending and each once.
pub fn referrers(d: &DissectResult, addr: u64) -> (out: Vec<Site>)
    requires
        d.wf(),
    ensures
        ascending(out@),
        forall|x: Site| #[trigger]
            out@.contains(x) <==> refers(d.calls, addr, x) || refers(d.jumps, addr, x) || refers(
                d.strings,
                addr,
                x,
            ),
{
    let mut all: Vec<Site> = Vec::new();
    push_all(&mut all, d.calls.get(addr));
    push_all(&mut all, d.jumps.get(addr));
    push_all(&mut all, d.strings.get(addr));
    sorted_unique(all.as_slice())
}

fn push_all(all: &mut Vec<Site>, more: Option<&Vec<Site>>)
    ensures
        forall|x: Site| #[trigger]
            final(all)@.contains(x) <==> old(all)@.contains(x) || (more matches Some(v)
                && v@.contains(x)),
{
    if let Some(v) = more {
        let mut i: usize = 0;
        while i < v.len()
            invariant
                i <= v@.len(),
                forall|x: Site| #[trigger]
                    all@.contains(x) <==> old(all)@.contains(x) || v@.subrange(
                        0,
                        i as int,
                    ).contains(x),
            decreases v@.len() - i,
        {
            let ghost before = all@;
            let s = v[i];
            all.push(s);
            proof {
                let seen = v@.subrange(0, i as int);
                let next = v@.subrange(0, i + 1);
                assert forall|x: Site| #[trigger]
                    all@.contains(x) <==> old(all)@.contains(x) || next.contains(x) by {
                    assert(before.contains(x) <==> old(all)@.contains(x) || seen.contains(x));
                    if before.contains(x) {
                        let j = before.index_of(x);
                        assert(all@[j] == x);
                    }
                    if seen.contains(x) {
                        let j = seen.index_of(x);
                        assert(next[j] == x);
                    }
                    if x == s {
                        assert(all@[before.len() as int] == x);
                        assert(next[i as int] == x);
                    }
                    if all@.contains(x) && x != s {
                        let j = all@.index_of(x);
                        assert(before[j] == x);
                    }
                    if next.contains(x) && x != s {
                        let j = next.index_of(x);
                        assert(seen[j] == x);
                    }
                }
            }
            i += 1;
        }
        assert(v@.subrange(0, v@.len() as int) =~= v@);
    }
}

/// Two lists of places that are joined hold the places of both, the first ones first.
pub proof fn joined_lists_hold_both(a: Option<Seq<Site>>, b: Option<Seq<Site>>, x: Site)
    ensures
        (joined(a, b) matches Some(v) && v.contains(x)) <==> (a matches Some(v) && v.contains(x)) || (
        b matches Some(v) && v.contains(x)),
        joined(a, b) is None <==> a is None && b is None,
{
    if let (Some(p), Some(q)) = (a, b) {
        let v = p + q;
        if p.contains(x) {
            let i = p.index_of(x);
            assert(v[i] == x);
        }
        if q.contains(x) {
            let i = q.index_of(x);
            assert(v[p.len() + i] == x);
        }
        if v.contains(x) {
            let i = v.index_of(x);
            if i < p.len() {
                assert(p[i] == x);
            } else {
                assert(q[i - p.len()] == x);
            }
        }
    }
}

/// The text at an address is that of the last part that has one, and there is none only
/// where no part has one.
pub proof fn text_comes_from_the_last_part(parts: Seq<Result<DissectResult, String>>, addr: u64)
    ensures
        match merged_preview(parts, addr) {
            Some(t) => exists|i: int|
                {
                    &&& 0 <= i < parts.len()
                    &&& preview_of((#[trigger] parts[i])->Ok_0.string_previews@, addr) == Some(t)
                    &&& forall|j: int|
                        i < j < parts.len() ==> preview_of(
                            (#[trigger] parts[j])->Ok_0.string_previews@,
                            addr,
                        ) is None
                },
            None => forall|j: int|
                0 <= j < parts.len() ==> preview_of(
                    (#[trigger] parts[j])->Ok_0.string_previews@,
                    addr,
                ) is None,
        },
    decreases parts.len(),
{
    if parts.len() > 0 {
        let rest = parts.drop_last();
        text_comes_from_the_last_part(rest, addr);
        let n = parts.len() - 1;
        assert forall|j: int| 0 <= j < rest.len() implies (#[trigger] parts[j]) == rest[j] by {}
        if let Some(t) = preview_of(parts[n]->Ok_0.string_previews@, addr) {
            assert(preview_of(parts[n]->Ok_0.string_previews@, addr) == Some(t));
        } else if let Some(t) = merged_preview(rest, addr) {
            let i = choose|i: int|
                {
                    &&& 0 <= i < rest.len()
                    &&& preview_of((#[trigger] rest[i])->Ok_0.string_previews@, addr) == Some(t)
                    &&& forall|j: int|
                        i < j < rest.len() ==> preview_of(
                            (#[trigger] rest[j])->Ok_0.string_previews@,
                            addr,
                        ) is None
                };
            assert(parts[i] == rest[i]);
        }
    }
}

} // verus!

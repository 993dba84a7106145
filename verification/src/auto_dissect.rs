//! A proposed body for a class, and its summary.
use vstd::prelude::*;
use vstd::string::StringExecFns;

use crate::model::Node;
use crate::order::{
    is_stable_order, key_before, sort_ordered, text_before_exec, TextKey, TextKeyed,
};
use crate::text::{chars_of, decimal, decimal_exec, same_str, string_of};

verus! {

/// How many fields of a type there are.
#[derive(Debug)]
pub struct TagCount {
    pub tag: String,
    pub count: usize,
}

impl TextKeyed for TagCount {
    /// The more fields the earlier; then by the type.
    open spec fn key_of(&self) -> TextKey {
        TextKey { first: -(self.count as int), text: self.tag@, last: 0 }
    }

    fn comes_before(&self, other: &Self) -> (r: bool) {
        if self.count != other.count {
            return self.count > other.count;
        }
        let a = chars_of(self.tag.as_str());
        let b = chars_of(other.tag.as_str());
        text_before_exec(a.as_slice(), b.as_slice())
    }
}

/// How many of the nodes have that type.
pub open spec fn count_of(nodes: Seq<Node>, tag: Seq<char>) -> nat
    decreases nodes.len(),
{
    if nodes.len() == 0 {
        0
    } else {
        count_of(nodes.drop_last(), tag) + if nodes.last().tag@ == tag {
            1nat
        } else {
            0
        }
    }
}

/// The type is counted.
pub open spec fn has_tag(counts: Seq<TagCount>, tag: Seq<char>) -> bool {
    exists|i: int| 0 <= i < counts.len() && (#[trigger] counts[i]).tag@ == tag
}

/// Each type that occurs is counted once.
pub open spec fn is_tally(counts: Seq<TagCount>, nodes: Seq<Node>) -> bool {
    &&& forall|i: int|
        0 <= i < counts.len() ==> (#[trigger] counts[i]).count == count_of(nodes, counts[i].tag@)
            && counts[i].count > 0
    &&& forall|i: int, j: int|
        0 <= i < j < counts.len() ==> (#[trigger] counts[i]).tag@ != (#[trigger] counts[j]).tag@
    &&& forall|k: int| 0 <= k < nodes.len() ==> has_tag(counts, (#[trigger] nodes[k]).tag@)
}

proof fn lemma_count_bound(nodes: Seq<Node>, tag: Seq<char>)
    ensures
        count_of(nodes, tag) <= nodes.len(),
        (forall|k: int| 0 <= k < nodes.len() ==> (#[trigger] nodes[k]).tag@ != tag) ==> count_of(
            nodes,
            tag,
        ) == 0,
    decreases nodes.len(),
{
    if nodes.len() > 0 {
        lemma_count_bound(nodes.drop_last(), tag);
    }
}

fn tag_place(counts: &Vec<TagCount>, tag: &str) -> (r: Option<usize>)
    ensures
        match r {
            Some(i) => i < counts@.len() && counts@[i as int].tag@ == tag@,
            None => !has_tag(counts@, tag@),
        },
{
    let mut i: usize = 0;
    while i < counts.len()
        invariant
            i <= counts@.len(),
            forall|j: int| 0 <= j < i ==> (#[trigger] counts@[j]).tag@ != tag@,
        decreases counts@.len() - i,
    {
        if same_str(counts[i].tag.as_str(), tag) {
            return Some(i);
        }
        i += 1;
    }
    None
}

fn tally(nodes: &Vec<Node>) -> (counts: Vec<TagCount>)
    ensures
        is_tally(counts@, nodes@),
{
    let mut counts: Vec<TagCount> = Vec::new();
    let mut i: usize = 0;
    while i < nodes.len()
        invariant
            i <= nodes@.len(),
            is_tally(counts@, nodes@.subrange(0, i as int)),
        decreases nodes@.len() - i,
    {
        let ghost was = counts@;
        let ghost seen = nodes@.subrange(0, i as int);
        let ghost now = nodes@.subrange(0, i + 1);
        assert(now.drop_last() =~= seen);
        assert(now.last() == nodes@[i as int]);
        let tag = nodes[i].tag.as_str();
        match tag_place(&counts, tag) {
            Some(at) => {
                proof {
                    lemma_count_bound(seen, tag@);
                }
                let more: usize = counts[at].count + 1;
                let c = &mut counts[at];
                c.count = more;
                proof {
                    assert forall|k: int| 0 <= k < now.len() implies has_tag(
                        counts@,
                        (#[trigger] now[k]).tag@,
                    ) by {
                        if k < seen.len() {
                            assert(has_tag(was, seen[k].tag@));
                            let j = choose|j: int|
                                0 <= j < was.len() && (#[trigger] was[j]).tag@ == seen[k].tag@;
                            assert(counts@[j].tag@ == now[k].tag@);
                        } else {
                            assert(counts@[at as int].tag@ == now[k].tag@);
                        }
                    }
                }
            },
            None => {
                counts.push(TagCount { tag: nodes[i].tag.clone(), count: 1 });
                proof {
                    assert forall|k: int| 0 <= k < seen.len() implies (
                    #[trigger] seen[k]).tag@ != tag@ by {
                        assert(has_tag(was, seen[k].tag@));
                    }
                    lemma_count_bound(seen, tag@);
                    assert forall|k: int| 0 <= k < now.len() implies has_tag(
                        counts@,
                        (#[trigger] now[k]).tag@,
                    ) by {
                        if k < seen.len() {
                            assert(has_tag(was, seen[k].tag@));
                            let j = choose|j: int|
                                0 <= j < was.len() && (#[trigger] was[j]).tag@ == seen[k].tag@;
                            assert(counts@[j].tag@ == now[k].tag@);
                        } else {
                            assert(counts@[was.len() as int].tag@ == now[k].tag@);
                        }
                    }
                }
            },
        }
        i += 1;
    }
    assert(nodes@.subrange(0, nodes@.len() as int) =~= nodes@);
    counts
}

/// How many fields of each type there are, the most frequent type first; types of
/// one count in the order of their names.
pub fn summary(nodes: &Vec<Node>) -> (counts: Vec<TagCount>)
    ensures
        is_tally(counts@, nodes@),
        forall|i: int, j: int|
            0 <= i < j < counts@.len() ==> key_before(
                (#[trigger] counts@[i]).key_of(),
                (#[trigger] counts@[j]).key_of(),
            ),
{
    let found = tally(nodes);
    let ghost was = found@;
    let counts = sort_ordered(found);
    proof {
        let p = choose|p: Seq<int>| #[trigger] is_stable_order(was, counts@, p);
        assert forall|i: int, j: int| 0 <= i < j < counts@.len() implies (
        #[trigger] counts@[i]).tag@ != (#[trigger] counts@[j]).tag@ by {
            let a = p[i];
            let b = p[j];
            if a < b {
                assert(was[a].tag@ != was[b].tag@);
            } else {
                assert(was[b].tag@ != was[a].tag@);
            }
        }
        assert forall|i: int| 0 <= i < counts@.len() implies (#[trigger] counts@[i]).count
            == count_of(nodes@, counts@[i].tag@) && counts@[i].count > 0 by {
            assert(counts@[i] == was[p[i]]);
        }
        assert forall|k: int| 0 <= k < nodes@.len() implies has_tag(
            counts@,
            (#[trigger] nodes@[k]).tag@,
        ) by {
            assert(has_tag(was, nodes@[k].tag@));
            let j = choose|j: int| 0 <= j < was.len() && (#[trigger] was[j]).tag@ == nodes@[k].tag@;
            assert(p.contains(j));
            let i = choose|i: int| 0 <= i < p.len() && p[i] == j;
            assert(counts@[i].tag@ == nodes@[k].tag@);
        }
    }
    counts
}

/// The counts as they are shown.
pub open spec fn summary_of(counts: Seq<TagCount>) -> Seq<char>
    decreases counts.len(),
{
    if counts.len() == 0 {
        Seq::empty()
    } else {
        let last = decimal(counts.last().count as nat) + "×"@ + counts.last().tag@;
        if counts.len() == 1 {
            last
        } else {
            summary_of(counts.drop_last()) + ", "@ + last
        }
    }
}

pub fn summary_text(counts: &Vec<TagCount>) -> (s: String)
    ensures
        s@ == summary_of(counts@),
{
    let mut s = String::new();
    let mut i: usize = 0;
    while i < counts.len()
        invariant
            i <= counts@.len(),
            s@ == summary_of(counts@.subrange(0, i as int)),
        decreases counts@.len() - i,
    {
        let ghost now = counts@.subrange(0, i + 1);
        assert(now.drop_last() =~= counts@.subrange(0, i as int));
        assert(now.last() == counts@[i as int]);
        let ghost before = s@;
        if i > 0 {
            s.append(", ");
        }
        let d = string_of(decimal_exec(counts[i].count as u64).as_slice());
        s.append(d.as_str());
        s.append("×");
        s.append(counts[i].tag.as_str());
        assert(s@ =~= summary_of(now));
        i += 1;
    }
    assert(counts@.subrange(0, counts@.len() as int) =~= counts@);
    s
}

/// A body that is proposed for a class.
#[derive(Debug)]
pub struct AutoDissectPreview {
    pub defs: Vec<Node>,
    /// The class that it was made for.
    pub target_class: u128,
    pub summary: Vec<TagCount>,
}

/// The summary begins with the type that occurs most often.
pub proof fn most_frequent_type_comes_first(counts: Seq<TagCount>, i: int, j: int)
    requires
        0 <= i < j < counts.len(),
        forall|i: int, j: int|
            0 <= i < j < counts.len() ==> key_before(
                (#[trigger] counts[i]).key_of(),
                (#[trigger] counts[j]).key_of(),
            ),
    ensures
        counts[i].count >= counts[j].count,
        counts[i].count == counts[j].count ==> crate::order::text_before(
            counts[i].tag@,
            counts[j].tag@,
        ) || counts[i].tag@ == counts[j].tag@,
{
    assert(key_before(counts[i].key_of(), counts[j].key_of()));
}

/// Another field of a type counts once more for that type and for no other.
pub proof fn field_counts_for_its_type(nodes: Seq<Node>, n: Node, tag: Seq<char>)
    ensures
        count_of(nodes.push(n), tag) == count_of(nodes, tag) + if n.tag@ == tag {
            1nat
        } else {
            0
        },
{
    assert(nodes.push(n).drop_last() =~= nodes);
}

} // verus!

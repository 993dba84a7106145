//! Address regions and their normal form.
use vstd::prelude::*;

use crate::sort::{lemma_sorted_same_elements, sort_by_key, sorted_by_key, Keyed};

verus! {

/// The addresses `start .. end`.
#[derive(Clone, Copy, Debug, PartialEq, Eq, Structural)]
pub struct Region {
    pub start: u64,
    pub end: u64,
}

impl Keyed for Region {
    open spec fn key_of(self) -> u64 {
        self.start
    }

    fn key(&self) -> (k: u64) {
        self.start
    }
}

impl Region {
    pub open spec fn has(self, addr: int) -> bool {
        self.start <= addr < self.end
    }
}

/// Some region of `s` holds `addr`.
pub open spec fn covers(s: Seq<Region>, addr: int) -> bool {
    exists|i: int| 0 <= i < s.len() && (#[trigger] s[i]).has(addr)
}

/// The regions are not empty, ascend, and do not even touch.
pub open spec fn is_partition(s: Seq<Region>) -> bool {
    &&& forall|i: int| 0 <= i < s.len() ==> (#[trigger] s[i]).start < s[i].end
    &&& forall|i: int, j: int|
        0 <= i < j < s.len() ==> (#[trigger] s[i]).end < (#[trigger] s[j]).start
}

fn drop_empty(regions: &[Region]) -> (out: Vec<Region>)
    ensures
        forall|i: int| 0 <= i < out@.len() ==> (#[trigger] out@[i]).start < out@[i].end,
        forall|a: int| #[trigger] covers(out@, a) <==> covers(regions@, a),
{
    let mut out: Vec<Region> = Vec::new();
    let mut i: usize = 0;
    while i < regions.len()
        invariant
            i <= regions@.len(),
            forall|k: int| 0 <= k < out@.len() ==> (#[trigger] out@[k]).start < out@[k].end,
            forall|k: int| 0 <= k < out@.len() ==> regions@.contains(#[trigger] out@[k]),
            forall|k: int|
                0 <= k < i && (#[trigger] regions@[k]).start < regions@[k].end ==> out@.contains(
                    regions@[k],
                ),
        decreases regions@.len() - i,
    {
        let r = regions[i];
        let ghost before = out@;
        if r.start < r.end {
            out.push(r);
            assert(out@[before.len() as int] == r);
            assert forall|k: int|
                0 <= k < i && (#[trigger] regions@[k]).start < regions@[k].end implies out@.contains(
                regions@[k],
            ) by {
                let j = before.index_of(regions@[k]);
                assert(out@[j] == regions@[k]);
            }
        }
        i += 1;
    }
    assert forall|a: int| #[trigger] covers(out@, a) <==> covers(regions@, a) by {
        if covers(out@, a) {
            let k = choose|k: int| 0 <= k < out@.len() && (#[trigger] out@[k]).has(a);
            let j = regions@.index_of(out@[k]);
            assert(regions@[j].has(a));
        }
        if covers(regions@, a) {
            let k = choose|k: int| 0 <= k < regions@.len() && (#[trigger] regions@[k]).has(a);
            let j = out@.index_of(regions@[k]);
            assert(out@[j].has(a));
        }
    }
    out
}

/// Sorts regions by start, drops empty ones and joins those that touch or
/// overlap: the result covers the same addresses and is a partition.
pub fn merge_regions(regions: &[Region]) -> (merged: Vec<Region>)
    ensures
        is_partition(merged@),
        forall|a: int| #[trigger] covers(merged@, a) <==> covers(regions@, a),
{
    let kept = drop_empty(regions);
    let sorted = sort_by_key(kept.as_slice());
    proof {
        assert forall|a: int| #[trigger] covers(sorted@, a) <==> covers(kept@, a) by {
            if covers(kept@, a) {
                let k = choose|k: int| 0 <= k < kept@.len() && (#[trigger] kept@[k]).has(a);
                lemma_sorted_same_elements(kept@, sorted@, kept@[k]);
                let j = sorted@.index_of(kept@[k]);
                assert(sorted@[j].has(a));
            }
            if covers(sorted@, a) {
                let k = choose|k: int| 0 <= k < sorted@.len() && (#[trigger] sorted@[k]).has(a);
                lemma_sorted_same_elements(kept@, sorted@, sorted@[k]);
                let j = kept@.index_of(sorted@[k]);
                assert(kept@[j].has(a));
            }
        }
        assert forall|i: int| 0 <= i < sorted@.len() implies (#[trigger] sorted@[i]).start
            < sorted@[i].end by {
            lemma_sorted_same_elements(kept@, sorted@, sorted@[i]);
            let j = kept@.index_of(sorted@[i]);
            assert(kept@[j].start < kept@[j].end);
        }
    }
    let mut merged: Vec<Region> = Vec::new();
    let mut i: usize = 0;
    while i < sorted.len()
        invariant
            i <= sorted@.len(),
            sorted_by_key(sorted@),
            forall|k: int| 0 <= k < sorted@.len() ==> (#[trigger] sorted@[k]).start < sorted@[k].end,
            is_partition(merged@),
            forall|k: int, q: int|
                0 <= k < merged@.len() && i <= q < sorted@.len() ==> (#[trigger] merged@[k]).start
                    <= (#[trigger] sorted@[q]).start,
            forall|a: int| #[trigger]
                covers(merged@, a) <==> covers(sorted@.subrange(0, i as int), a),
        decreases sorted@.len() - i,
    {
        let r = sorted[i];
        let n: usize = merged.len();
        let ghost before = merged@;
        let ghost seen = sorted@.subrange(0, i as int);
        let ghost next = sorted@.subrange(0, i + 1);
        proof {
            assert forall|a: int| #[trigger] covers(next, a) <==> covers(seen, a) || r.has(a) by {
                if covers(seen, a) {
                    let k = choose|k: int| 0 <= k < seen.len() && (#[trigger] seen[k]).has(a);
                    assert(next[k].has(a));
                }
                if r.has(a) {
                    assert(next[i as int].has(a));
                }
                if covers(next, a) {
                    let k = choose|k: int| 0 <= k < next.len() && (#[trigger] next[k]).has(a);
                    if k < i {
                        assert(seen[k].has(a));
                    }
                }
            }
        }
        if n > 0 && r.start <= merged[n - 1].end {
            let last = merged[n - 1];
            let end: u64 = if r.end > last.end {
                r.end
            } else {
                last.end
            };
            merged.set(n - 1, Region { start: last.start, end });
            proof {
                assert(sorted@[i as int] == r);
                assert(before[n - 1].start <= sorted@[i as int].start);
                assert forall|a: int| #[trigger] covers(merged@, a) <==> covers(next, a) by {
                    assert(covers(before, a) <==> covers(seen, a));
                    if covers(merged@, a) {
                        let k = choose|k: int|
                            0 <= k < merged@.len() && (#[trigger] merged@[k]).has(a);
                        if k < n - 1 {
                            assert(before[k].has(a));
                        } else {
                            assert(before[n - 1].has(a) || r.has(a));
                        }
                    }
                    if covers(before, a) {
                        let k = choose|k: int| 0 <= k < before.len() && (#[trigger] before[k]).has(a);
                        assert(merged@[k].has(a));
                    }
                    if r.has(a) {
                        assert(merged@[n - 1].has(a));
                    }
                }
            }
        } else {
            merged.push(r);
            proof {
                assert forall|a: int| #[trigger] covers(merged@, a) <==> covers(next, a) by {
                    assert(covers(before, a) <==> covers(seen, a));
                    if covers(merged@, a) {
                        let k = choose|k: int|
                            0 <= k < merged@.len() && (#[trigger] merged@[k]).has(a);
                        if k < n {
                            assert(before[k].has(a));
                        }
                    }
                    if covers(before, a) {
                        let k = choose|k: int| 0 <= k < before.len() && (#[trigger] before[k]).has(a);
                        assert(merged@[k].has(a));
                    }
                    if r.has(a) {
                        assert(merged@[n as int].has(a));
                    }
                }
                assert forall|a: int, b: int| 0 <= a < b < merged@.len() implies (
                #[trigger] merged@[a]).end < (#[trigger] merged@[b]).start by {
                    if b == n {
                        if a < n - 1 {
                            assert(before[a].end < before[n - 1].start);
                            assert(before[n - 1].start <= sorted@[i as int].start);
                        }
                    } else {
                        assert(before[a].end < before[b].start);
                    }
                }
            }
        }
        i += 1;
    }
    assert(sorted@.subrange(0, sorted@.len() as int) =~= sorted@);
    assert forall|a: int| #[trigger] covers(merged@, a) <==> covers(regions@, a) by {
        assert(covers(sorted@, a) <==> covers(kept@, a));
        assert(covers(kept@, a) <==> covers(regions@, a));
    }
    merged
}

/// In a partition an address lies in one region at most.
pub proof fn partition_has_one_answer(s: Seq<Region>, addr: int, i: int, j: int)
    requires
        is_partition(s),
        0 <= i < s.len(),
        0 <= j < s.len(),
        s[i].has(addr),
        s[j].has(addr),
    ensures
        i == j,
{
    if i < j {
        assert(s[i].end < s[j].start);
    } else if j < i {
        assert(s[j].end < s[i].start);
    }
}

/// The normal form of a set of addresses is unique: partitions that cover the
/// same addresses are equal.
pub proof fn partition_is_unique(a: Seq<Region>, b: Seq<Region>)
    requires
        is_partition(a),
        is_partition(b),
        forall|x: int| #[trigger] covers(a, x) <==> covers(b, x),
    ensures
        a == b,
    decreases a.len(),
{
    if a.len() == 0 {
        if b.len() > 0 {
            assert(b[0].has(b[0].start as int));
            assert(covers(b, b[0].start as int));
            assert(covers(a, b[0].start as int));
        }
        assert(a =~= b);
    } else if b.len() == 0 {
        assert(a[0].has(a[0].start as int));
        assert(covers(a, a[0].start as int));
        assert(covers(b, a[0].start as int));
    } else {
        let x = a.last();
        let y = b.last();
        lemma_last_covers(a, b);
        lemma_last_covers(b, a);
        assert(x.end == y.end);
        lemma_last_start(a, b);
        lemma_last_start(b, a);
        assert(x == y);
        let ra = a.drop_last();
        let rb = b.drop_last();
        assert forall|v: int| #[trigger] covers(ra, v) <==> covers(rb, v) by {
            lemma_without_last(a, v);
            lemma_without_last(b, v);
            assert(covers(a, v) <==> covers(b, v));
        }
        partition_is_unique(ra, rb);
        assert(a =~= ra.push(x));
        assert(b =~= rb.push(y));
    }
}

proof fn lemma_without_last(a: Seq<Region>, v: int)
    requires
        is_partition(a),
        a.len() > 0,
    ensures
        covers(a.drop_last(), v) <==> covers(a, v) && !a.last().has(v),
        is_partition(a.drop_last()),
{
    let r = a.drop_last();
    if covers(r, v) {
        let k = choose|k: int| 0 <= k < r.len() && (#[trigger] r[k]).has(v);
        assert(a[k].has(v));
        assert(a[k].end < a[a.len() - 1].start);
    }
    if covers(a, v) && !a.last().has(v) {
        let k = choose|k: int| 0 <= k < a.len() && (#[trigger] a[k]).has(v);
        assert(r[k].has(v));
    }
}

proof fn lemma_last_covers(a: Seq<Region>, b: Seq<Region>)
    requires
        is_partition(a),
        is_partition(b),
        a.len() > 0,
        b.len() > 0,
        forall|x: int| #[trigger] covers(a, x) <==> covers(b, x),
    ensures
        a.last().end <= b.last().end,
{
    let top = a.last().end - 1;
    assert(a[a.len() - 1].has(top));
    assert(covers(a, top));
    assert(covers(b, top));
    let k = choose|k: int| 0 <= k < b.len() && (#[trigger] b[k]).has(top);
    if k < b.len() - 1 {
        assert(b[k].end < b[b.len() - 1].start);
    }
}

proof fn lemma_last_start(a: Seq<Region>, b: Seq<Region>)
    requires
        is_partition(a),
        is_partition(b),
        a.len() > 0,
        b.len() > 0,
        a.last().end == b.last().end,
        forall|x: int| #[trigger] covers(a, x) <==> covers(b, x),
    ensures
        a.last().start >= b.last().start,
{
    if a.last().start < b.last().start {
        let v = b.last().start - 1;
        assert(a[a.len() - 1].has(v));
        assert(covers(a, v));
        assert(covers(b, v));
        let k = choose|k: int| 0 <= k < b.len() && (#[trigger] b[k]).has(v);
        if k < b.len() - 1 {
            assert(b[k].end < b[b.len() - 1].start);
        }
    }
}

} // verus!

//! Stable sorting by an integer key.
use vstd::prelude::*;
use vstd::slice::slice_subrange;

verus! {

/// A value that is ordered by a `u64` key.
pub trait Keyed: Copy {
    spec fn key_of(self) -> u64;

    fn key(&self) -> (k: u64)
        ensures
            k == self.key_of(),
    ;
}

/// The keys of `s` do not descend.
pub open spec fn sorted_by_key<T: Keyed>(s: Seq<T>) -> bool {
    forall|i: int, j: int|
        0 <= i <= j < s.len() ==> (#[trigger] s[i]).key_of() <= (#[trigger] s[j]).key_of()
}

/// The elements of `s` with key `k`, in their order.
pub open spec fn with_key<T: Keyed>(s: Seq<T>, k: u64) -> Seq<T>
    decreases s.len(),
{
    if s.len() == 0 {
        s
    } else if s.last().key_of() == k {
        with_key(s.drop_last(), k).push(s.last())
    } else {
        with_key(s.drop_last(), k)
    }
}

/// `out` is `s` sorted by key, elements of one key keeping their order.
pub open spec fn stably_sorted<T: Keyed>(s: Seq<T>, out: Seq<T>) -> bool {
    &&& sorted_by_key(out)
    &&& out.len() == s.len()
    &&& forall|k: u64| #[trigger] with_key(out, k) == with_key(s, k)
}

proof fn lemma_with_key_concat<T: Keyed>(a: Seq<T>, b: Seq<T>, k: u64)
    ensures
        with_key(a + b, k) == with_key(a, k) + with_key(b, k),
    decreases b.len(),
{
    if b.len() == 0 {
        assert(a + b =~= a);
        assert(with_key(a, k) + with_key(b, k) =~= with_key(a, k));
    } else {
        assert((a + b).drop_last() =~= a + b.drop_last());
        lemma_with_key_concat(a, b.drop_last(), k);
        if b.last().key_of() == k {
            assert(with_key(a + b, k) =~= with_key(a, k) + with_key(b, k));
        }
    }
}

proof fn lemma_with_key_none<T: Keyed>(s: Seq<T>, k: u64)
    requires
        forall|i: int| 0 <= i < s.len() ==> (#[trigger] s[i]).key_of() != k,
    ensures
        with_key(s, k) == Seq::<T>::empty(),
    decreases s.len(),
{
    if s.len() > 0 {
        lemma_with_key_none(s.drop_last(), k);
    } else {
        assert(s =~= Seq::<T>::empty());
    }
}

/// An element of `s` is among those of its key.
pub proof fn lemma_with_key_member<T: Keyed>(s: Seq<T>, x: T)
    ensures
        s.contains(x) <==> with_key(s, x.key_of()).contains(x),
    decreases s.len(),
{
    if s.len() > 0 {
        let rest = s.drop_last();
        let k = x.key_of();
        lemma_with_key_member(rest, x);
        assert(s =~= rest.push(s.last()));
        if s.contains(x) {
            let i = s.index_of(x);
            if i < rest.len() {
                assert(rest[i] == x);
                let j = with_key(rest, k).index_of(x);
                assert(with_key(s, k)[j] == x);
            } else {
                assert(with_key(s, k).last() == x);
            }
        }
        if with_key(s, k).contains(x) {
            let j = with_key(s, k).index_of(x);
            if s.last().key_of() == k && j == with_key(rest, k).len() {
                assert(s[s.len() - 1] == x);
            } else {
                assert(with_key(rest, k)[j] == x);
                let i = rest.index_of(x);
                assert(s[i] == x);
            }
        }
    }
}

/// Sorting loses no element and makes up none.
pub proof fn lemma_sorted_same_elements<T: Keyed>(s: Seq<T>, out: Seq<T>, x: T)
    requires
        stably_sorted(s, out),
    ensures
        s.contains(x) <==> out.contains(x),
{
    lemma_with_key_member(s, x);
    lemma_with_key_member(out, x);
    assert(with_key(out, x.key_of()) == with_key(s, x.key_of()));
}

fn merge<T: Keyed>(a: &Vec<T>, b: &Vec<T>) -> (out: Vec<T>)
    requires
        sorted_by_key(a@),
        sorted_by_key(b@),
        a@.len() + b@.len() <= usize::MAX,
    ensures
        stably_sorted(a@ + b@, out@),
{
    let mut out: Vec<T> = Vec::new();
    let mut i: usize = 0;
    let mut j: usize = 0;
    while i < a.len() || j < b.len()
        invariant
            i <= a@.len(),
            j <= b@.len(),
            a@.len() + b@.len() <= usize::MAX,
            sorted_by_key(a@),
            sorted_by_key(b@),
            out@.len() == i + j,
            sorted_by_key(out@),
            forall|p: int, q: int|
                0 <= p < out@.len() && i <= q < a@.len() ==> (#[trigger] out@[p]).key_of() <= (
                #[trigger] a@[q]).key_of(),
            forall|p: int, q: int|
                0 <= p < out@.len() && j <= q < b@.len() ==> (#[trigger] out@[p]).key_of() <= (
                #[trigger] b@[q]).key_of(),
            forall|p: int, q: int|
                0 <= p < j && i <= q < a@.len() ==> (#[trigger] b@[p]).key_of() < (
                #[trigger] a@[q]).key_of(),
            forall|k: u64| #[trigger]
                with_key(out@, k) == with_key(a@.subrange(0, i as int), k) + with_key(
                    b@.subrange(0, j as int),
                    k,
                ),
        decreases a@.len() - i + b@.len() - j,
    {
        let from_a = if i >= a.len() {
            false
        } else if j >= b.len() {
            true
        } else {
            a[i].key() <= b[j].key()
        };
        let ghost before = out@;
        if from_a {
            let x = a[i];
            proof {
                assert(a@.subrange(0, i + 1).drop_last() =~= a@.subrange(0, i as int));
                assert forall|k: u64| #[trigger] with_key(before.push(x), k) == with_key(
                    a@.subrange(0, i + 1),
                    k,
                ) + with_key(b@.subrange(0, j as int), k) by {
                    assert(before.push(x).drop_last() =~= before);
                    assert(with_key(before, k) == with_key(a@.subrange(0, i as int), k) + with_key(
                        b@.subrange(0, j as int),
                        k,
                    ));
                    if x.key_of() == k {
                        lemma_with_key_none(b@.subrange(0, j as int), k);
                        assert(with_key(before, k).push(x) =~= with_key(
                            a@.subrange(0, i as int),
                            k,
                        ).push(x) + Seq::<T>::empty());
                    }
                }
            }
            out.push(x);
            i += 1;
        } else {
            let x = b[j];
            proof {
                assert(b@.subrange(0, j + 1).drop_last() =~= b@.subrange(0, j as int));
                assert forall|k: u64| #[trigger] with_key(before.push(x), k) == with_key(
                    a@.subrange(0, i as int),
                    k,
                ) + with_key(b@.subrange(0, j + 1), k) by {
                    assert(before.push(x).drop_last() =~= before);
                    assert(with_key(before, k) == with_key(a@.subrange(0, i as int), k) + with_key(
                        b@.subrange(0, j as int),
                        k,
                    ));
                    if x.key_of() == k {
                        assert(with_key(before, k).push(x) =~= with_key(
                            a@.subrange(0, i as int),
                            k,
                        ) + with_key(b@.subrange(0, j as int), k).push(x));
                    }
                }
            }
            out.push(x);
            j += 1;
        }
    }
    proof {
        assert(a@.subrange(0, a@.len() as int) =~= a@);
        assert(b@.subrange(0, b@.len() as int) =~= b@);
        assert forall|k: u64| #[trigger] with_key(out@, k) == with_key(a@ + b@, k) by {
            lemma_with_key_concat(a@, b@, k);
        }
    }
    out
}

/// Sorts by key; elements of one key keep their order.
pub fn sort_by_key<T: Keyed>(s: &[T]) -> (out: Vec<T>)
    ensures
        stably_sorted(s@, out@),
    decreases s@.len(),
{
    if s.len() <= 1 {
        let mut out: Vec<T> = Vec::new();
        if s.len() == 1 {
            out.push(s[0]);
        }
        assert(out@ =~= s@);
        return out;
    }
    let mid: usize = s.len() / 2;
    let left = sort_by_key(slice_subrange(s, 0, mid));
    let right = sort_by_key(slice_subrange(s, mid, s.len()));
    let ghost l = s@.subrange(0, mid as int);
    let ghost r = s@.subrange(mid as int, s@.len() as int);
    let out = merge(&left, &right);
    proof {
        assert(l + r =~= s@);
        assert forall|k: u64| #[trigger] with_key(out@, k) == with_key(s@, k) by {
            lemma_with_key_concat(left@, right@, k);
            lemma_with_key_concat(l, r, k);
            assert(with_key(out@, k) == with_key(left@ + right@, k));
            assert(with_key(left@, k) == with_key(l, k));
            assert(with_key(right@, k) == with_key(r, k));
        }
    }
    out
}

/// An element of a list by its key and its place in the list.
#[derive(Clone, Copy, Debug, PartialEq, Eq, Structural)]
pub struct Slot {
    pub key: u64,
    pub index: usize,
}

impl Keyed for Slot {
    open spec fn key_of(self) -> u64 {
        self.key
    }

    fn key(&self) -> (k: u64) {
        self.key
    }
}

} // verus!

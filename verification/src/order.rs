//! Stable sorting by a number, a text and a number, in that order.
use vstd::prelude::*;

verus! {

/// The text `a` comes before `b`: at the first place where they differ it has
/// the lesser character, or it ends first.
pub open spec fn text_before(a: Seq<char>, b: Seq<char>) -> bool
    decreases a.len(),
{
    if b.len() == 0 {
        false
    } else if a.len() == 0 {
        true
    } else if a[0] == b[0] {
        text_before(a.subrange(1, a.len() as int), b.subrange(1, b.len() as int))
    } else {
        (a[0] as int) < (b[0] as int)
    }
}

pub fn text_before_exec(a: &[char], b: &[char]) -> (r: bool)
    ensures
        r == text_before(a@, b@),
{
    let mut i: usize = 0;
    assert(a@.subrange(0, a@.len() as int) =~= a@);
    assert(b@.subrange(0, b@.len() as int) =~= b@);
    while i < a.len() && i < b.len()
        invariant
            i <= a@.len(),
            i <= b@.len(),
            text_before(a@, b@) == text_before(
                a@.subrange(i as int, a@.len() as int),
                b@.subrange(i as int, b@.len() as int),
            ),
        decreases a@.len() - i,
    {
        let ghost x = a@.subrange(i as int, a@.len() as int);
        let ghost y = b@.subrange(i as int, b@.len() as int);
        assert(x.subrange(1, x.len() as int) =~= a@.subrange(i + 1, a@.len() as int));
        assert(y.subrange(1, y.len() as int) =~= b@.subrange(i + 1, b@.len() as int));
        let c: char = a[i];
        let d: char = b[i];
        if c != d {
            return c < d;
        }
        i += 1;
    }
    i < b.len()
}

/// No text comes before itself, and of two texts one comes first.
pub proof fn lemma_text_total(a: Seq<char>, b: Seq<char>)
    ensures
        !(text_before(a, b) && text_before(b, a)),
        a != b ==> text_before(a, b) || text_before(b, a),
        !text_before(a, a),
    decreases a.len(),
{
    if a.len() > 0 {
        let x = a.subrange(1, a.len() as int);
        lemma_text_total(x, x);
        if b.len() > 0 {
            let y = b.subrange(1, b.len() as int);
            lemma_text_total(x, y);
            if a[0] == b[0] && x == y {
                assert(a =~= seq![a[0]] + x);
                assert(b =~= seq![b[0]] + y);
            }
        }
    } else if b.len() == 0 {
        assert(a =~= b);
    }
}

pub proof fn lemma_text_transitive(a: Seq<char>, b: Seq<char>, c: Seq<char>)
    requires
        text_before(a, b),
        text_before(b, c),
    ensures
        text_before(a, c),
    decreases a.len(),
{
    if a.len() > 0 && a[0] == b[0] && b[0] == c[0] {
        lemma_text_transitive(
            a.subrange(1, a.len() as int),
            b.subrange(1, b.len() as int),
            c.subrange(1, c.len() as int),
        );
    }
}

/// What a value is sorted by.
pub struct TextKey {
    pub first: int,
    pub text: Seq<char>,
    pub last: int,
}

/// One key comes before another.
pub open spec fn key_before(a: TextKey, b: TextKey) -> bool {
    a.first < b.first || (a.first == b.first && (text_before(a.text, b.text) || (a.text == b.text
        && a.last < b.last)))
}

/// Two keys are the same.
pub open spec fn key_same(a: TextKey, b: TextKey) -> bool {
    a.first == b.first && a.text == b.text && a.last == b.last
}

proof fn lemma_key_total(a: TextKey, b: TextKey)
    ensures
        !(key_before(a, b) && key_before(b, a)),
        key_before(a, b) || key_before(b, a) || key_same(a, b),
        key_same(a, b) ==> !key_before(a, b),
{
    lemma_text_total(a.text, b.text);
}

proof fn lemma_key_transitive(a: TextKey, b: TextKey, c: TextKey)
    requires
        key_before(a, b) || key_same(a, b),
        key_before(b, c) || key_same(b, c),
    ensures
        key_before(a, c) || key_same(a, c),
        key_before(a, b) || key_before(b, c) ==> key_before(a, c),
{
    if text_before(a.text, b.text) && text_before(b.text, c.text) {
        lemma_text_transitive(a.text, b.text, c.text);
    }
}

/// A value that is sorted by a key.
pub trait TextKeyed: Sized {
    spec fn key_of(&self) -> TextKey;

    fn comes_before(&self, other: &Self) -> (r: bool)
        ensures
            r == key_before(self.key_of(), other.key_of()),
    ;
}

/// `out` holds the values of `s`, that at `i` from the place `p[i]`, in the order
/// of their keys; values of one key keep their order.
pub open spec fn is_stable_order<T: TextKeyed>(s: Seq<T>, out: Seq<T>, p: Seq<int>) -> bool {
    &&& out.len() == s.len()
    &&& p.len() == s.len()
    &&& forall|i: int| 0 <= i < p.len() ==> 0 <= #[trigger] p[i] < s.len() && out[i] == s[p[i]]
    &&& forall|i: int, j: int| 0 <= i < j < p.len() ==> #[trigger] p[i] != #[trigger] p[j]
    &&& forall|k: int| 0 <= k < s.len() ==> #[trigger] p.contains(k)
    &&& forall|i: int, j: int|
        0 <= i < j < out.len() ==> in_order(#[trigger] out[i], p[i], #[trigger] out[j], p[j])
}

/// A value that was at `p` may stand in front of one that was at `q`.
pub open spec fn in_order<T: TextKeyed>(a: T, p: int, b: T, q: int) -> bool {
    key_before(a.key_of(), b.key_of()) || (key_same(a.key_of(), b.key_of()) && p < q)
}

/// `out` is `s` in the order of the keys; values of one key keep their order.
pub open spec fn stably_ordered<T: TextKeyed>(s: Seq<T>, out: Seq<T>) -> bool {
    exists|p: Seq<int>| #[trigger] is_stable_order(s, out, p)
}

proof fn lemma_inserted<T: TextKeyed>(s: Seq<T>, x: T, out: Seq<T>, p: Seq<int>, pos: int)
    requires
        is_stable_order(s, out, p),
        0 <= pos <= out.len(),
        forall|j: int| pos <= j < out.len() ==> key_before(x.key_of(), (#[trigger] out[j]).key_of()),
        pos > 0 ==> !key_before(x.key_of(), out[pos - 1].key_of()),
    ensures
        is_stable_order(s.push(x), out.insert(pos, x), p.insert(pos, s.len() as int)),
{
    let t = s.push(x);
    let o = out.insert(pos, x);
    let q = p.insert(pos, s.len() as int);
    let n = s.len() as int;
    assert forall|i: int| 0 <= i < q.len() implies 0 <= #[trigger] q[i] < t.len() && o[i]
        == t[q[i]] by {
        if i < pos {
            assert(q[i] == p[i]);
        } else if i > pos {
            assert(q[i] == p[i - 1]);
        }
    }
    assert forall|i: int, j: int| 0 <= i < j < q.len() implies #[trigger] q[i] != #[trigger] q[j] by {
        let a = if i < pos { i } else { i - 1 };
        let b = if j < pos { j } else { j - 1 };
        if i != pos && j != pos {
            assert(p[a] != p[b]);
        } else if i == pos {
            assert(p[b] < n);
        } else {
            assert(p[a] < n);
        }
    }
    assert forall|k: int| 0 <= k < t.len() implies #[trigger] q.contains(k) by {
        if k == n {
            assert(q[pos] == k);
        } else {
            assert(p.contains(k));
            let i = choose|i: int| 0 <= i < p.len() && p[i] == k;
            assert(q[if i < pos { i } else { i + 1 }] == k);
        }
    }
    assert forall|i: int, j: int| 0 <= i < j < o.len() implies in_order(
        #[trigger] o[i],
        q[i],
        #[trigger] o[j],
        q[j],
    ) by {
        let a = if i < pos { i } else { i - 1 };
        let b = if j < pos { j } else { j - 1 };
        if i != pos && j != pos {
            assert(in_order(out[a], p[a], out[b], p[b]));
        } else if i == pos {
            assert(key_before(x.key_of(), out[b].key_of()));
        } else {
            assert(p[a] < n);
            lemma_key_total(x.key_of(), out[pos - 1].key_of());
            lemma_key_total(out[a].key_of(), x.key_of());
            if a < pos - 1 {
                assert(in_order(out[a], p[a], out[pos - 1], p[pos - 1]));
                lemma_key_transitive(out[a].key_of(), out[pos - 1].key_of(), x.key_of());
            }
        }
    }
}

/// Sorts by key; values of one key keep their order.
pub fn sort_ordered<T: TextKeyed>(s: Vec<T>) -> (out: Vec<T>)
    ensures
        stably_ordered(s@, out@),
{
    let ghost all = s@;
    let mut rest = s;
    let mut out: Vec<T> = Vec::new();
    let ghost mut p: Seq<int> = Seq::empty();
    let ghost mut n: int = 0;
    assert(all.subrange(0, 0) =~= Seq::<T>::empty());
    assert(is_stable_order(all.subrange(0, 0), out@, p));
    while rest.len() > 0
        invariant
            0 <= n <= all.len(),
            rest@ == all.subrange(n, all.len() as int),
            is_stable_order(all.subrange(0, n), out@, p),
        decreases rest@.len(),
    {
        let ghost left = rest@;
        let x = rest.remove(0);
        assert(x == all[n]);
        assert(rest@ =~= all.subrange(n + 1, all.len() as int));
        let mut pos: usize = out.len();
        while pos > 0 && x.comes_before(&out[pos - 1])
            invariant
                pos <= out@.len(),
                forall|j: int|
                    pos <= j < out@.len() ==> key_before(
                        x.key_of(),
                        (#[trigger] out@[j]).key_of(),
                    ),
            decreases pos,
        {
            pos -= 1;
        }
        proof {
            lemma_inserted(all.subrange(0, n), x, out@, p, pos as int);
            assert(all.subrange(0, n).push(x) =~= all.subrange(0, n + 1));
            p = p.insert(pos as int, n);
            n = n + 1;
        }
        out.insert(pos, x);
    }
    proof {
        assert(all.subrange(0, n) =~= all);
        assert(is_stable_order(all, out@, p));
    }
    out
}

} // verus!

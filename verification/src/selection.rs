//! Which rows of the class view are selected.
use vstd::prelude::*;

use crate::class_actions::{copy_path, NodeRef};

verus! {

/// Where a row stands: its class and its path there.
pub type Place = (u128, Seq<usize>);

pub open spec fn place(r: NodeRef) -> Place {
    (r.owner, r.path@)
}

pub open spec fn places(rows: Seq<NodeRef>) -> Seq<Place> {
    rows.map_values(|r: NodeRef| place(r))
}

pub open spec fn place_of(r: Option<NodeRef>) -> Option<Place> {
    match r {
        Some(r) => Some(place(r)),
        None => None,
    }
}

/// The path `a` comes before `b`: at the first level where they differ it takes
/// the lesser child, or it ends first.
pub open spec fn path_before(a: Seq<usize>, b: Seq<usize>) -> bool
    decreases a.len(),
{
    if b.len() == 0 {
        false
    } else if a.len() == 0 {
        true
    } else if a[0] == b[0] {
        path_before(a.subrange(1, a.len() as int), b.subrange(1, b.len() as int))
    } else {
        a[0] < b[0]
    }
}

/// One place comes before another.
pub open spec fn place_before(a: Place, b: Place) -> bool {
    a.0 < b.0 || (a.0 == b.0 && path_before(a.1, b.1))
}

proof fn lemma_path_total(a: Seq<usize>, b: Seq<usize>)
    ensures
        !(path_before(a, b) && path_before(b, a)),
        a != b ==> path_before(a, b) || path_before(b, a),
        !path_before(a, a),
    decreases a.len(),
{
    if a.len() > 0 {
        let x = a.subrange(1, a.len() as int);
        lemma_path_total(x, x);
        if b.len() > 0 {
            let y = b.subrange(1, b.len() as int);
            lemma_path_total(x, y);
            if a[0] == b[0] && x == y {
                assert(a =~= seq![a[0]] + x);
                assert(b =~= seq![b[0]] + y);
            }
        }
    } else if b.len() == 0 {
        assert(a =~= b);
    }
}

proof fn lemma_path_transitive(a: Seq<usize>, b: Seq<usize>, c: Seq<usize>)
    requires
        path_before(a, b),
        path_before(b, c),
    ensures
        path_before(a, c),
    decreases a.len(),
{
    if a.len() > 0 && a[0] == b[0] && b[0] == c[0] {
        lemma_path_transitive(
            a.subrange(1, a.len() as int),
            b.subrange(1, b.len() as int),
            c.subrange(1, c.len() as int),
        );
    }
}

proof fn lemma_place_order(a: Place, b: Place, c: Place)
    ensures
        !place_before(a, a),
        !(place_before(a, b) && place_before(b, a)),
        a != b ==> place_before(a, b) || place_before(b, a),
        place_before(a, b) && place_before(b, c) ==> place_before(a, c),
{
    lemma_path_total(a.1, b.1);
    lemma_path_total(a.1, a.1);
    if path_before(a.1, b.1) && path_before(b.1, c.1) {
        lemma_path_transitive(a.1, b.1, c.1);
    }
}

fn path_before_exec(a: &Vec<usize>, b: &Vec<usize>) -> (r: bool)
    ensures
        r == path_before(a@, b@),
{
    let mut i: usize = 0;
    assert(a@.subrange(0, a@.len() as int) =~= a@);
    assert(b@.subrange(0, b@.len() as int) =~= b@);
    while i < a.len() && i < b.len()
        invariant
            i <= a@.len(),
            i <= b@.len(),
            path_before(a@, b@) == path_before(
                a@.subrange(i as int, a@.len() as int),
                b@.subrange(i as int, b@.len() as int),
            ),
        decreases a@.len() - i,
    {
        let ghost x = a@.subrange(i as int, a@.len() as int);
        let ghost y = b@.subrange(i as int, b@.len() as int);
        assert(x.subrange(1, x.len() as int) =~= a@.subrange(i + 1, a@.len() as int));
        assert(y.subrange(1, y.len() as int) =~= b@.subrange(i + 1, b@.len() as int));
        if a[i] != b[i] {
            return a[i] < b[i];
        }
        i += 1;
    }
    i < b.len()
}

/// Two rows are the same.
pub fn same_row(a: &NodeRef, b: &NodeRef) -> (r: bool)
    ensures
        r == (place(*a) == place(*b)),
{
    if a.owner != b.owner || a.path.len() != b.path.len() {
        return false;
    }
    let mut i: usize = 0;
    while i < a.path.len()
        invariant
            i <= a.path@.len(),
            a.path@.len() == b.path@.len(),
            forall|k: int| 0 <= k < i ==> a.path@[k] == b.path@[k],
        decreases a.path@.len() - i,
    {
        if a.path[i] != b.path[i] {
            return false;
        }
        i += 1;
    }
    assert(a.path@ =~= b.path@);
    true
}

/// The same row once more.
pub fn copy_row(r: &NodeRef) -> (c: NodeRef)
    ensures
        place(c) == place(*r),
{
    NodeRef { owner: r.owner, path: copy_path(&r.path) }
}

proof fn lemma_places_push(s: Seq<NodeRef>, r: NodeRef)
    ensures
        places(s.push(r)) == places(s).push(place(r)),
{
    assert(places(s.push(r)) =~= places(s).push(place(r)));
}

fn copy_rows(rows: &Vec<NodeRef>, from: usize, to: usize) -> (out: Vec<NodeRef>)
    requires
        from <= to <= rows@.len(),
    ensures
        places(out@) == places(rows@).subrange(from as int, to as int),
{
    let mut out: Vec<NodeRef> = Vec::new();
    let mut i: usize = from;
    while i < to
        invariant
            from <= i <= to <= rows@.len(),
            places(out@) =~= places(rows@).subrange(from as int, i as int),
        decreases to - i,
    {
        let c = copy_row(&rows[i]);
        proof {
            lemma_places_push(out@, c);
            assert(places(rows@).subrange(from as int, i + 1) =~= places(rows@).subrange(
                from as int,
                i as int,
            ).push(place(rows@[i as int])));
        }
        out.push(c);
        i += 1;
    }
    out
}

/// Where a row stands among others.
fn row_index(rows: &Vec<NodeRef>, r: &NodeRef) -> (at: Option<usize>)
    ensures
        match at {
            Some(i) => i < rows@.len() && places(rows@)[i as int] == place(*r) && forall|k: int|
                0 <= k < i ==> #[trigger] places(rows@)[k] != place(*r),
            None => !places(rows@).contains(place(*r)),
        },
{
    let mut i: usize = 0;
    while i < rows.len()
        invariant
            i <= rows@.len(),
            forall|k: int| 0 <= k < i ==> #[trigger] places(rows@)[k] != place(*r),
        decreases rows@.len() - i,
    {
        if same_row(&rows[i], r) {
            return Some(i);
        }
        i += 1;
    }
    None
}

/// The place at which `p` first occurs in `s`.
pub open spec fn first_index(s: Seq<Place>, p: Place, i: int) -> bool {
    0 <= i < s.len() && s[i] == p && forall|k: int| 0 <= k < i ==> #[trigger] s[k] != p
}

/// The places other than `p`.
pub open spec fn others(p: Place) -> spec_fn(Place) -> bool {
    |q: Place| q != p
}

/// The places that occur in `order`.
pub open spec fn on_screen(order: Seq<Place>) -> spec_fn(Place) -> bool {
    |q: Place| order.contains(q)
}

/// The selected rows, and the row that ranges start from and commands on a single
/// row are about.
#[derive(Debug)]
pub struct Selection {
    pub rows: Vec<NodeRef>,
    pub anchor: Option<NodeRef>,
}

/// `post` selects nothing but `p`.
pub open spec fn selects_only(post: Selection, p: Place) -> bool {
    places(post.rows@) == seq![p] && place_of(post.anchor) == Some(p)
}

/// `post` is `pre` after `p` was added or, where it was selected, dropped. What
/// was added is the anchor; else the last row that is left is.
pub open spec fn toggles(pre: Selection, post: Selection, p: Place) -> bool {
    let was = places(pre.rows@);
    let now = places(post.rows@);
    if was.contains(p) {
        &&& now == was.filter(others(p))
        &&& place_of(post.anchor) == if now.len() == 0 {
            None
        } else {
            Some(now.last())
        }
    } else {
        now == was.push(p) && place_of(post.anchor) == Some(p)
    }
}

/// `post` is `pre` extended to `p`: the rows on screen from the anchor to it, in
/// either direction. Where one of them is not on screen `p` alone is selected.
pub open spec fn extends(pre: Selection, post: Selection, p: Place, order: Seq<Place>) -> bool {
    match place_of(pre.anchor) {
        Some(a) => if order.contains(a) && order.contains(p) {
            exists|i: int, j: int|
                {
                    &&& #[trigger] first_index(order, a, i)
                    &&& #[trigger] first_index(order, p, j)
                    &&& places(post.rows@) == if i <= j {
                        order.subrange(i, j + 1)
                    } else {
                        order.subrange(j, i + 1)
                    }
                    &&& place_of(post.anchor) == Some(a)
                }
        } else {
            selects_only(post, p)
        },
        None => selects_only(post, p),
    }
}

/// The row next to the row number `i` of `n`, where there is one.
pub open spec fn neighbour(i: int, n: nat, up: bool) -> int {
    if up {
        if i > 0 {
            i - 1
        } else {
            0
        }
    } else if i + 1 < n {
        i + 1
    } else {
        i
    }
}

/// `post` is `pre` after a step to the row `p`, which is added or selected alone.
pub open spec fn stepped_to(pre: Selection, post: Selection, p: Place, extend: bool) -> bool {
    if extend {
        &&& places(post.rows@) == if places(pre.rows@).contains(p) {
            places(pre.rows@)
        } else {
            places(pre.rows@).push(p)
        }
        &&& place_of(post.anchor) == Some(p)
    } else {
        selects_only(post, p)
    }
}

/// `post` is `pre` after a step up or down the rows on screen. It starts at the
/// anchor; without one on screen at the last or the first row.
pub open spec fn steps(
    pre: Selection,
    post: Selection,
    order: Seq<Place>,
    up: bool,
    extend: bool,
) -> bool {
    if order.len() == 0 {
        post == pre
    } else {
        let anchored = match place_of(pre.anchor) {
            Some(a) => order.contains(a),
            None => false,
        };
        if anchored {
            exists|i: int|
                #[trigger] first_index(order, place_of(pre.anchor)->0, i) && stepped_to(
                    pre,
                    post,
                    order[neighbour(i, order.len(), up)],
                    extend,
                )
        } else {
            stepped_to(
                pre,
                post,
                if up {
                    order.last()
                } else {
                    order[0]
                },
                extend,
            )
        }
    }
}

/// Each place comes behind the next one.
pub open spec fn descending(s: Seq<Place>) -> bool {
    forall|i: int, j: int| 0 <= i < j < s.len() ==> place_before(#[trigger] s[j], #[trigger] s[i])
}

impl Selection {
    pub fn new() -> (s: Self)
        ensures
            s.rows@.len() == 0,
            s.anchor is None,
    {
        Selection { rows: Vec::new(), anchor: None }
    }

    pub fn clear(&mut self)
        ensures
            final(self).rows@.len() == 0,
            final(self).anchor is None,
    {
        self.rows = Vec::new();
        self.anchor = None;
    }

    pub fn len(&self) -> (n: usize)
        ensures
            n == self.rows@.len(),
    {
        self.rows.len()
    }

    pub fn is_empty(&self) -> (r: bool)
        ensures
            r == (self.rows@.len() == 0),
    {
        self.rows.len() == 0
    }

    pub fn contains(&self, row: &NodeRef) -> (r: bool)
        ensures
            r == places(self.rows@).contains(place(*row)),
    {
        match row_index(&self.rows, row) {
            Some(i) => {
                assert(places(self.rows@)[i as int] == place(*row));
                true
            },
            None => false,
        }
    }

    /// The row that commands on a single row are about.
    pub fn anchor(&self) -> (r: Option<&NodeRef>)
        ensures
            match r {
                Some(a) => self.anchor == Some(*a),
                None => self.anchor is None,
            },
    {
        self.anchor.as_ref()
    }

    /// Selects one row.
    pub fn set_single(&mut self, row: NodeRef)
        ensures
            selects_only(*final(self), place(row)),
    {
        let anchor = copy_row(&row);
        self.rows = vec![row];
        self.anchor = Some(anchor);
        assert(places(self.rows@) =~= seq![place(row)]);
    }

    /// Adds a row, or drops it where it is selected.
    pub fn toggle(&mut self, row: NodeRef)
        ensures
            toggles(*old(self), *final(self), place(row)),
    {
        if self.contains(&row) {
            let ghost was = places(self.rows@);
            let ghost keep = others(place(row));
            let mut rest: Vec<NodeRef> = Vec::new();
            for i in 0..self.rows.len()
                invariant
                    was == places(self.rows@),
                    keep == others(place(row)),
                    places(rest@) == was.subrange(0, i as int).filter(keep),
            {
                proof {
                    assert(was.subrange(0, i + 1).drop_last() =~= was.subrange(0, i as int));
                    reveal(Seq::filter);
                }
                if !same_row(&self.rows[i], &row) {
                    let c = copy_row(&self.rows[i]);
                    proof {
                        lemma_places_push(rest@, c);
                    }
                    rest.push(c);
                }
            }
            assert(was.subrange(0, was.len() as int) =~= was);
            self.rows = rest;
            let n: usize = self.rows.len();
            self.anchor = if n == 0 {
                None
            } else {
                Some(copy_row(&self.rows[n - 1]))
            };
        } else {
            let anchor = copy_row(&row);
            let ghost was = places(self.rows@);
            self.rows.push(row);
            self.anchor = Some(anchor);
            assert(places(self.rows@) =~= was.push(place(row)));
        }
    }

    /// Selects the rows on screen from the anchor to a row.
    pub fn extend_to(&mut self, row: NodeRef, order: &Vec<NodeRef>)
        ensures
            extends(*old(self), *final(self), place(row), places(order@)),
    {
        let n: usize = order.len();
        let ends = match &self.anchor {
            Some(a) => match (row_index(order, a), row_index(order, &row)) {
                (Some(i), Some(j)) => Some((i, j)),
                _ => None,
            },
            None => None,
        };
        match ends {
            Some((i, j)) => {
                proof {
                    let s = places(order@);
                    let a = place_of(self.anchor)->0;
                    assert(first_index(s, a, i as int));
                    assert(first_index(s, place(row), j as int));
                    assert(s.contains(a) && s.contains(place(row)));
                    assert(i < n && j < n);
                }
                self.rows = if i <= j {
                    copy_rows(order, i, j + 1)
                } else {
                    copy_rows(order, j, i + 1)
                };
            },
            None => {
                self.set_single(row);
            },
        }
    }

    /// Selects all rows on screen. Without an anchor the first becomes it.
    pub fn select_all(&mut self, order: &Vec<NodeRef>)
        ensures
            places(final(self).rows@) == places(order@),
            place_of(final(self).anchor) == if old(self).anchor is None && order@.len() > 0 {
                Some(places(order@)[0])
            } else {
                place_of(old(self).anchor)
            },
    {
        self.rows = copy_rows(order, 0, order.len());
        assert(places(order@).subrange(0, order@.len() as int) =~= places(order@));
        if self.anchor.is_none() && order.len() > 0 {
            self.anchor = Some(copy_row(&order[0]));
        }
    }

    fn step_to(&mut self, row: NodeRef, extend: bool)
        ensures
            stepped_to(*old(self), *final(self), place(row), extend),
    {
        if extend {
            let anchor = copy_row(&row);
            if !self.contains(&row) {
                let ghost was = places(self.rows@);
                self.rows.push(row);
                assert(places(self.rows@) =~= was.push(place(row)));
            }
            self.anchor = Some(anchor);
        } else {
            self.set_single(row);
        }
    }

    /// Goes up or down by one row.
    pub fn step(&mut self, order: &Vec<NodeRef>, up: bool, extend: bool)
        ensures
            steps(*old(self), *final(self), places(order@), up, extend),
    {
        let n: usize = order.len();
        if n == 0 {
            return;
        }
        let ghost s = places(order@);
        let at = match &self.anchor {
            Some(a) => row_index(order, a),
            None => None,
        };
        match at {
            Some(i) => {
                assert(first_index(s, place_of(self.anchor)->0, i as int));
                let j: usize = if up {
                    if i > 0 {
                        i - 1
                    } else {
                        0
                    }
                } else if i < n - 1 {
                    i + 1
                } else {
                    i
                };
                assert(s[j as int] == place(order@[j as int]));
                self.step_to(copy_row(&order[j]), extend);
            },
            None => {
                let j: usize = if up {
                    n - 1
                } else {
                    0
                };
                assert(s[j as int] == place(order@[j as int]));
                self.step_to(copy_row(&order[j]), extend);
            },
        }
    }

    /// Drops the rows that are not on screen, so that no command is about a row
    /// that nobody sees.
    pub fn retain_visible(&mut self, order: &Vec<NodeRef>)
        ensures
            places(final(self).rows@) == places(old(self).rows@).filter(
                on_screen(places(order@)),
            ),
            place_of(final(self).anchor) == match place_of(old(self).anchor) {
                Some(a) => if places(order@).contains(a) {
                    Some(a)
                } else {
                    None
                },
                None => None,
            },
    {
        let ghost was = places(self.rows@);
        let ghost keep = on_screen(places(order@));
        let mut rest: Vec<NodeRef> = Vec::new();
        for i in 0..self.rows.len()
            invariant
                was == places(self.rows@),
                keep == on_screen(places(order@)),
                places(rest@) == was.subrange(0, i as int).filter(keep),
        {
            proof {
                assert(was.subrange(0, i + 1).drop_last() =~= was.subrange(0, i as int));
                reveal(Seq::filter);
            }
            match row_index(order, &self.rows[i]) {
                Some(k) => {
                    assert(places(order@)[k as int] == was[i as int]);
                    let c = copy_row(&self.rows[i]);
                    proof {
                        lemma_places_push(rest@, c);
                    }
                    rest.push(c);
                },
                None => {},
            }
        }
        assert(was.subrange(0, was.len() as int) =~= was);
        self.rows = rest;
        let seen = match &self.anchor {
            Some(a) => match row_index(order, a) {
                Some(k) => {
                    assert(places(order@)[k as int] == place(*a));
                    true
                },
                None => false,
            },
            None => true,
        };
        if !seen {
            self.anchor = None;
        }
    }

    /// The selected rows, each once, the last first: rows can be removed in this
    /// order without moving those that follow.
    pub fn rows_descending(&self) -> (out: Vec<NodeRef>)
        ensures
            descending(places(out@)),
            forall|p: Place| #[trigger]
                places(out@).contains(p) <==> places(self.rows@).contains(p),
    {
        let ghost s = places(self.rows@);
        let mut out: Vec<NodeRef> = Vec::new();
        for i in 0..self.rows.len()
            invariant
                s == places(self.rows@),
                descending(places(out@)),
                forall|p: Place| #[trigger]
                    places(out@).contains(p) <==> s.subrange(0, i as int).contains(p),
        {
            let ghost was = places(out@);
            insert_descending(&mut out, copy_row(&self.rows[i]));
            assert forall|p: Place| #[trigger] places(out@).contains(p) <==> s.subrange(
                0,
                i + 1,
            ).contains(p) by {
                let head = s.subrange(0, i as int);
                let all = s.subrange(0, i + 1);
                assert(all =~= head.push(s[i as int]));
                if head.contains(p) {
                    let k = head.index_of(p);
                    assert(all[k] == p);
                }
                assert(all[i as int] == s[i as int]);
                if all.contains(p) {
                    let k = all.index_of(p);
                    if k < i {
                        assert(head[k] == p);
                    }
                }
                assert(was.contains(p) <==> head.contains(p));
            }
        }
        assert(s.subrange(0, s.len() as int) =~= s);
        out
    }

    /// The paths of the selected rows of a class, the last first.
    pub fn paths_descending(&self, owner: u128) -> (out: Vec<Vec<usize>>)
        ensures
            forall|i: int, j: int|
                0 <= i < j < out@.len() ==> path_before(
                    (#[trigger] out@[j])@,
                    (#[trigger] out@[i])@,
                ),
            forall|i: int|
                0 <= i < out@.len() ==> places(self.rows@).contains(
                    (owner, (#[trigger] out@[i])@),
                ),
            forall|path: Seq<usize>| #[trigger]
                places(self.rows@).contains((owner, path)) ==> exists|i: int|
                    0 <= i < out@.len() && (#[trigger] out@[i])@ == path,
    {
        let rows = self.rows_descending();
        let ghost s = places(rows@);
        let mut out: Vec<Vec<usize>> = Vec::new();
        let ghost mut from: Seq<int> = Seq::empty();
        for k in 0..rows.len()
            invariant
                s == places(rows@),
                descending(s),
                from.len() == out@.len(),
                forall|i: int|
                    0 <= i < out@.len() ==> 0 <= (#[trigger] from[i]) < k && s[from[i]] == (
                        owner,
                        out@[i]@,
                    ),
                forall|i: int, j: int| 0 <= i < j < from.len() ==> #[trigger] from[i] < #[trigger] from[j],
                forall|m: int|
                    0 <= m < k && (#[trigger] s[m]).0 == owner ==> exists|i: int|
                        0 <= i < out@.len() && (#[trigger] out@[i])@ == s[m].1,
        {
            let ghost was = out@;
            if rows[k].owner == owner {
                let c = copy_row(&rows[k]);
                out.push(c.path);
                proof {
                    from = from.push(k as int);
                    assert(out@[out@.len() - 1]@ == s[k as int].1);
                }
            }
            proof {
                assert forall|m: int| 0 <= m < k + 1 && (#[trigger] s[m]).0 == owner implies exists|
                    i: int,
                |
                    0 <= i < out@.len() && (#[trigger] out@[i])@ == s[m].1 by {
                    if m < k {
                        let i = choose|i: int| 0 <= i < was.len() && (#[trigger] was[i])@ == s[m].1;
                        assert(out@[i]@ == s[m].1);
                    } else {
                        assert(out@[out@.len() - 1]@ == s[m].1);
                    }
                }
            }
        }
        proof {
            assert forall|i: int, j: int| 0 <= i < j < out@.len() implies path_before(
                (#[trigger] out@[j])@,
                (#[trigger] out@[i])@,
            ) by {
                assert(from[i] < from[j]);
                assert(place_before(s[from[j]], s[from[i]]));
            }
            assert forall|i: int| 0 <= i < out@.len() implies places(self.rows@).contains(
                (owner, (#[trigger] out@[i])@),
            ) by {
                assert(s[from[i]] == (owner, out@[i]@));
                assert(s.contains((owner, out@[i]@)));
            }
            assert forall|path: Seq<usize>| #[trigger]
                places(self.rows@).contains((owner, path)) implies exists|i: int|
                0 <= i < out@.len() && (#[trigger] out@[i])@ == path by {
                assert(s.contains((owner, path)));
                let m = s.index_of((owner, path));
                assert(s[m].0 == owner);
            }
        }
        out
    }
}

/// Puts a row into its place among rows that descend, unless it is there.
fn insert_descending(out: &mut Vec<NodeRef>, row: NodeRef)
    requires
        descending(places(old(out)@)),
    ensures
        descending(places(final(out)@)),
        forall|p: Place| #[trigger]
            places(final(out)@).contains(p) <==> places(old(out)@).contains(p) || p == place(row),
{
    let ghost was = places(out@);
    let ghost p = place(row);
    let mut i: usize = 0;
    while i < out.len()
        invariant
            was == places(out@),
            p == place(row),
            i <= out@.len(),
            forall|k: int| 0 <= k < i ==> place_before(p, #[trigger] was[k]),
        ensures
            was == places(out@),
            i <= out@.len(),
            forall|k: int| 0 <= k < i ==> place_before(p, #[trigger] was[k]),
            i < out@.len() ==> !place_before(p, was[i as int]),
        decreases out@.len() - i,
    {
        let o = &out[i];
        let before = row.owner < o.owner || (row.owner == o.owner && path_before_exec(
            &row.path,
            &o.path,
        ));
        assert(was[i as int] == place(*o));
        if !before {
            break;
        }
        i += 1;
    }
    if i < out.len() && same_row(&out[i], &row) {
        assert(was[i as int] == p);
        return;
    }
    out.insert(i, row);
    proof {
        let now = places(out@);
        assert(now =~= was.insert(i as int, p));
        assert forall|a: int, b: int| 0 <= a < b < now.len() implies place_before(
            #[trigger] now[b],
            #[trigger] now[a],
        ) by {
            if i < was.len() {
                lemma_place_order(was[i as int], p, p);
                assert(place_before(was[i as int], p));
            }
            if a == i {
                let k = b - 1;
                if k > i {
                    assert(place_before(was[k], was[i as int]));
                    lemma_place_order(was[k], was[i as int], p);
                }
            } else if b == i {
                assert(place_before(p, was[a]));
            } else {
                let x = if a < i { a } else { a - 1 };
                let y = if b < i { b } else { b - 1 };
                assert(place_before(was[y], was[x]));
            }
        }
        assert forall|q: Place| #[trigger] now.contains(q) <==> was.contains(q) || q == p by {
            if was.contains(q) {
                let k = was.index_of(q);
                assert(now[if k < i { k } else { k + 1 }] == q);
            }
            assert(now[i as int] == p);
            if now.contains(q) {
                let k = now.index_of(q);
                if k < i {
                    assert(was[k] == q);
                } else if k > i {
                    assert(was[k - 1] == q);
                }
            }
        }
    }
}

proof fn lemma_nothing_dropped(s: Seq<Place>, p: Place)
    requires
        !s.contains(p),
    ensures
        s.filter(others(p)) == s,
    decreases s.len(),
{
    reveal(Seq::filter);
    if s.len() > 0 {
        assert(s.drop_last().push(s.last()) =~= s);
        assert(s[s.len() - 1] != p);
        assert forall|k: int| 0 <= k < s.len() - 1 implies s.drop_last()[k] != p by {
            assert(s[k] != p);
        }
        lemma_nothing_dropped(s.drop_last(), p);
    }
}

/// A row that was added and dropped again leaves the same rows selected.
pub proof fn second_toggle_drops_what_was_added(
    pre: Selection,
    mid: Selection,
    post: Selection,
    p: Place,
)
    requires
        !places(pre.rows@).contains(p),
        toggles(pre, mid, p),
        toggles(mid, post, p),
    ensures
        places(post.rows@) == places(pre.rows@),
{
    let was = places(pre.rows@);
    reveal(Seq::filter);
    assert(was.push(p)[was.len() as int] == p);
    assert(was.push(p).drop_last() =~= was);
    lemma_nothing_dropped(was, p);
}

/// Extending the selection takes in just the rows from the one that it started at to
/// the one that was clicked, both with it, whichever comes first. Where it started
/// stays, so extending it again measures from the same row.
pub proof fn extension_takes_what_lies_between(
    pre: Selection,
    post: Selection,
    order: Seq<Place>,
    i: int,
    j: int,
    k: int,
)
    requires
        order.no_duplicates(),
        0 <= i < order.len(),
        0 <= j < order.len(),
        0 <= k < order.len(),
        place_of(pre.anchor) == Some(order[i]),
        extends(pre, post, order[j], order),
    ensures
        places(post.rows@).contains(order[k]) <==> (i <= k <= j || j <= k <= i),
        places(post.rows@).len() == if i <= j {
            j - i + 1
        } else {
            i - j + 1
        },
        place_of(post.anchor) == Some(order[i]),
{
    let a = order[i];
    let p = order[j];
    let now = places(post.rows@);
    let (x, y) = choose|x: int, y: int|
        {
            &&& #[trigger] first_index(order, a, x)
            &&& #[trigger] first_index(order, p, y)
            &&& now == if x <= y {
                order.subrange(x, y + 1)
            } else {
                order.subrange(y, x + 1)
            }
            &&& place_of(post.anchor) == Some(a)
        };
    assert(x == i && y == j);
    let lo = if i <= j {
        i
    } else {
        j
    };
    let hi = if i <= j {
        j
    } else {
        i
    };
    assert(now == order.subrange(lo, hi + 1));
    if lo <= k <= hi {
        assert(now[k - lo] == order[k]);
    }
    if now.contains(order[k]) {
        let q = now.index_of(order[k]);
        assert(order[lo + q] == order[k]);
    }
}

/// A step down from a row selects the row below it alone, and a step up from there
/// the row itself again. At the ends the selection stays where it is.
pub proof fn step_up_undoes_step_down(
    pre: Selection,
    mid: Selection,
    post: Selection,
    order: Seq<Place>,
    i: int,
)
    requires
        order.no_duplicates(),
        0 <= i < order.len(),
        place_of(pre.anchor) == Some(order[i]),
        steps(pre, mid, order, false, false),
        steps(mid, post, order, true, false),
    ensures
        i + 1 < order.len() ==> selects_only(mid, order[i + 1]) && selects_only(post, order[i]),
        i + 1 == order.len() ==> selects_only(mid, order[i]),
{
    let x = choose|x: int|
        #[trigger] first_index(order, order[i], x) && stepped_to(
            pre,
            mid,
            order[neighbour(x, order.len(), false)],
            false,
        );
    assert(first_index(order, order[i], x));
    assert(x == i);
    if i + 1 < order.len() {
        assert(place_of(mid.anchor) == Some(order[i + 1]));
        let y = choose|y: int|
            #[trigger] first_index(order, order[i + 1], y) && stepped_to(
                mid,
                post,
                order[neighbour(y, order.len(), true)],
                false,
            );
        assert(first_index(order, order[i + 1], y));
        assert(y == i + 1);
    }
}

/// Stepping with the selection extended keeps what was selected and adds the row that
/// is stepped to.
pub proof fn extended_step_keeps_the_selection(
    pre: Selection,
    post: Selection,
    order: Seq<Place>,
    up: bool,
    i: int,
)
    requires
        order.no_duplicates(),
        0 <= i < order.len(),
        place_of(pre.anchor) == Some(order[i]),
        steps(pre, post, order, up, true),
    ensures
        forall|q: Place| places(pre.rows@).contains(q) ==> #[trigger] places(post.rows@).contains(q),
        up && i > 0 ==> places(post.rows@).contains(order[i - 1]) && place_of(post.anchor) == Some(
            order[i - 1],
        ),
        !up && i + 1 < order.len() ==> places(post.rows@).contains(order[i + 1]) && place_of(
            post.anchor,
        ) == Some(order[i + 1]),
        places(post.rows@).len() <= places(pre.rows@).len() + 1,
{
    let x = choose|x: int|
        #[trigger] first_index(order, order[i], x) && stepped_to(
            pre,
            post,
            order[neighbour(x, order.len(), up)],
            true,
        );
    assert(first_index(order, order[i], x));
    assert(x == i);
    let was = places(pre.rows@);
    let now = places(post.rows@);
    let p = order[neighbour(i, order.len(), up)];
    if !was.contains(p) {
        assert(now[was.len() as int] == p);
        assert forall|q: Place| was.contains(q) implies #[trigger] now.contains(q) by {
            let k = was.index_of(q);
            assert(now[k] == q);
        }
    }
}

/// A toggle adds a row that is not selected and drops one that is, and leaves every
/// other row as it was.
pub proof fn toggle_changes_one_row(pre: Selection, post: Selection, p: Place, q: Place)
    requires
        toggles(pre, post, p),
    ensures
        places(post.rows@).contains(p) <==> !places(pre.rows@).contains(p),
        q != p ==> (places(post.rows@).contains(q) <==> places(pre.rows@).contains(q)),
{
    let was = places(pre.rows@);
    let now = places(post.rows@);
    if was.contains(p) {
        was.filter_lemma(others(p));
        if now.contains(p) {
            let k = now.index_of(p);
            assert(others(p)(now[k]));
        }
        if q != p && was.contains(q) {
            let k = was.index_of(q);
            assert(others(p)(was[k]));
            assert(now.contains(was[k]));
        }
        if now.contains(q) {
            was.lemma_filter_contains_rev(others(p), q);
        }
    } else {
        assert(now[was.len() as int] == p);
        if was.contains(q) {
            let k = was.index_of(q);
            assert(now[k] == q);
        }
        if now.contains(q) && q != p {
            let k = now.index_of(q);
            assert(was[k] == q);
        }
    }
}

} // verus!

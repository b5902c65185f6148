//! Incremental connectivity tracker: a disjoint-set forest over the cells of
//! one player plus three virtual side anchors.
//!
//! The tracker records, as ghost state, the sequence of links it was asked to
//! make.  Its single guarantee is that two elements share a root exactly when
//! the link sequence `joined` them, where [`joined`] is the equivalence
//! closure of the links.  The forest keeps every parent index at or below its
//! child and halves paths as it walks them, so later queries get shorter
//! walks.

use vstd::prelude::*;

verus! {

/// Two elements are joined by a sequence of links exactly when they are
/// related by the equivalence closure of the links: every element is joined
/// to itself, and a link `(u, v)` merges the classes of `u` and `v`.
pub open spec fn joined(links: Seq<(int, int)>, a: int, b: int) -> bool
    decreases links.len(),
{
    if links.len() == 0 {
        a == b
    } else {
        let l = links.last();
        let rest = links.drop_last();
        joined(rest, a, b) || (joined(rest, a, l.0) && joined(rest, b, l.1)) || (joined(
            rest,
            a,
            l.1,
        ) && joined(rest, b, l.0))
    }
}

/// The forest keeps every parent at or below its child, so every walk to a
/// root terminates.
spec fn wf_parents(p: Seq<u32>) -> bool {
    forall|i: int| 0 <= i < p.len() ==> #[trigger] p[i] <= i
}

/// The root of the tree that holds element `i`.
spec fn root_of(p: Seq<u32>, i: int) -> int
    decreases i,
        when 0 <= i < p.len() && wf_parents(p)
{
    if p[i] == i {
        i
    } else {
        root_of(p, p[i] as int)
    }
}

/// `joined` is an equivalence relation: reflexive, symmetric and transitive.
pub proof fn lemma_joined_equivalence(links: Seq<(int, int)>)
    ensures
        forall|a: int| #[trigger] joined(links, a, a),
        forall|a: int, b: int| #[trigger] joined(links, a, b) ==> joined(links, b, a),
        forall|a: int, b: int, c: int|
            #[trigger] joined(links, a, b) && #[trigger] joined(links, b, c) ==> joined(
                links,
                a,
                c,
            ),
    decreases links.len(),
{
    if links.len() > 0 {
        let l = links.last();
        let rest = links.drop_last();
        lemma_joined_equivalence(rest);
        assert forall|a: int| #[trigger] joined(links, a, a) by {
            assert(joined(rest, a, a));
        }
        assert forall|a: int, b: int| #[trigger] joined(links, a, b) implies joined(
            links,
            b,
            a,
        ) by {
            assert(joined(rest, a, b) ==> joined(rest, b, a));
            assert(joined(rest, a, l.0) ==> joined(rest, l.0, a));
            assert(joined(rest, a, l.1) ==> joined(rest, l.1, a));
        }
        assert forall|a: int, b: int, c: int|
            #[trigger] joined(links, a, b) && #[trigger] joined(links, b, c) implies joined(
            links,
            a,
            c,
        ) by {
            if joined(rest, a, b) {
                if joined(rest, b, c) {
                    assert(joined(rest, a, c));
                } else if joined(rest, b, l.0) && joined(rest, c, l.1) {
                    assert(joined(rest, a, l.0));
                } else {
                    assert(joined(rest, b, l.1) && joined(rest, c, l.0));
                    assert(joined(rest, a, l.1));
                }
            } else if joined(rest, a, l.0) && joined(rest, b, l.1) {
                if joined(rest, b, c) {
                    assert(joined(rest, c, l.1));
                } else if joined(rest, b, l.0) && joined(rest, c, l.1) {
                    assert(joined(rest, l.0, l.1));
                    assert(joined(rest, a, l.1));
                    assert(joined(rest, l.1, c));
                    assert(joined(rest, a, c));
                } else {
                    assert(joined(rest, b, l.1) && joined(rest, c, l.0));
                    assert(joined(rest, a, l.0) && joined(rest, l.0, c));
                    assert(joined(rest, a, c));
                }
            } else {
                assert(joined(rest, a, l.1) && joined(rest, b, l.0));
                if joined(rest, b, c) {
                    assert(joined(rest, c, l.0));
                } else if joined(rest, b, l.0) && joined(rest, c, l.1) {
                    assert(joined(rest, a, l.1) && joined(rest, l.1, c));
                    assert(joined(rest, a, c));
                } else {
                    assert(joined(rest, b, l.1) && joined(rest, c, l.0));
                    assert(joined(rest, l.0, l.1));
                    assert(joined(rest, a, l.0));
                    assert(joined(rest, l.0, c));
                    assert(joined(rest, a, c));
                }
            }
        }
    }
}

/// What a link sequence joins, a longer one still joins.
pub proof fn lemma_joined_concat(links: Seq<(int, int)>, more: Seq<(int, int)>, a: int, b: int)
    requires
        joined(links, a, b),
    ensures
        joined(links + more, a, b),
    decreases more.len(),
{
    if more.len() == 0 {
        assert(links + more =~= links);
    } else {
        lemma_joined_concat(links, more.drop_last(), a, b);
        assert((links + more).drop_last() =~= links + more.drop_last());
    }
}

/// Every link of a sequence joins its own two ends.
pub proof fn lemma_link_joined(links: Seq<(int, int)>, k: int)
    requires
        0 <= k < links.len(),
    ensures
        joined(links, links[k].0, links[k].1),
    decreases links.len(),
{
    lemma_joined_equivalence(links.drop_last());
    if k < links.len() - 1 {
        lemma_link_joined(links.drop_last(), k);
        assert(links.drop_last()[k] == links[k]);
    } else {
        assert(links[k] == links.last());
        assert(joined(links.drop_last(), links.last().0, links.last().0));
        assert(joined(links.drop_last(), links.last().1, links.last().1));
    }
}

/// An element no link mentions is joined to itself alone.
pub proof fn lemma_unmentioned_isolated(links: Seq<(int, int)>, a: int, b: int)
    requires
        forall|k: int| 0 <= k < links.len() ==> (#[trigger] links[k]).0 != a && links[k].1 != a,
        joined(links, a, b),
    ensures
        a == b,
    decreases links.len(),
{
    if links.len() > 0 {
        let l = links.last();
        let rest = links.drop_last();
        assert forall|k: int|
            0 <= k < rest.len() implies (#[trigger] rest[k]).0 != a && rest[k].1 != a by {
            assert(rest[k] == links[k]);
        }
        assert(links[links.len() - 1] == l);
        if joined(rest, a, b) {
            lemma_unmentioned_isolated(rest, a, b);
        } else if joined(rest, a, l.0) && joined(rest, b, l.1) {
            lemma_unmentioned_isolated(rest, a, l.0);
        } else {
            lemma_unmentioned_isolated(rest, a, l.1);
        }
    }
}

/// A link between elements already joined changes nothing: the closure after
/// the link is the closure before it.
pub proof fn lemma_joined_redundant_link(links: Seq<(int, int)>, l: (int, int), a: int, b: int)
    requires
        joined(links, l.0, l.1),
    ensures
        joined(links.push(l), a, b) == joined(links, a, b),
{
    lemma_joined_equivalence(links);
    assert(links.push(l).drop_last() =~= links);
    assert(links.push(l).last() == l);
    if joined(links.push(l), a, b) {
        if joined(links, a, l.0) && joined(links, b, l.1) {
            assert(joined(links, l.1, b));
            assert(joined(links, a, l.1));
            assert(joined(links, a, b));
        }
        if joined(links, a, l.1) && joined(links, b, l.0) {
            assert(joined(links, l.0, b));
            assert(joined(links, l.1, l.0));
            assert(joined(links, a, l.0));
            assert(joined(links, a, b));
        }
    }
}

/// The roots of a forest are fixed points of the parent map.
proof fn lemma_root_is_root(p: Seq<u32>, i: int)
    requires
        wf_parents(p),
        0 <= i < p.len(),
    ensures
        0 <= root_of(p, i) <= i,
        p[root_of(p, i)] == root_of(p, i),
    decreases i,
{
    if p[i] != i {
        lemma_root_is_root(p, p[i] as int);
    }
}

/// Replacing one parent pointer by the grandparent moves no element to a
/// different root.
proof fn lemma_halving_preserves_root(p: Seq<u32>, x: int, y: int)
    requires
        wf_parents(p),
        0 <= x < p.len(),
        p[x] != x,
        0 <= y < p.len(),
    ensures
        wf_parents(p.update(x, p[p[x] as int])),
        root_of(p.update(x, p[p[x] as int]), y) == root_of(p, y),
    decreases y,
{
    let g = p[p[x] as int];
    let p2 = p.update(x, g);
    assert(wf_parents(p2));
    if y == x {
        // g < x, so the walk from x in the halved forest goes through g.
        assert(root_of(p2, y) == root_of(p2, g as int));
        assert(root_of(p, y) == root_of(p, p[x] as int));
        if g as int == p[x] as int {
            // p[x] is its own parent, hence a root, and so is g.
            assert(root_of(p, p[x] as int) == p[x] as int);
            assert(p2[g as int] == g);
            assert(root_of(p2, g as int) == g as int);
        } else {
            assert(root_of(p, p[x] as int) == root_of(p, g as int));
            lemma_halving_preserves_root(p, x, g as int);
        }
    } else {
        if p[y] != y {
            lemma_halving_preserves_root(p, x, p[y] as int);
            assert(root_of(p2, y) == root_of(p2, p[y] as int));
            assert(root_of(p, y) == root_of(p, p[y] as int));
        } else {
            assert(root_of(p2, y) == y);
            assert(root_of(p, y) == y);
        }
    }
}

/// Pointing one root at another root below it sends its whole class to the
/// lower root and moves nothing else.
proof fn lemma_link_root(p: Seq<u32>, hi: int, lo: int, y: int)
    requires
        wf_parents(p),
        0 <= lo < hi < p.len(),
        p[hi] == hi,
        p[lo] == lo,
        0 <= y < p.len(),
    ensures
        wf_parents(p.update(hi, lo as u32)),
        root_of(p.update(hi, lo as u32), y) == if root_of(p, y) == hi {
            lo as int
        } else {
            root_of(p, y)
        },
    decreases y,
{
    let p2 = p.update(hi, lo as u32);
    assert(wf_parents(p2));
    if y == hi {
        assert(root_of(p2, y) == root_of(p2, lo));
    } else {
        if p[y] != y {
            lemma_link_root(p, hi, lo, p[y] as int);
        }
    }
}

/// Disjoint-set forest over `size()` elements, with the ghost sequence of
/// links it has been asked to make.
pub struct ConnectivityTracker {
    parent: Vec<u32>,
    links: Ghost<Seq<(int, int)>>,
}

impl ConnectivityTracker {
    /// Number of elements the tracker was built over.
    pub closed spec fn size(&self) -> int {
        self.parent@.len() as int
    }

    /// The links made so far, in order.
    pub closed spec fn links(&self) -> Seq<(int, int)> {
        self.links@
    }

    /// The forest is well formed and its classes agree with the equivalence
    /// closure of the recorded links.
    pub closed spec fn wf(&self) -> bool {
        &&& self.parent@.len() <= u32::MAX
        &&& wf_parents(self.parent@)
        &&& forall|k: int|
            0 <= k < self.links@.len() ==> 0 <= (#[trigger] self.links@[k]).0 < self.parent@.len()
                && 0 <= self.links@[k].1 < self.parent@.len()
        &&& forall|a: int, b: int|
            0 <= a < self.parent@.len() && 0 <= b < self.parent@.len() ==> ((root_of(
                self.parent@,
                a,
            ) == root_of(self.parent@, b)) <==> #[trigger] joined(self.links@, a, b))
    }

    /// Builds a tracker of `n` singleton elements, with no links yet.
    pub fn new(n: u32) -> (r: ConnectivityTracker)
        ensures
            r.wf(),
            r.size() == n,
            r.links() == Seq::<(int, int)>::empty(),
    {
        let mut parent: Vec<u32> = Vec::new();
        let mut i: u32 = 0;
        while i < n
            invariant
                i <= n,
                parent@.len() == i,
                forall|k: int| 0 <= k < i ==> #[trigger] parent@[k] == k,
            decreases n - i,
        {
            parent.push(i);
            i = i + 1;
        }
        let r = ConnectivityTracker { parent, links: Ghost(Seq::empty()) };
        proof {
            assert forall|a: int, b: int|
                0 <= a < r.parent@.len() && 0 <= b < r.parent@.len() implies ((root_of(
                r.parent@,
                a,
            ) == root_of(r.parent@, b)) <==> #[trigger] joined(r.links@, a, b)) by {
                assert(root_of(r.parent@, a) == a);
                assert(root_of(r.parent@, b) == b);
            }
        }
        r
    }

    /// Walks to the root of `x`, halving the path behind it; the classes of
    /// the forest do not change.
    fn find(&mut self, x: u32) -> (r: u32)
        requires
            old(self).wf(),
            x < old(self).size(),
        ensures
            final(self).wf(),
            final(self).size() == old(self).size(),
            final(self).links() == old(self).links(),
            r < final(self).size(),
            r as int == root_of(old(self).parent@, x as int),
            forall|y: int|
                0 <= y < old(self).size() ==> root_of(final(self).parent@, y) == root_of(
                    old(self).parent@,
                    y,
                ),
    {
        let ghost p0 = self.parent@;
        let mut cur: u32 = x;
        loop
            invariant
                self.wf(),
                self.size() == old(self).size(),
                self.links() == old(self).links(),
                cur < self.size(),
                root_of(self.parent@, cur as int) == root_of(p0, x as int),
                forall|y: int|
                    0 <= y < self.size() ==> root_of(self.parent@, y) == root_of(p0, y),
            ensures
                cur < self.size(),
                self.parent@[cur as int] == cur,
            decreases cur,
        {
            let p = self.parent[cur as usize];
            if p == cur {
                break ;
            }
            let g = self.parent[p as usize];
            proof {
                assert forall|y: int| 0 <= y < self.size() implies root_of(
                    self.parent@.update(cur as int, self.parent@[self.parent@[cur as int] as int]),
                    y,
                ) == root_of(self.parent@, y) by {
                    lemma_halving_preserves_root(self.parent@, cur as int, y);
                }
                lemma_halving_preserves_root(self.parent@, cur as int, cur as int);
            }
            self.parent[cur as usize] = g;
            cur = g;
        }
        proof {
            lemma_root_is_root(self.parent@, cur as int);
        }
        cur
    }

    /// Records a link between `a` and `b` and merges their classes.
    pub fn union(&mut self, a: u32, b: u32)
        requires
            old(self).wf(),
            a < old(self).size(),
            b < old(self).size(),
        ensures
            final(self).wf(),
            final(self).size() == old(self).size(),
            final(self).links() == old(self).links().push((a as int, b as int)),
    {
        let ghost p0 = self.parent@;
        let ghost links0 = self.links@;
        let ra = self.find(a);
        let ghost pa = self.parent@;
        let rb = self.find(b);
        let ghost p1 = self.parent@;
        proof {
            // The two walks moved no element to a different root, so `ra`
            // and `rb` are still the roots of `a` and `b`.
            lemma_root_is_root(p0, a as int);
            lemma_root_is_root(p0, b as int);
            assert(root_of(p1, a as int) == ra as int);
            assert(root_of(p1, b as int) == rb as int);
            assert(root_of(p1, ra as int) == ra as int);
            assert(root_of(p1, rb as int) == rb as int);
            lemma_root_is_root(p1, ra as int);
            lemma_root_is_root(p1, rb as int);
        }
        if ra == rb {
            proof {
                assert(joined(links0, a as int, b as int));
                self.links@ = self.links@.push((a as int, b as int));
                assert forall|u: int, v: int|
                    0 <= u < self.parent@.len() && 0 <= v < self.parent@.len() implies ((root_of(
                    self.parent@,
                    u,
                ) == root_of(self.parent@, v)) <==> #[trigger] joined(self.links@, u, v)) by {
                    lemma_joined_redundant_link(links0, (a as int, b as int), u, v);
                }
            }
        } else {
            let hi: u32 = if ra < rb {
                rb
            } else {
                ra
            };
            let lo: u32 = if ra < rb {
                ra
            } else {
                rb
            };
            proof {
                assert forall|y: int| 0 <= y < p1.len() implies root_of(
                    p1.update(hi as int, lo),
                    y,
                ) == (if root_of(p1, y) == hi as int {
                    lo as int
                } else {
                    root_of(p1, y)
                }) && wf_parents(p1.update(hi as int, lo)) by {
                    lemma_link_root(p1, hi as int, lo as int, y);
                }
            }
            self.parent[hi as usize] = lo;
            proof {
                self.links@ = self.links@.push((a as int, b as int));
                let links1 = self.links@;
                let p2 = self.parent@;
                assert(p2 == p1.update(hi as int, lo));
                assert(links1.drop_last() =~= links0);
                assert(links1.last() == (a as int, b as int));
                assert forall|u: int, v: int|
                    0 <= u < p2.len() && 0 <= v < p2.len() implies ((root_of(p2, u) == root_of(
                    p2,
                    v,
                )) <==> #[trigger] joined(links1, u, v)) by {
                    assert(joined(links0, u, a as int) <==> root_of(p1, u) == ra as int);
                    assert(joined(links0, v, a as int) <==> root_of(p1, v) == ra as int);
                    assert(joined(links0, u, b as int) <==> root_of(p1, u) == rb as int);
                    assert(joined(links0, v, b as int) <==> root_of(p1, v) == rb as int);
                    assert(joined(links0, u, v) <==> root_of(p1, u) == root_of(p1, v));
                    assert(joined(links1, u, v) == (joined(links0, u, v) || (joined(
                        links0,
                        u,
                        a as int,
                    ) && joined(links0, v, b as int)) || (joined(links0, u, b as int) && joined(
                        links0,
                        v,
                        a as int,
                    ))));
                    assert(root_of(p2, u) == (if root_of(p1, u) == hi as int {
                        lo as int
                    } else {
                        root_of(p1, u)
                    }));
                    assert(root_of(p2, v) == (if root_of(p1, v) == hi as int {
                        lo as int
                    } else {
                        root_of(p1, v)
                    }));
                }
            }
        }
    }

    /// Reports whether the recorded links join `a` and `b`; read-only walk,
    /// no path halving.
    pub fn connected(&self, a: u32, b: u32) -> (r: bool)
        requires
            self.wf(),
            a < self.size(),
            b < self.size(),
        ensures
            r == joined(self.links(), a as int, b as int),
    {
        let ra = self.root(a);
        let rb = self.root(b);
        ra == rb
    }

    /// A fully independent copy of the forest, with the same classes and
    /// the same recorded links.
    pub fn duplicate(&self) -> (r: ConnectivityTracker)
        requires
            self.wf(),
        ensures
            r.wf(),
            r.size() == self.size(),
            r.links() == self.links(),
    {
        let mut parent: Vec<u32> = Vec::new();
        let mut i: usize = 0;
        while i < self.parent.len()
            invariant
                i <= self.parent@.len(),
                parent@ == self.parent@.subrange(0, i as int),
            decreases self.parent@.len() - i,
        {
            parent.push(self.parent[i]);
            proof {
                assert(parent@ =~= self.parent@.subrange(0, i + 1 as int));
            }
            i = i + 1;
        }
        let r = ConnectivityTracker { parent, links: Ghost(self.links@) };
        proof {
            assert(r.parent@ =~= self.parent@);
        }
        r
    }

    /// Walks to the root of `x` without mutating the forest.
    fn root(&self, x: u32) -> (r: u32)
        requires
            self.wf(),
            x < self.size(),
        ensures
            r as int == root_of(self.parent@, x as int),
    {
        let mut cur: u32 = x;
        loop
            invariant
                self.wf(),
                cur < self.size(),
                root_of(self.parent@, cur as int) == root_of(self.parent@, x as int),
            ensures
                cur < self.size(),
                root_of(self.parent@, cur as int) == root_of(self.parent@, x as int),
                self.parent@[cur as int] == cur,
            decreases cur,
        {
            let p = self.parent[cur as usize];
            if p == cur {
                break ;
            }
            cur = p;
        }
        cur
    }
}

} // verus!

//! Trees of action candidates.
//!
//! Candidate enumeration yields one group of candidates per in-browser
//! script; the engine arranges the groups as a tree and prunes branches that
//! contain no leaf. Selection descends the pruned tree uniformly at random.

use vstd::prelude::*;

verus! {

#[derive(Debug, PartialEq, Eq)]
pub enum Tree<T> {
    Leaf(T),
    Branch(Vec<Tree<T>>),
}

/// The mathematical shape of a tree: leaves of `T` under sequences.
pub enum TreeView<T> {
    Leaf(T),
    Branch(Seq<TreeView<T>>),
}

impl<T> Tree<T> {
    pub open spec fn view(&self) -> TreeView<T>
        decreases self,
    {
        match self {
            Tree::Leaf(x) => TreeView::Leaf(*x),
            Tree::Branch(ts) => TreeView::Branch(views_of(ts@)),
        }
    }
}

pub open spec fn views_of<T>(ts: Seq<Tree<T>>) -> Seq<TreeView<T>>
    decreases ts,
{
    if ts.len() == 0 {
        Seq::empty()
    } else {
        views_of(ts.drop_last()).push(ts.last().view())
    }
}

pub proof fn lemma_views_of<T>(ts: Seq<Tree<T>>)
    ensures
        views_of(ts).len() == ts.len(),
        forall|i: int| 0 <= i < ts.len() ==> views_of(ts)[i] == ts[i].view(),
    decreases ts,
{
    if ts.len() > 0 {
        lemma_views_of(ts.drop_last());
    }
}

impl<T> TreeView<T> {
    /// Whether `x` sits at some leaf of the tree.
    pub open spec fn has_leaf(self, x: T) -> bool
        decreases self,
    {
        match self {
            TreeView::Leaf(y) => x == y,
            TreeView::Branch(ts) => any_has_leaf(ts, x),
        }
    }

    /// Every branch is non-empty, so uniform descent always reaches a leaf.
    pub open spec fn well_pruned(self) -> bool
        decreases self,
    {
        match self {
            TreeView::Leaf(_) => true,
            TreeView::Branch(ts) => ts.len() > 0 && all_well_pruned(ts),
        }
    }
}

/// Whether any tree in the group holds `x` at a leaf.
pub open spec fn any_has_leaf<T>(ts: Seq<TreeView<T>>, x: T) -> bool
    decreases ts,
{
    ts.len() > 0 && (any_has_leaf(ts.drop_last(), x) || ts.last().has_leaf(x))
}

pub open spec fn all_well_pruned<T>(ts: Seq<TreeView<T>>) -> bool
    decreases ts,
{
    ts.len() == 0 || (all_well_pruned(ts.drop_last()) && ts.last().well_pruned())
}

/// Prune, on views: drop every subtree that holds no leaf; `None` when the
/// whole tree holds none.
pub open spec fn spec_prune<T>(t: TreeView<T>) -> Option<TreeView<T>>
    decreases t,
{
    match t {
        TreeView::Leaf(x) => Some(TreeView::Leaf(x)),
        TreeView::Branch(ts) => {
            let kept = spec_prune_list(ts);
            if kept.len() == 0 {
                None
            } else {
                Some(TreeView::Branch(kept))
            }
        },
    }
}

pub open spec fn spec_prune_list<T>(ts: Seq<TreeView<T>>) -> Seq<TreeView<T>>
    decreases ts,
{
    if ts.len() == 0 {
        Seq::empty()
    } else {
        spec_prune_list(ts.drop_last()) + match spec_prune(ts.last()) {
            Some(t) => seq![t],
            None => Seq::<TreeView<T>>::empty(),
        }
    }
}

impl<T> Tree<T> {
    /// Drop every branch that contains no leaf; `None` if nothing remains.
    #[verifier::loop_isolation(false)]
    pub fn prune(self) -> (r: Option<Tree<T>>)
        ensures
            match r {
                Some(p) => spec_prune(self@) == Some(p@),
                None => spec_prune(self@) is None,
            },
        decreases self,
    {
        let ghost snap = self;
        match self {
            Tree::Leaf(x) => Some(Tree::Leaf(x)),
            Tree::Branch(mut ts) => {
                let ghost vec0 = ts;
                let ghost orig = ts@;
                let ghost orig_view = views_of(orig);
                proof {
                    lemma_views_of(orig);
                }
                let n0 = ts.len();
                let mut kept: Vec<Tree<T>> = Vec::new();
                let mut i: usize = 0;
                proof {
                    assert(orig_view.take(0) =~= Seq::<TreeView<T>>::empty());
                    assert(views_of(kept@) =~= spec_prune_list(orig_view.take(0)));
                }
                while ts.len() > 0
                    invariant
                        n0 == orig.len(),
                        i <= n0,
                        i + ts@.len() == orig.len(),
                        orig_view == views_of(orig),
                        orig_view.len() == orig.len(),
                        forall|j: int| 0 <= j < orig.len() ==> orig_view[j] == orig[j].view(),
                        forall|j: int| 0 <= j < ts@.len() ==> ts@[j] == orig[i as int + j],
                        views_of(kept@) == spec_prune_list(orig_view.take(i as int)),
                    decreases ts@.len(),
                {
                    let child = ts.remove(0);
                    proof {
                        assert(child == orig[i as int]);
                        assert(decreases_to!(snap => snap->Branch_0));
                        assert(snap->Branch_0 == vec0);
                        assert(decreases_to!(vec0 => vec0@));
                        assert(vec0@ == orig);
                        assert(decreases_to!(orig => orig[i as int]));
                        assert(decreases_to!(snap => child));
                    }
                    let ghost kept_before = kept@;
                    match child.prune() {
                        Some(p) => {
                            kept.push(p);
                            proof {
                                lemma_views_of(kept@);
                                lemma_views_of(kept_before);
                                assert(kept@.drop_last() =~= kept_before);
                                assert(orig_view.take(i as int + 1).drop_last() =~= orig_view.take(
                                    i as int,
                                ));
                                assert(orig_view.take(i as int + 1).last() == child.view());
                                assert(views_of(kept@) =~= views_of(kept_before).push(p.view()));
                                assert(spec_prune_list(orig_view.take(i as int + 1))
                                    =~= spec_prune_list(orig_view.take(i as int)) + seq![p.view()]);
                                assert(views_of(kept@) =~= spec_prune_list(
                                    orig_view.take(i as int + 1),
                                ));
                            }
                        },
                        None => {
                            proof {
                                assert(orig_view.take(i as int + 1).drop_last() =~= orig_view.take(
                                    i as int,
                                ));
                                assert(orig_view.take(i as int + 1).last() == child.view());
                                assert(spec_prune_list(orig_view.take(i as int + 1))
                                    =~= spec_prune_list(orig_view.take(i as int)));
                            }
                        },
                    }
                    i = i + 1;
                }
                proof {
                    assert(orig_view.take(i as int) =~= orig_view);
                }

                if kept.len() == 0 {
                    proof {
                        lemma_views_of(kept@);
                        assert(spec_prune_list(orig_view).len() == 0);
                    }
                    None
                } else {
                    let r = Tree::Branch(kept);
                    Some(r)
                }
            },
        }
    }
}

/// A pruned tree never holds an empty branch, so descent cannot get stuck.
pub proof fn lemma_prune_well_pruned<T>(t: TreeView<T>)
    ensures
        match spec_prune(t) {
            Some(p) => p.well_pruned(),
            None => true,
        },
    decreases t,
{
    match t {
        TreeView::Leaf(_) => {},
        TreeView::Branch(ts) => {
            lemma_prune_list_well_pruned(ts);
        },
    }
}

proof fn lemma_prune_list_well_pruned<T>(ts: Seq<TreeView<T>>)
    ensures
        all_well_pruned(spec_prune_list(ts)),
    decreases ts,
{
    if ts.len() > 0 {
        lemma_prune_list_well_pruned(ts.drop_last());
        lemma_prune_well_pruned(ts.last());
        let kp = spec_prune_list(ts.drop_last());
        match spec_prune(ts.last()) {
            Some(p) => {
                assert(spec_prune_list(ts) =~= kp.push(p));
                assert(kp.push(p).drop_last() =~= kp);
            },
            None => {
                assert(spec_prune_list(ts) =~= kp);
            },
        }
    } else {
        assert(spec_prune_list(ts) =~= Seq::<TreeView<T>>::empty());
    }
}

/// Pruning keeps exactly the leaves of the tree: nothing is invented and
/// nothing inhabited is dropped.
pub proof fn lemma_prune_preserves_leaves<T>(t: TreeView<T>, x: T)
    ensures
        match spec_prune(t) {
            Some(p) => p.has_leaf(x) == t.has_leaf(x),
            None => !t.has_leaf(x),
        },
    decreases t,
{
    match t {
        TreeView::Leaf(_) => {},
        TreeView::Branch(ts) => {
            lemma_prune_list_preserves_leaves(ts, x);
        },
    }
}

proof fn lemma_prune_list_preserves_leaves<T>(ts: Seq<TreeView<T>>, x: T)
    ensures
        any_has_leaf(spec_prune_list(ts), x) == any_has_leaf(ts, x),
    decreases ts,
{
    if ts.len() > 0 {
        lemma_prune_list_preserves_leaves(ts.drop_last(), x);
        lemma_prune_preserves_leaves(ts.last(), x);
        let kp = spec_prune_list(ts.drop_last());
        match spec_prune(ts.last()) {
            Some(p) => {
                assert(spec_prune_list(ts) =~= kp.push(p));
                assert(kp.push(p).drop_last() =~= kp);
                assert(kp.push(p).last() == p);
                assert(spec_prune_list(ts).len() > 0);
            },
            None => {
                assert(spec_prune_list(ts) =~= kp);
                if any_has_leaf(ts, x) {
                    assert(any_has_leaf(ts.drop_last(), x) || ts.last().has_leaf(x));
                }
            },
        }
    } else {
        assert(spec_prune_list(ts) =~= Seq::<TreeView<T>>::empty());
    }
}

/// Every leaf of the tree satisfies `p`.
pub open spec fn all_leaves<T>(v: TreeView<T>, p: spec_fn(T) -> bool) -> bool
    decreases v,
{
    match v {
        TreeView::Leaf(x) => p(x),
        TreeView::Branch(ts) => all_leaves_list(ts, p),
    }
}

pub open spec fn all_leaves_list<T>(ts: Seq<TreeView<T>>, p: spec_fn(T) -> bool) -> bool
    decreases ts,
{
    ts.len() == 0 || (all_leaves_list(ts.drop_last(), p) && all_leaves(ts.last(), p))
}

pub proof fn lemma_all_well_pruned_index<T>(ts: Seq<TreeView<T>>, i: int)
    requires
        all_well_pruned(ts),
        0 <= i < ts.len(),
    ensures
        ts[i].well_pruned(),
    decreases ts,
{
    if i < ts.len() - 1 {
        lemma_all_well_pruned_index(ts.drop_last(), i);
    }
}

pub proof fn lemma_all_leaves_index<T>(ts: Seq<TreeView<T>>, p: spec_fn(T) -> bool, i: int)
    requires
        all_leaves_list(ts, p),
        0 <= i < ts.len(),
    ensures
        all_leaves(ts[i], p),
    decreases ts,
{
    if i < ts.len() - 1 {
        lemma_all_leaves_index(ts.drop_last(), p, i);
    }
}

pub proof fn lemma_any_has_leaf_index<T>(ts: Seq<TreeView<T>>, i: int, x: T)
    requires
        0 <= i < ts.len(),
        ts[i].has_leaf(x),
    ensures
        any_has_leaf(ts, x),
    decreases ts,
{
    if i < ts.len() - 1 {
        lemma_any_has_leaf_index(ts.drop_last(), i, x);
    }
}

/// Whatever sits at a leaf of a tree whose leaves all satisfy `p`
/// satisfies `p`.
pub proof fn lemma_has_leaf_all_leaves<T>(v: TreeView<T>, p: spec_fn(T) -> bool, x: T)
    requires
        all_leaves(v, p),
        v.has_leaf(x),
    ensures
        p(x),
    decreases v,
{
    match v {
        TreeView::Leaf(_) => {},
        TreeView::Branch(ts) => {
            lemma_has_leaf_list(ts, p, x);
        },
    }
}

proof fn lemma_has_leaf_list<T>(ts: Seq<TreeView<T>>, p: spec_fn(T) -> bool, x: T)
    requires
        all_leaves_list(ts, p),
        any_has_leaf(ts, x),
    ensures
        p(x),
    decreases ts,
{
    if ts.len() > 0 {
        if ts.last().has_leaf(x) {
            lemma_has_leaf_all_leaves(ts.last(), p, x);
        } else {
            lemma_has_leaf_list(ts.drop_last(), p, x);
        }
    }
}

/// A tree all of whose reachable leaf values satisfy `p` has `all_leaves`.
pub proof fn lemma_all_leaves_intro<T>(v: TreeView<T>, p: spec_fn(T) -> bool)
    requires
        forall|x: T| v.has_leaf(x) ==> #[trigger] p(x),
    ensures
        all_leaves(v, p),
    decreases v,
{
    match v {
        TreeView::Leaf(x) => {
            assert(v.has_leaf(x));
        },
        TreeView::Branch(ts) => {
            lemma_all_leaves_intro_list(ts, p);
        },
    }
}

proof fn lemma_all_leaves_intro_list<T>(ts: Seq<TreeView<T>>, p: spec_fn(T) -> bool)
    requires
        forall|x: T| any_has_leaf(ts, x) ==> #[trigger] p(x),
    ensures
        all_leaves_list(ts, p),
    decreases ts,
{
    if ts.len() > 0 {
        assert forall|x: T| any_has_leaf(ts.drop_last(), x) implies #[trigger] p(x) by {
            lemma_any_has_leaf_prefix(ts, x);
        }
        lemma_all_leaves_intro_list(ts.drop_last(), p);
        assert forall|x: T| ts.last().has_leaf(x) implies #[trigger] p(x) by {
            lemma_any_has_leaf_index(ts, ts.len() - 1, x);
        }
        lemma_all_leaves_intro(ts.last(), p);
    }
}

proof fn lemma_any_has_leaf_prefix<T>(ts: Seq<TreeView<T>>, x: T)
    requires
        ts.len() > 0,
        any_has_leaf(ts.drop_last(), x),
    ensures
        any_has_leaf(ts, x),
{
}

/// `b` is `a` with every leaf related to its image by `rel`, shape kept.
pub open spec fn map_rel<T, U>(a: TreeView<T>, b: TreeView<U>, rel: spec_fn(T, U) -> bool) -> bool
    decreases a,
{
    match (a, b) {
        (TreeView::Leaf(x), TreeView::Leaf(y)) => rel(x, y),
        (TreeView::Branch(xs), TreeView::Branch(ys)) => map_rel_list(xs, ys, rel),
        _ => false,
    }
}

pub open spec fn map_rel_list<T, U>(
    xs: Seq<TreeView<T>>,
    ys: Seq<TreeView<U>>,
    rel: spec_fn(T, U) -> bool,
) -> bool
    decreases xs,
{
    if xs.len() != ys.len() {
        false
    } else if xs.len() == 0 {
        true
    } else {
        map_rel_list(xs.drop_last(), ys.drop_last(), rel) && map_rel(xs.last(), ys.last(), rel)
    }
}

impl<T> Tree<T> {
    /// Map every leaf through `f`, keeping the shape.
    #[verifier::loop_isolation(false)]
    pub fn map<U, F: Fn(&T) -> U>(&self, f: &F) -> (r: Tree<U>)
        requires
            forall|x: &T| #[trigger] f.requires((x,)),
        ensures
            map_rel(self@, r@, |x: T, y: U| f.ensures((&x,), y)),
        decreases *self,
    {
        let ghost rel = |x: T, y: U| f.ensures((&x,), y);
        match self {
            Tree::Leaf(x) => {
                let y = f(x);
                Tree::Leaf(y)
            },
            Tree::Branch(ts) => {
                let ghost snap = *self;
                let ghost vec0 = *ts;
                proof {
                    lemma_views_of(ts@);
                }
                let mut mapped: Vec<Tree<U>> = Vec::new();
                let mut i: usize = 0;
                proof {
                    lemma_views_of(mapped@);
                    assert(map_rel_list(
                        views_of(ts@).take(0),
                        views_of(mapped@),
                        rel,
                    ));
                }
                while i < ts.len()
                    invariant
                        forall|x: &T| #[trigger] f.requires((x,)),
                        rel == (|x: T, y: U| f.ensures((&x,), y)),
                        i <= ts@.len(),
                        mapped@.len() == i as int,
                        map_rel_list(
                            views_of(ts@).take(i as int),
                            views_of(mapped@),
                            rel,
                        ),
                    decreases ts@.len() - i,
                {
                    let child = &ts[i];
                    proof {
                        assert(decreases_to!(snap => snap->Branch_0));
                        assert(snap->Branch_0 == vec0);
                        assert(decreases_to!(vec0 => vec0@));
                        assert(decreases_to!(vec0@ => vec0@[i as int]));
                        assert(decreases_to!(snap => *child));
                    }
                    let ghost before = mapped@;
                    let m = child.map(f);
                    mapped.push(m);
                    proof {
                        lemma_views_of(ts@);
                        lemma_views_of(mapped@);
                        lemma_views_of(before);
                        assert(mapped@.drop_last() =~= before);
                        assert(views_of(mapped@).drop_last() =~= views_of(before));
                        assert(views_of(ts@).take(i as int + 1).drop_last() =~= views_of(
                            ts@,
                        ).take(i as int));
                        assert(views_of(ts@).take(i as int + 1).last() == child@);
                        assert(views_of(mapped@).last() == m@);
                    }
                    i = i + 1;
                }
                proof {
                    assert(views_of(ts@).take(i as int) =~= views_of(ts@));
                }
                Tree::Branch(mapped)
            },
        }
    }
}



/// A group holding `x` at some leaf holds it in some member.
pub proof fn lemma_any_has_leaf_elim<T>(ts: Seq<TreeView<T>>, x: T)
    requires
        any_has_leaf(ts, x),
    ensures
        exists|i: int| 0 <= i < ts.len() && #[trigger] ts[i].has_leaf(x),
    decreases ts,
{
    if ts.last().has_leaf(x) {
        assert(ts[ts.len() - 1].has_leaf(x));
    } else {
        lemma_any_has_leaf_elim(ts.drop_last(), x);
        let i = choose|i: int| 0 <= i < ts.drop_last().len() && #[trigger] ts.drop_last()[i].has_leaf(x);
        assert(ts[i].has_leaf(x));
    }
}

/// A group of plain leaves holds `x` exactly when the list does.
pub proof fn lemma_leaves_membership<T>(s: Seq<TreeView<T>>, items: Seq<T>, x: T)
    requires
        s.len() == items.len(),
        forall|i: int| 0 <= i < s.len() ==> s[i] == TreeView::Leaf(items[i]),
    ensures
        any_has_leaf(s, x) == items.contains(x),
    decreases s.len(),
{
    if s.len() > 0 {
        lemma_leaves_membership(s.drop_last(), items.drop_last(), x);
        if items.contains(x) {
            let i = choose|i: int| 0 <= i < items.len() && items[i] == x;
            if i < items.len() - 1 {
                assert(items.drop_last()[i] == x);
                assert(items.drop_last().contains(x));
            } else {
                assert(s.last() == TreeView::Leaf(x));
                assert(s.last().has_leaf(x));
            }
        }
        if any_has_leaf(s, x) {
            if s.last().has_leaf(x) {
                assert(items[items.len() - 1] == x);
                assert(items.contains(x));
            } else {
                assert(items.drop_last().contains(x));
                let i = choose|i: int| 0 <= i < items.drop_last().len() && items.drop_last()[i] == x;
                assert(items[i] == x);
            }
        }
    } else {
        assert(!items.contains(x));
    }
}

} // verus!

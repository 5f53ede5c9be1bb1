//! Action candidates and concrete actions.
//!
//! Candidate enumeration runs inside the browser and returns abstract
//! candidates; the engine instantiates a candidate into a concrete action
//! (drawing random text, a key code, or a scroll distance) before applying
//! it through the debug protocol. Page coordinates and scroll distances are
//! whole pixels.

use vstd::prelude::*;

verus! {

/// A point on the page, in pixels.
#[derive(Clone, Copy, Debug, PartialEq, Eq, Structural)]
pub struct Point {
    pub x: i64,
    pub y: i64,
}

#[derive(Clone, Copy, Debug, PartialEq, Eq, Structural)]
pub enum TypeTextFormat {
    Text,
    Email,
    Number,
}

/// An abstract action as enumerated by the in-browser scripts.
#[derive(Clone, Debug)]
pub enum BrowserActionCandidate {
    Back,
    Click { name: String, content: Option<String>, point: Point },
    TypeText { format: TypeTextFormat },
    PressKey,
    ScrollUp { origin: Point, distance: i64 },
    ScrollDown { origin: Point, distance: i64 },
    Reload,
}

/// A concrete instantiation of a candidate, ready to apply.
#[derive(Clone, Debug)]
pub enum BrowserAction {
    Back,
    Click { name: String, content: Option<String>, point: Point },
    TypeText { text: String, delay_ms: u64 },
    PressKey { code: u8 },
    ScrollUp { origin: Point, distance: i64 },
    ScrollDown { origin: Point, distance: i64 },
    Reload,
}

/// How long to wait for post-action quiescence, in milliseconds.
#[derive(Clone, Copy, Debug, PartialEq, Eq, Structural)]
pub struct Timeout(pub u64);

pub assume_specification[ core::time::Duration::from_millis ](millis: u64) -> (r:
    core::time::Duration);

impl Timeout {
    pub fn from_secs(secs: u64) -> (r: Timeout)
        ensures
            r.0 == if secs * 1000 <= u64::MAX as int {
                secs * 1000
            } else {
                u64::MAX as int
            },
    {
        let ms = if secs <= 0xFFFF_FFFF_FFFF_FFFFu64 / 1000 {
            secs * 1000
        } else {
            u64::MAX
        };
        proof {
            if secs > u64::MAX as u64 / 1000 {
                assert(secs * 1000 > u64::MAX) by (nonlinear_arith)
                    requires
                        secs > 0xFFFF_FFFF_FFFF_FFFFu64 / 1000,
                    ;
            }
        }
        Timeout(ms)
    }

    /// Relies on `core::time::Duration::from_millis` to carry the same
    /// number of milliseconds into the driver's timers.
    pub fn to_duration(&self) -> core::time::Duration {
        core::time::Duration::from_millis(self.0)
    }
}

pub open spec fn spec_key_name(code: u8) -> Option<Seq<char>> {
    if code == 13 {
        Some("Enter"@)
    } else if code == 27 {
        Some("Escape"@)
    } else {
        None
    }
}

/// The protocol name of a supported key code: Enter and Escape only.
pub fn key_name(code: u8) -> (r: Option<&'static str>)
    ensures
        match r {
            Some(name) => spec_key_name(code) == Some(name@),
            None => spec_key_name(code) is None,
        },
{
    match code {
        13 => Some("Enter"),
        27 => Some("Escape"),
        _ => None,
    }
}

} // verus!

use crate::state::BrowserState;
use crate::random::spec_candidate_ok;
use crate::tree::{
    all_leaves, lemma_all_leaves_intro, lemma_leaves_membership, lemma_prune_preserves_leaves,
    lemma_prune_well_pruned, lemma_views_of, spec_prune, views_of, Tree, TreeView,
};
use crate::url::spec_host;

verus! {

/// Why no action could be offered.
#[derive(Clone, Copy, Debug, PartialEq, Eq, Structural)]
pub enum ActionError {
    /// The candidate tree is empty and there is no history entry to go
    /// back to.
    NoFallbackAction,
}

impl ActionError {
    pub fn message(&self) -> (r: String)
        ensures
            r@ == "no fallback action available"@,
    {
        String::from_str("no fallback action available")
    }
}

/// The fallback: go back when there is a history entry behind the current
/// one, otherwise an empty group.
pub open spec fn spec_back_tree(state: BrowserState) -> TreeView<(BrowserActionCandidate, Timeout)> {
    if state.navigation_history.back@.len() == 0 {
        TreeView::Branch(Seq::empty())
    } else {
        TreeView::Leaf((BrowserActionCandidate::Back, Timeout(2000)))
    }
}

/// One leaf per candidate.
pub open spec fn spec_leaves<T>(s: Seq<T>) -> Seq<TreeView<T>> {
    Seq::new(s.len(), |i: int| TreeView::Leaf(s[i]))
}

/// The enumerated candidates, one branch per in-browser script.
pub open spec fn spec_group_tree(
    clicks: Seq<(BrowserActionCandidate, Timeout)>,
    inputs: Seq<(BrowserActionCandidate, Timeout)>,
    scrolls: Seq<(BrowserActionCandidate, Timeout)>,
) -> TreeView<(BrowserActionCandidate, Timeout)> {
    TreeView::Branch(
        seq![
            TreeView::Branch(spec_leaves(clicks)),
            TreeView::Branch(spec_leaves(inputs)),
            TreeView::Branch(spec_leaves(scrolls)),
        ],
    )
}

/// Only the fallback is offered when the page is not HTML or its URL has
/// left the origin's domain.
pub open spec fn spec_fallback_only(state: BrowserState, origin: Seq<char>) -> bool {
    state.content_type@ != "text/html"@ || !(spec_host(state.url@) is Some && spec_host(
        state.url@,
    ) == spec_host(origin))
}

fn leaves_of<T>(items: Vec<T>) -> (r: Vec<Tree<T>>)
    ensures
        views_of(r@) == spec_leaves(items@),
{
    let ghost orig = items@;
    let mut items = items;
    let n0 = items.len();
    let mut r: Vec<Tree<T>> = Vec::new();
    proof {
        lemma_views_of(r@);
        assert(views_of(r@) =~= spec_leaves(orig.take(0)));
    }
    let mut i: usize = 0;
    while items.len() > 0
        invariant
            n0 == orig.len(),
            i <= n0,
            i + items@.len() == orig.len(),
            forall|j: int| 0 <= j < items@.len() ==> items@[j] == orig[i as int + j],
            views_of(r@) == spec_leaves(orig.take(i as int)),
        decreases items@.len(),
    {
        let x = items.remove(0);
        proof {
            assert(x == orig[i as int]);
        }
        let ghost before = r@;
        r.push(Tree::Leaf(x));
        proof {
            lemma_views_of(r@);
            lemma_views_of(before);
            assert(r@.drop_last() =~= before);
            assert(views_of(r@) =~= spec_leaves(orig.take(i as int + 1)));
        }
        i = i + 1;
    }
    proof {
        assert(orig.take(i as int) =~= orig);
    }
    r
}

fn back_tree(state: &BrowserState) -> (r: Tree<(BrowserActionCandidate, Timeout)>)
    ensures
        r@ == spec_back_tree(*state),
{
    if state.navigation_history.back.len() == 0 {
        let r = Tree::Branch(Vec::new());
        proof {
            assert(r@ =~~= spec_back_tree(*state));
        }
        r
    } else {
        Tree::Leaf((BrowserActionCandidate::Back, Timeout::from_secs(2)))
    }
}

/// Arrange the enumerated candidates as a pruned tree, or fall back to
/// going back in history; err when nothing at all can be offered. The
/// offered tree is well pruned, holds only enumerated candidates or the
/// fallback, and every scroll candidate in it keeps its non-negative
/// distance.
pub fn available_actions(
    origin: &str,
    state: &BrowserState,
    clicks: Vec<(BrowserActionCandidate, Timeout)>,
    inputs: Vec<(BrowserActionCandidate, Timeout)>,
    scrolls: Vec<(BrowserActionCandidate, Timeout)>,
) -> (r: Result<Tree<(BrowserActionCandidate, Timeout)>, ActionError>)
    requires
        forall|i: int|
            0 <= i < clicks@.len() ==> spec_candidate_ok((#[trigger] clicks@[i]).0),
        forall|i: int|
            0 <= i < inputs@.len() ==> spec_candidate_ok((#[trigger] inputs@[i]).0),
        forall|i: int|
            0 <= i < scrolls@.len() ==> spec_candidate_ok((#[trigger] scrolls@[i]).0),
    ensures
        match r {
            Ok(t) => {
                &&& t@.well_pruned()
                &&& all_leaves(
                    t@,
                    |leaf: (BrowserActionCandidate, Timeout)| spec_candidate_ok(leaf.0),
                )
                &&& if spec_fallback_only(*state, origin@) {
                    spec_prune(spec_back_tree(*state)) == Some(t@)
                } else {
                    spec_prune(spec_group_tree(clicks@, inputs@, scrolls@)) == Some(t@)
                        || (spec_prune(spec_group_tree(clicks@, inputs@, scrolls@)) is None
                        && spec_prune(spec_back_tree(*state)) == Some(t@))
                }
            },
            Err(e) => {
                &&& e == ActionError::NoFallbackAction
                &&& spec_prune(spec_back_tree(*state)) is None
                &&& spec_fallback_only(*state, origin@) || spec_prune(
                    spec_group_tree(clicks@, inputs@, scrolls@),
                ) is None
            },
        },
{
    let is_html = crate::strings::str_eq(&state.content_type, "text/html");
    let within = crate::url::is_within_domain(&state.url, origin);
    if !is_html || !within {
        let fallback = back_tree(state);
        proof {
            lemma_prune_well_pruned(spec_back_tree(*state));
            lemma_back_tree_leaves_ok(*state);
        }
        return match fallback.prune() {
            Some(t) => Ok(t),
            None => Err(ActionError::NoFallbackAction),
        };
    }
    let ghost cv = clicks@;
    let ghost iv = inputs@;
    let ghost sv = scrolls@;
    let click_leaves = leaves_of(clicks);
    let input_leaves = leaves_of(inputs);
    let scroll_leaves = leaves_of(scrolls);
    let ghost clv = click_leaves@;
    let ghost ilv = input_leaves@;
    let ghost slv = scroll_leaves@;
    let mut groups: Vec<Tree<(BrowserActionCandidate, Timeout)>> = Vec::new();
    groups.push(Tree::Branch(click_leaves));
    groups.push(Tree::Branch(input_leaves));
    groups.push(Tree::Branch(scroll_leaves));
    let ghost gv = groups@;
    let tree = Tree::Branch(groups);
    proof {
        lemma_views_of(gv);
        assert(gv[0]@ == TreeView::Branch(spec_leaves(cv)));
        assert(gv[1]@ == TreeView::Branch(spec_leaves(iv)));
        assert(gv[2]@ == TreeView::Branch(spec_leaves(sv)));
        assert(views_of(gv) =~= seq![
            TreeView::Branch(spec_leaves(cv)),
            TreeView::Branch(spec_leaves(iv)),
            TreeView::Branch(spec_leaves(sv)),
        ]);
        assert(tree@ == TreeView::Branch(views_of(gv)));
        assert(tree@ == spec_group_tree(cv, iv, sv));
        lemma_prune_well_pruned(spec_group_tree(cv, iv, sv));
        lemma_prune_well_pruned(spec_back_tree(*state));
        lemma_group_tree_leaves_ok(cv, iv, sv);
        lemma_back_tree_leaves_ok(*state);
    }
    match tree.prune() {
        Some(t) => Ok(t),
        None => {
            let fallback = back_tree(state);
            match fallback.prune() {
                Some(t) => Ok(t),
                None => Err(ActionError::NoFallbackAction),
            }
        },
    }
}


/// The fallback tree offers at most the back action, which the generator
/// always accepts.
proof fn lemma_back_tree_leaves_ok(state: BrowserState)
    ensures
        match spec_prune(spec_back_tree(state)) {
            Some(p) => all_leaves(
                p,
                |leaf: (BrowserActionCandidate, Timeout)| spec_candidate_ok(leaf.0),
            ),
            None => true,
        },
{
    let ok = |leaf: (BrowserActionCandidate, Timeout)| spec_candidate_ok(leaf.0);
    match spec_prune(spec_back_tree(state)) {
        Some(p) => {
            assert forall|x: (BrowserActionCandidate, Timeout)| p.has_leaf(x) implies #[trigger] ok(
                x,
            ) by {
                lemma_prune_preserves_leaves(spec_back_tree(state), x);
                assert(spec_back_tree(state).has_leaf(x));
            }
            lemma_all_leaves_intro(p, ok);
        },
        None => {},
    }
}

/// Pruning the enumerated groups keeps only candidates from the three
/// lists, so if every listed candidate is acceptable, so is every offered
/// leaf.
proof fn lemma_group_tree_leaves_ok(
    clicks: Seq<(BrowserActionCandidate, Timeout)>,
    inputs: Seq<(BrowserActionCandidate, Timeout)>,
    scrolls: Seq<(BrowserActionCandidate, Timeout)>,
)
    requires
        forall|i: int| 0 <= i < clicks.len() ==> spec_candidate_ok((#[trigger] clicks[i]).0),
        forall|i: int| 0 <= i < inputs.len() ==> spec_candidate_ok((#[trigger] inputs[i]).0),
        forall|i: int| 0 <= i < scrolls.len() ==> spec_candidate_ok((#[trigger] scrolls[i]).0),
    ensures
        match spec_prune(spec_group_tree(clicks, inputs, scrolls)) {
            Some(p) => all_leaves(
                p,
                |leaf: (BrowserActionCandidate, Timeout)| spec_candidate_ok(leaf.0),
            ),
            None => true,
        },
{
    let ok = |leaf: (BrowserActionCandidate, Timeout)| spec_candidate_ok(leaf.0);
    let unpruned = spec_group_tree(clicks, inputs, scrolls);
    match spec_prune(unpruned) {
        Some(p) => {
            assert forall|x: (BrowserActionCandidate, Timeout)| p.has_leaf(x) implies #[trigger] ok(
                x,
            ) by {
                lemma_prune_preserves_leaves(unpruned, x);
                assert(unpruned.has_leaf(x));
                let groups = seq![
                    TreeView::Branch(spec_leaves(clicks)),
                    TreeView::Branch(spec_leaves(inputs)),
                    TreeView::Branch(spec_leaves(scrolls)),
                ];
                assert(crate::tree::any_has_leaf(groups, x));
                crate::tree::lemma_any_has_leaf_elim(groups, x);
                let i = choose|i: int| 0 <= i < groups.len() && #[trigger] groups[i].has_leaf(x);
                lemma_leaves_membership(spec_leaves(clicks), clicks, x);
                lemma_leaves_membership(spec_leaves(inputs), inputs, x);
                lemma_leaves_membership(spec_leaves(scrolls), scrolls, x);
                if i == 0 {
                    assert(clicks.contains(x));
                    let j = choose|j: int| 0 <= j < clicks.len() && clicks[j] == x;
                    assert(spec_candidate_ok(clicks[j].0));
                } else if i == 1 {
                    assert(inputs.contains(x));
                    let j = choose|j: int| 0 <= j < inputs.len() && inputs[j] == x;
                    assert(spec_candidate_ok(inputs[j].0));
                } else {
                    assert(scrolls.contains(x));
                    let j = choose|j: int| 0 <= j < scrolls.len() && scrolls[j] == x;
                    assert(spec_candidate_ok(scrolls[j].0));
                }
            }
            lemma_all_leaves_intro(p, ok);
        },
        None => {},
    }
}

} // verus!

//! Random instantiation of action candidates.
//!
//! Selection descends the candidate tree uniformly at random and turns the
//! chosen candidate into a concrete action: random text in the format's
//! alphabet, a random supported key, or a random scroll distance between
//! half the candidate distance and the whole of it.

use vstd::prelude::*;

use crate::actions::{BrowserAction, BrowserActionCandidate, Timeout, TypeTextFormat};
use crate::strings::{push_char, spec_decimal, u64_to_decimal};
use crate::tree::{
    all_leaves, lemma_all_well_pruned_index, lemma_any_has_leaf_index, lemma_has_leaf_all_leaves,
    lemma_views_of, views_of, Tree,
};

verus! {

/// Relies on rand's `random_range` over `0..n`, which returns a uniform
/// value of the (non-empty) range and panics only on an empty range.
#[verifier::external_body]
fn random_below(n: u64) -> (r: u64)
    requires
        n > 0,
    ensures
        r < n,
{
    rand::random_range(0..n)
}

pub open spec fn spec_alnum(i: nat) -> char {
    if i < 10 {
        ((48 + i) as u8) as char
    } else if i < 36 {
        ((55 + i) as u8) as char
    } else {
        ((61 + i) as u8) as char
    }
}

pub open spec fn spec_is_alnum(c: char) -> bool {
    ('0' <= c && c <= '9') || ('A' <= c && c <= 'Z') || ('a' <= c && c <= 'z')
}

fn alnum_char(i: u64) -> (r: char)
    requires
        i < 62,
    ensures
        r == spec_alnum(i as nat),
        spec_is_alnum(r),
{
    let r = if i < 10 {
        ((48 + i) as u8) as char
    } else if i < 36 {
        ((55 + i) as u8) as char
    } else {
        ((61 + i) as u8) as char
    };
    r
}

/// A random ASCII alphanumeric string of `len` characters.
fn random_alnum(len: usize) -> (r: String)
    ensures
        r@.len() == len,
        forall|i: int| 0 <= i < r@.len() ==> spec_is_alnum(#[trigger] r@[i]),
{
    let mut out = String::new();
    let mut i: usize = 0;
    while i < len
        invariant
            i <= len,
            out@.len() == i,
            forall|j: int| 0 <= j < out@.len() ==> spec_is_alnum(#[trigger] out@[j]),
        decreases len - i,
    {
        push_char(&mut out, alnum_char(random_below(62)));
        i = i + 1;
    }
    out
}

/// Does a concrete action instantiate the candidate? Text actions carry a
/// short string in the candidate's alphabet; keys are Enter or Escape;
/// scroll distances stay in the upper half of the candidate distance.
pub open spec fn spec_instantiates(c: BrowserActionCandidate, a: BrowserAction) -> bool {
    match (c, a) {
        (BrowserActionCandidate::Back, BrowserAction::Back) => true,
        (
            BrowserActionCandidate::Click { name, content, point },
            BrowserAction::Click { name: n2, content: c2, point: p2 },
        ) => n2 == name && c2 == content && p2 == point,
        (
            BrowserActionCandidate::TypeText { format },
            BrowserAction::TypeText { text, delay_ms },
        ) => 1 <= text@.len() <= 30,
        (BrowserActionCandidate::PressKey, BrowserAction::PressKey { code }) => code == 13 || code
            == 27,
        (
            BrowserActionCandidate::ScrollUp { origin, distance },
            BrowserAction::ScrollUp { origin: o2, distance: d2 },
        ) => o2 == origin && distance / 2 <= d2 <= distance,
        (
            BrowserActionCandidate::ScrollDown { origin, distance },
            BrowserAction::ScrollDown { origin: o2, distance: d2 },
        ) => o2 == origin && distance / 2 <= d2 <= distance,
        (BrowserActionCandidate::Reload, BrowserAction::Reload) => true,
        _ => false,
    }
}

/// Candidates the generator accepts: scroll distances are non-negative
/// (an empty random range would otherwise have nothing to draw).
pub open spec fn spec_candidate_ok(c: BrowserActionCandidate) -> bool {
    match c {
        BrowserActionCandidate::ScrollUp { distance, .. } => distance >= 0,
        BrowserActionCandidate::ScrollDown { distance, .. } => distance >= 0,
        _ => true,
    }
}

/// Instantiate one candidate into a concrete action.
pub fn generate_action(candidate: &BrowserActionCandidate) -> (r: BrowserAction)
    requires
        spec_candidate_ok(*candidate),
    ensures
        spec_instantiates(*candidate, r),
{
    match candidate {
        BrowserActionCandidate::Back => BrowserAction::Back,
        BrowserActionCandidate::Click { name, content, point } => BrowserAction::Click {
            name: name.clone(),
            content: match content {
                Some(text) => Some(text.clone()),
                None => None,
            },
            point: *point,
        },
        BrowserActionCandidate::TypeText { format } => {
            let text = match format {
                TypeTextFormat::Text => {
                    let len = 1 + random_below(15);
                    random_alnum(len as usize)
                },
                TypeTextFormat::Email => {
                    let len = 1 + random_below(10);
                    let mut local = random_alnum(len as usize);
                    local.append("@example.com");
                    proof {
                        reveal_strlit("@example.com");
                        assert("@example.com"@.len() == 12);
                    }
                    local
                },
                TypeTextFormat::Number => {
                    let n = random_below(65536);
                    let d = u64_to_decimal(n);
                    proof {
                        lemma_decimal_len_bound(n as nat);
                    }
                    d
                },
            };
            BrowserAction::TypeText { text, delay_ms: 10 }
        },
        BrowserActionCandidate::PressKey => {
            let code: u8 = if random_below(2) == 0 {
                13
            } else {
                27
            };
            BrowserAction::PressKey { code }
        },
        BrowserActionCandidate::ScrollUp { origin, distance } => {
            let d = draw_distance(*distance);
            BrowserAction::ScrollUp { origin: *origin, distance: d }
        },
        BrowserActionCandidate::ScrollDown { origin, distance } => {
            let d = draw_distance(*distance);
            BrowserAction::ScrollDown { origin: *origin, distance: d }
        },
        BrowserActionCandidate::Reload => BrowserAction::Reload,
    }
}

/// A uniform whole-pixel distance in `[distance / 2, distance]`.
fn draw_distance(distance: i64) -> (r: i64)
    requires
        distance >= 0,
    ensures
        distance / 2 <= r <= distance,
{
    let low = distance / 2;
    let span = (distance - low) as u64 + 1;
    low + random_below(span) as i64
}

proof fn lemma_decimal_len_bound(n: nat)
    ensures
        1 <= spec_decimal(n).len(),
        n < 10 ==> spec_decimal(n).len() == 1,
        n < 100 ==> spec_decimal(n).len() <= 2,
        n < 1000 ==> spec_decimal(n).len() <= 3,
        n < 10000 ==> spec_decimal(n).len() <= 4,
        n < 100000 ==> spec_decimal(n).len() <= 5,
    decreases n,
{
    if n >= 10 {
        lemma_decimal_len_bound(n / 10);
    }
}

/// Uniform random descent to a leaf of a pruned tree.
pub fn pick_from_tree<T>(tree: &Tree<T>) -> (r: &T)
    requires
        tree@.well_pruned(),
    ensures
        tree@.has_leaf(*r),
    decreases *tree,
{
    match tree {
        Tree::Leaf(x) => x,
        Tree::Branch(ts) => {
            let ghost snap = *tree;
            let ghost vec0 = *ts;
            proof {
                lemma_views_of(ts@);
                assert(views_of(ts@).len() == ts@.len());
            }
            let i = random_below(ts.len() as u64) as usize;
            let child = &ts[i];
            proof {
                lemma_all_well_pruned_index(views_of(ts@), i as int);
                assert(child@ == views_of(ts@)[i as int]);
                assert(decreases_to!(snap => snap->Branch_0));
                assert(snap->Branch_0 == vec0);
                assert(decreases_to!(vec0 => vec0@));
                assert(decreases_to!(vec0@ => vec0@[i as int]));
                assert(decreases_to!(snap => *child));
            }
            let leaf = pick_from_tree(child);
            proof {
                lemma_any_has_leaf_index(views_of(ts@), i as int, *leaf);
            }
            leaf
        },
    }
}

/// Pick a candidate uniformly from a pruned tree and instantiate it.
pub fn pick_action(actions: &Tree<(BrowserActionCandidate, Timeout)>) -> (r: (
    BrowserAction,
    Timeout,
))
    requires
        actions@.well_pruned(),
        all_leaves(
            actions@,
            |leaf: (BrowserActionCandidate, Timeout)| spec_candidate_ok(leaf.0),
        ),
    ensures
        exists|leaf: (BrowserActionCandidate, Timeout)|
            #[trigger] actions@.has_leaf(leaf) && spec_instantiates(leaf.0, r.0) && r.1 == leaf.1,
{
    let leaf = pick_from_tree(actions);
    proof {
        lemma_has_leaf_all_leaves(
            actions@,
            |l: (BrowserActionCandidate, Timeout)| spec_candidate_ok(l.0),
            *leaf,
        );
    }
    let action = generate_action(&leaf.0);
    let ghost witness = *leaf;
    let r = (action, leaf.1);
    proof {
        assert(actions@.has_leaf(witness) && spec_instantiates(witness.0, r.0) && r.1
            == witness.1);
    }
    r
}

} // verus!

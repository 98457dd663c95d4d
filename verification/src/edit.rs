//! Inspecting and rewriting decision trees: the pre-order walks over a
//! tree's conditions, leaves and nodes, and the targeted edits that the
//! mutations are built from.

use vstd::prelude::*;

use crate::parse::{wrapping_neg, wrapping_neg_exec};
use crate::tree::{CondV, Condition, Node, NodeV, PredV, Predictor, Var, VarV};

verus! {

// ── What a tree holds ─────────────────────────────────────────────────────────

/// The conditions of a tree, in pre-order (a node before its `on_true`
/// subtree, which comes before its `on_false` subtree).
pub open spec fn conds(n: NodeV) -> Seq<CondV>
    decreases n,
{
    match n {
        NodeV::If(c, t, f) => seq![c] + conds(*t) + conds(*f),
        NodeV::Leaf(_) => seq![],
    }
}

/// The leaf predictors of a tree, `on_true` side first.
pub open spec fn leaves(n: NodeV) -> Seq<PredV>
    decreases n,
{
    match n {
        NodeV::If(_, t, f) => leaves(*t) + leaves(*f),
        NodeV::Leaf(p) => seq![p],
    }
}

/// The number of nodes, `If`s and leaves together.
pub open spec fn node_count(n: NodeV) -> nat
    decreases n,
{
    match n {
        NodeV::If(_, t, f) => 1 + node_count(*t) + node_count(*f),
        NodeV::Leaf(_) => 1,
    }
}

/// The thresholds of a tree's conditions, in pre-order.
pub open spec fn thresholds(n: NodeV) -> Seq<i64> {
    conds(n).map_values(|c: CondV| c.threshold)
}

/// The values of the `Set` leaves, in leaf order.
pub open spec fn set_values(n: NodeV) -> Seq<i64>
    decreases n,
{
    match n {
        NodeV::If(_, t, f) => set_values(*t) + set_values(*f),
        NodeV::Leaf(PredV::SetValue(v)) => seq![v],
        NodeV::Leaf(_) => seq![],
    }
}

/// The offset of a neighbour-based predictor (`N`, `W`, the averages and
/// `Weighted`); `Set` and the verbatim predictors have none.
pub open spec fn pred_offset(p: PredV) -> Option<i64> {
    match p {
        PredV::N(o) => Some(o),
        PredV::W(o) => Some(o),
        PredV::AvgNNW(o) => Some(o),
        PredV::AvgNNE(o) => Some(o),
        PredV::AvgWNW(o) => Some(o),
        PredV::Weighted(o) => Some(o),
        _ => None,
    }
}

/// The offsets of the neighbour-based leaves, in leaf order.
pub open spec fn offsets(n: NodeV) -> Seq<i64>
    decreases n,
{
    match n {
        NodeV::If(_, t, f) => offsets(*t) + offsets(*f),
        NodeV::Leaf(p) => match pred_offset(p) {
            Some(o) => seq![o],
            None => seq![],
        },
    }
}

pub proof fn lemma_counts(n: NodeV)
    ensures
        conds(n).len() + leaves(n).len() == node_count(n),
        leaves(n).len() == conds(n).len() + 1,
        set_values(n).len() <= leaves(n).len(),
        offsets(n).len() <= leaves(n).len(),
    decreases n,
{
    match n {
        NodeV::If(_, t, f) => {
            lemma_counts(*t);
            lemma_counts(*f);
        },
        NodeV::Leaf(p) => {},
    }
}

// ── Counting ──────────────────────────────────────────────────────────────────

/// The number of nodes, or `None` when it does not fit in a `usize`.
pub fn count_all_nodes(node: &Node) -> (r: Option<usize>)
    ensures
        r == (if node_count(node@) <= usize::MAX {
            Some(node_count(node@) as usize)
        } else {
            None::<usize>
        }),
    decreases node,
{
    match node {
        Node::If { on_true, on_false, .. } => {
            let t: &Node = on_true;
            let f: &Node = on_false;
            match count_all_nodes(t) {
                None => None,
                Some(a) => match count_all_nodes(f) {
                    None => None,
                    Some(b) => {
                        if a < usize::MAX - b {
                            Some(1 + a + b)
                        } else {
                            None
                        }
                    },
                },
            }
        },
        Node::Predict(_) => Some(1),
    }
}

pub fn count_conditions(node: &Node) -> (r: usize)
    requires
        node_count(node@) <= usize::MAX,
    ensures
        r == conds(node@).len(),
    decreases node,
{
    proof {
        lemma_counts(node@);
    }
    match node {
        Node::If { on_true, on_false, .. } => {
            let t: &Node = on_true;
            let f: &Node = on_false;
            proof {
                lemma_counts(t@);
                lemma_counts(f@);
            }
            1 + count_conditions(t) + count_conditions(f)
        },
        Node::Predict(_) => 0,
    }
}

pub fn count_predictors(node: &Node) -> (r: usize)
    requires
        node_count(node@) <= usize::MAX,
    ensures
        r == leaves(node@).len(),
    decreases node,
{
    proof {
        lemma_counts(node@);
    }
    match node {
        Node::If { on_true, on_false, .. } => {
            let t: &Node = on_true;
            let f: &Node = on_false;
            proof {
                lemma_counts(t@);
                lemma_counts(f@);
            }
            count_predictors(t) + count_predictors(f)
        },
        Node::Predict(_) => 1,
    }
}

// ── Collecting ────────────────────────────────────────────────────────────────

pub fn collect_thresholds(node: &Node) -> (r: Vec<i64>)
    ensures
        r@ == thresholds(node@),
    decreases node,
{
    match node {
        Node::If { condition, on_true, on_false } => {
            let t: &Node = on_true;
            let f: &Node = on_false;
            let mut v: Vec<i64> = Vec::new();
            v.push(condition.threshold);
            let mut a = collect_thresholds(t);
            let mut b = collect_thresholds(f);
            v.append(&mut a);
            v.append(&mut b);
            assert(thresholds(node@) =~= seq![condition.threshold] + thresholds(t@) + thresholds(f@));
            v
        },
        Node::Predict(_) => {
            assert(thresholds(node@) =~= Seq::<i64>::empty());
            Vec::new()
        },
    }
}

pub fn collect_set_values(node: &Node) -> (r: Vec<i64>)
    ensures
        r@ == set_values(node@),
    decreases node,
{
    match node {
        Node::If { on_true, on_false, .. } => {
            let t: &Node = on_true;
            let f: &Node = on_false;
            let mut v = collect_set_values(t);
            let mut b = collect_set_values(f);
            v.append(&mut b);
            v
        },
        Node::Predict(Predictor::SetValue(x)) => {
            let mut v: Vec<i64> = Vec::new();
            v.push(*x);
            assert(v@ =~= seq![*x]);
            v
        },
        Node::Predict(_) => Vec::new(),
    }
}

pub fn collect_offsets(node: &Node) -> (r: Vec<i64>)
    ensures
        r@ == offsets(node@),
    decreases node,
{
    match node {
        Node::If { on_true, on_false, .. } => {
            let t: &Node = on_true;
            let f: &Node = on_false;
            let mut v = collect_offsets(t);
            let mut b = collect_offsets(f);
            v.append(&mut b);
            v
        },
        Node::Predict(pred) => {
            let mut v: Vec<i64> = Vec::new();
            match pred {
                Predictor::N(o) | Predictor::W(o) | Predictor::AvgNNW(o) | Predictor::AvgNNE(o)
                | Predictor::AvgWNW(o) | Predictor::Weighted(o) => {
                    v.push(*o);
                },
                Predictor::SetValue(_) => {},
                Predictor::Other { .. } => {},
            }
            assert(v@ =~= offsets(node@));
            v
        },
    }
}

// ── Targeted edits ────────────────────────────────────────────────────────────

/// Put `with` in place of `*node`, returning the old value.
pub fn replace_node(node: &mut Node, with: Node) -> (prev: Node)
    ensures
        prev == *old(node),
        *final(node) == with,
{
    let mut tmp = with;
    std::mem::swap(node, &mut tmp);
    tmp
}

/// The tree with its leaf number `k` (in leaf order) replaced by the
/// predictor `q`; unchanged when there is no such leaf.
pub open spec fn with_leaf(n: NodeV, k: int, q: PredV) -> NodeV
    decreases n,
{
    match n {
        NodeV::If(c, t, f) => {
            let lt = leaves(*t).len() as int;
            if k < lt {
                NodeV::If(c, Box::new(with_leaf(*t, k, q)), f)
            } else {
                NodeV::If(c, t, Box::new(with_leaf(*f, k - lt, q)))
            }
        },
        NodeV::Leaf(p) => if k == 0 {
            NodeV::Leaf(q)
        } else {
            n
        },
    }
}

pub proof fn lemma_with_leaf_outside(n: NodeV, k: int, q: PredV)
    requires
        k < 0 || k >= leaves(n).len(),
    ensures
        with_leaf(n, k, q) == n,
    decreases n,
{
    if let NodeV::If(c, t, f) = n {
        lemma_with_leaf_outside(*t, k, q);
        lemma_with_leaf_outside(*f, k - leaves(*t).len(), q);
    }
}

/// Replace the leaf with number `n - seen` (leaf order) by `repl`; `seen`
/// counts the leaves walked.
pub fn apply_nth_predictor(node: &mut Node, n: usize, seen: &mut usize, repl: &Predictor)
    requires
        *old(seen) + leaves(old(node)@).len() <= usize::MAX,
    ensures
        final(node)@ == with_leaf(old(node)@, n - *old(seen), repl@),
        *final(seen) == *old(seen) + leaves(old(node)@).len(),
    decreases *old(node),
{
    match node {
        Node::If { on_true, on_false, .. } => {
            let ghost k = n - *seen;
            let ghost t0 = on_true@;
            let ghost f0 = on_false@;
            apply_nth_predictor(on_true, n, seen, repl);
            apply_nth_predictor(on_false, n, seen, repl);
            proof {
                if k < leaves(t0).len() {
                    lemma_with_leaf_outside(f0, k - leaves(t0).len(), repl@);
                } else {
                    lemma_with_leaf_outside(t0, k, repl@);
                }
            }
        },
        Node::Predict(pred) => {
            if *seen == n {
                *pred = repl.clone();
            }
            *seen = *seen + 1;
        },
    }
}


// ── Condition edits ───────────────────────────────────────────────────────────

/// A change to one condition.
pub enum CondEdit {
    /// Add to the threshold (wrapping, as a release build does).
    Shift(i64),
    /// Negate the threshold (`i64::MIN` stays put).
    Negate,
    /// A new variable and threshold.
    Replace(Var, i64),
}

pub enum CondEditV {
    Shift(i64),
    Negate,
    Replace(VarV, i64),
}

impl View for CondEdit {
    type V = CondEditV;

    open spec fn view(&self) -> CondEditV {
        match self {
            CondEdit::Shift(d) => CondEditV::Shift(*d),
            CondEdit::Negate => CondEditV::Negate,
            CondEdit::Replace(v, t) => CondEditV::Replace(v@, *t),
        }
    }
}

/// A condition after an edit.
pub open spec fn edited(c: CondV, e: CondEditV) -> CondV {
    match e {
        CondEditV::Shift(d) => CondV { var: c.var, threshold: c.threshold.wrapping_add(d) },
        CondEditV::Negate => CondV { var: c.var, threshold: wrapping_neg(c.threshold) },
        CondEditV::Replace(v, t) => CondV { var: v, threshold: t },
    }
}

fn edit_condition(c: &mut Condition, e: &CondEdit)
    ensures
        final(c)@ == edited(old(c)@, e@),
{
    match e {
        CondEdit::Shift(d) => {
            c.threshold = c.threshold.wrapping_add(*d);
        },
        CondEdit::Negate => {
            c.threshold = wrapping_neg_exec(c.threshold);
        },
        CondEdit::Replace(v, t) => {
            c.var = v.clone();
            c.threshold = *t;
        },
    }
}

/// The tree with its condition number `k` (pre-order) edited by `e`;
/// unchanged when there is no such condition.
pub open spec fn with_cond(n: NodeV, k: int, e: CondEditV) -> NodeV
    decreases n,
{
    match n {
        NodeV::If(c, t, f) => {
            let ct = conds(*t).len() as int;
            if k == 0 {
                NodeV::If(edited(c, e), t, f)
            } else if k - 1 < ct {
                NodeV::If(c, Box::new(with_cond(*t, k - 1, e)), f)
            } else {
                NodeV::If(c, t, Box::new(with_cond(*f, k - 1 - ct, e)))
            }
        },
        NodeV::Leaf(_) => n,
    }
}

pub proof fn lemma_with_cond_outside(n: NodeV, k: int, e: CondEditV)
    requires
        k < 0 || k >= conds(n).len(),
    ensures
        with_cond(n, k, e) == n,
    decreases n,
{
    if let NodeV::If(c, t, f) = n {
        lemma_with_cond_outside(*t, k - 1, e);
        lemma_with_cond_outside(*f, k - 1 - conds(*t).len(), e);
    }
}

/// Edit the condition with number `n - seen` (pre-order) by `e`; `seen`
/// counts the conditions walked. The walk does not enter the subtrees of
/// the edited node.
pub fn apply_nth_condition(node: &mut Node, n: usize, seen: &mut usize, e: &CondEdit)
    requires
        *old(seen) + conds(old(node)@).len() <= usize::MAX,
    ensures
        final(node)@ == with_cond(old(node)@, n - *old(seen), e@),
        (n < *old(seen) || n - *old(seen) >= conds(old(node)@).len()) ==> *final(seen) == *old(
            seen,
        ) + conds(old(node)@).len(),
        (*old(seen) <= n && n - *old(seen) < conds(old(node)@).len()) ==> n < *final(seen),
        *final(seen) <= *old(seen) + conds(old(node)@).len(),
    decreases *old(node),
{
    match node {
        Node::If { condition, on_true, on_false } => {
            let ghost k = n - *seen;
            let ghost t0 = on_true@;
            let ghost f0 = on_false@;
            let idx = *seen;
            *seen = *seen + 1;
            if idx == n {
                edit_condition(condition, e);
            } else {
                apply_nth_condition(on_true, n, seen, e);
                let ghost mid = *seen;
                apply_nth_condition(on_false, n, seen, e);
                proof {
                    if k - 1 < 0 {
                        lemma_with_cond_outside(t0, k - 1, e@);
                        lemma_with_cond_outside(f0, n - mid, e@);
                    } else if k - 1 < conds(t0).len() {
                        lemma_with_cond_outside(f0, n - mid, e@);
                    } else {
                        lemma_with_cond_outside(t0, k - 1, e@);
                    }
                }
            }
        },
        Node::Predict(_) => {},
    }
}

/// The tree with the branches of its condition number `k` (pre-order)
/// exchanged.
pub open spec fn with_swap(n: NodeV, k: int) -> NodeV
    decreases n,
{
    match n {
        NodeV::If(c, t, f) => {
            let ct = conds(*t).len() as int;
            if k == 0 {
                NodeV::If(c, f, t)
            } else if k - 1 < ct {
                NodeV::If(c, Box::new(with_swap(*t, k - 1)), f)
            } else {
                NodeV::If(c, t, Box::new(with_swap(*f, k - 1 - ct)))
            }
        },
        NodeV::Leaf(_) => n,
    }
}

pub proof fn lemma_with_swap_outside(n: NodeV, k: int)
    requires
        k < 0 || k >= conds(n).len(),
    ensures
        with_swap(n, k) == n,
    decreases n,
{
    if let NodeV::If(c, t, f) = n {
        lemma_with_swap_outside(*t, k - 1);
        lemma_with_swap_outside(*f, k - 1 - conds(*t).len());
    }
}

/// Exchange `on_true` and `on_false` of the `If` with number `n - seen`
/// (pre-order).
pub fn swap_nth_branches(node: &mut Node, n: usize, seen: &mut usize)
    requires
        *old(seen) + conds(old(node)@).len() <= usize::MAX,
    ensures
        final(node)@ == with_swap(old(node)@, n - *old(seen)),
        (n < *old(seen) || n - *old(seen) >= conds(old(node)@).len()) ==> *final(seen) == *old(
            seen,
        ) + conds(old(node)@).len(),
        (*old(seen) <= n && n - *old(seen) < conds(old(node)@).len()) ==> n < *final(seen),
        *final(seen) <= *old(seen) + conds(old(node)@).len(),
    decreases *old(node),
{
    match node {
        Node::If { on_true, on_false, .. } => {
            let ghost k = n - *seen;
            let ghost t0 = on_true@;
            let ghost f0 = on_false@;
            let idx = *seen;
            *seen = *seen + 1;
            if idx == n {
                std::mem::swap(on_true, on_false);
            } else {
                swap_nth_branches(on_true, n, seen);
                let ghost mid = *seen;
                swap_nth_branches(on_false, n, seen);
                proof {
                    if k - 1 < 0 {
                        lemma_with_swap_outside(t0, k - 1);
                        lemma_with_swap_outside(f0, n - mid);
                    } else if k - 1 < conds(t0).len() {
                        lemma_with_swap_outside(f0, n - mid);
                    } else {
                        lemma_with_swap_outside(t0, k - 1);
                    }
                }
            }
        },
        Node::Predict(_) => {},
    }
}


// ── Leaf edits ────────────────────────────────────────────────────────────────

/// The tree with `d` added (wrapping) to the value of its `Set` leaf number
/// `k` (counting `Set` leaves only, in leaf order).
pub open spec fn with_set_shift(n: NodeV, k: int, d: i64) -> NodeV
    decreases n,
{
    match n {
        NodeV::If(c, t, f) => {
            let st = set_values(*t).len() as int;
            if k < st {
                NodeV::If(c, Box::new(with_set_shift(*t, k, d)), f)
            } else {
                NodeV::If(c, t, Box::new(with_set_shift(*f, k - st, d)))
            }
        },
        NodeV::Leaf(PredV::SetValue(v)) => if k == 0 {
            NodeV::Leaf(PredV::SetValue(v.wrapping_add(d)))
        } else {
            n
        },
        NodeV::Leaf(_) => n,
    }
}

pub proof fn lemma_with_set_shift_outside(n: NodeV, k: int, d: i64)
    requires
        k < 0 || k >= set_values(n).len(),
    ensures
        with_set_shift(n, k, d) == n,
    decreases n,
{
    if let NodeV::If(c, t, f) = n {
        lemma_with_set_shift_outside(*t, k, d);
        lemma_with_set_shift_outside(*f, k - set_values(*t).len(), d);
    }
}

/// Add `delta` to the value of the `Set` leaf with number `n - seen`;
/// `seen` counts the `Set` leaves walked.
pub fn apply_nth_set_predictor(node: &mut Node, n: usize, seen: &mut usize, delta: i64)
    requires
        *old(seen) + set_values(old(node)@).len() <= usize::MAX,
    ensures
        final(node)@ == with_set_shift(old(node)@, n - *old(seen), delta),
        *final(seen) == *old(seen) + set_values(old(node)@).len(),
    decreases *old(node),
{
    match node {
        Node::If { on_true, on_false, .. } => {
            let ghost k = n - *seen;
            let ghost t0 = on_true@;
            let ghost f0 = on_false@;
            apply_nth_set_predictor(on_true, n, seen, delta);
            apply_nth_set_predictor(on_false, n, seen, delta);
            proof {
                if k < set_values(t0).len() {
                    lemma_with_set_shift_outside(f0, k - set_values(t0).len(), delta);
                } else {
                    lemma_with_set_shift_outside(t0, k, delta);
                }
            }
        },
        Node::Predict(Predictor::SetValue(v)) => {
            if *seen == n {
                *v = v.wrapping_add(delta);
            }
            *seen = *seen + 1;
        },
        Node::Predict(_) => {},
    }
}

/// The tree with its leaf number `k` split into an `If` on `c` whose
/// `on_true` is the old leaf and whose `on_false` is a new leaf `s`.
pub open spec fn with_split(n: NodeV, k: int, c: CondV, s: PredV) -> NodeV
    decreases n,
{
    match n {
        NodeV::If(c0, t, f) => {
            let lt = leaves(*t).len() as int;
            if k < lt {
                NodeV::If(c0, Box::new(with_split(*t, k, c, s)), f)
            } else {
                NodeV::If(c0, t, Box::new(with_split(*f, k - lt, c, s)))
            }
        },
        NodeV::Leaf(p) => if k == 0 {
            NodeV::If(c, Box::new(n), Box::new(NodeV::Leaf(s)))
        } else {
            n
        },
    }
}

pub proof fn lemma_with_split_outside(n: NodeV, k: int, c: CondV, s: PredV)
    requires
        k < 0 || k >= leaves(n).len(),
    ensures
        with_split(n, k, c, s) == n,
    decreases n,
{
    if let NodeV::If(c0, t, f) = n {
        lemma_with_split_outside(*t, k, c, s);
        lemma_with_split_outside(*f, k - leaves(*t).len(), c, s);
    }
}

fn split_leaf(node: &mut Node, cond: &Condition, sibling: &Predictor)
    ensures
        final(node)@ == NodeV::If(
            cond@,
            Box::new(old(node)@),
            Box::new(NodeV::Leaf(sibling@)),
        ),
{
    let prev = replace_node(node, Node::Predict(Predictor::SetValue(0)));
    let leaf = Node::Predict(sibling.clone());
    assert(leaf@ == NodeV::Leaf(sibling@));
    *node = Node::If { condition: cond.clone(), on_true: Box::new(prev), on_false: Box::new(leaf) };
}

/// Split the leaf with number `n - seen` (leaf order) into an `If` on
/// `cond`, the old leaf on its `on_true` side and `sibling` on the other.
pub fn replace_nth_leaf(
    node: &mut Node,
    n: usize,
    seen: &mut usize,
    cond: &Condition,
    sibling: &Predictor,
)
    requires
        *old(seen) + leaves(old(node)@).len() <= usize::MAX,
    ensures
        final(node)@ == with_split(old(node)@, n - *old(seen), cond@, sibling@),
        *final(seen) == *old(seen) + leaves(old(node)@).len(),
    decreases *old(node),
{
    match node {
        Node::If { on_true, on_false, .. } => {
            let ghost k = n - *seen;
            let ghost t0 = on_true@;
            let ghost f0 = on_false@;
            replace_nth_leaf(on_true, n, seen, cond, sibling);
            replace_nth_leaf(on_false, n, seen, cond, sibling);
            proof {
                if k < leaves(t0).len() {
                    lemma_with_split_outside(f0, k - leaves(t0).len(), cond@, sibling@);
                } else {
                    lemma_with_split_outside(t0, k, cond@, sibling@);
                }
                assert(on_true@ == with_split(t0, k, cond@, sibling@));
                assert(on_false@ == with_split(f0, k - leaves(t0).len(), cond@, sibling@));
            }
        },
        Node::Predict(_) => {
            if *seen == n {
                split_leaf(node, cond, sibling);
            }
            *seen = *seen + 1;
        },
    }
}

/// Add `d` (wrapping) to the offset of every neighbour-based leaf.
pub open spec fn shift_offsets(n: NodeV, d: i64) -> NodeV
    decreases n,
{
    match n {
        NodeV::If(c, t, f) => NodeV::If(
            c,
            Box::new(shift_offsets(*t, d)),
            Box::new(shift_offsets(*f, d)),
        ),
        NodeV::Leaf(p) => NodeV::Leaf(
            match p {
                PredV::N(o) => PredV::N(o.wrapping_add(d)),
                PredV::W(o) => PredV::W(o.wrapping_add(d)),
                PredV::AvgNNW(o) => PredV::AvgNNW(o.wrapping_add(d)),
                PredV::AvgNNE(o) => PredV::AvgNNE(o.wrapping_add(d)),
                PredV::AvgWNW(o) => PredV::AvgWNW(o.wrapping_add(d)),
                PredV::Weighted(o) => PredV::Weighted(o.wrapping_add(d)),
                _ => p,
            },
        ),
    }
}

/// Add `delta` to every non-`Set` neighbour-based predictor offset.
pub fn tweak_all_offsets(node: &mut Node, delta: i64)
    ensures
        final(node)@ == shift_offsets(old(node)@, delta),
    decreases *old(node),
{
    match node {
        Node::Predict(pred) => match pred {
            Predictor::N(o) => *o = o.wrapping_add(delta),
            Predictor::W(o) => *o = o.wrapping_add(delta),
            Predictor::AvgNNW(o) => *o = o.wrapping_add(delta),
            Predictor::AvgNNE(o) => *o = o.wrapping_add(delta),
            Predictor::AvgWNW(o) => *o = o.wrapping_add(delta),
            Predictor::Weighted(o) => *o = o.wrapping_add(delta),
            Predictor::SetValue(_) => {},
            Predictor::Other { .. } => {},
        },
        Node::If { on_true, on_false, .. } => {
            tweak_all_offsets(on_true, delta);
            tweak_all_offsets(on_false, delta);
        },
    }
}


// ── Node edits ────────────────────────────────────────────────────────────────

/// The tree with its node number `k` (pre-order over all nodes) replaced
/// by `r`.
pub open spec fn with_node(n: NodeV, k: int, r: NodeV) -> NodeV
    decreases n,
{
    if k == 0 {
        r
    } else {
        match n {
            NodeV::If(c, t, f) => {
                let nt = node_count(*t) as int;
                if k - 1 < nt {
                    NodeV::If(c, Box::new(with_node(*t, k - 1, r)), f)
                } else {
                    NodeV::If(c, t, Box::new(with_node(*f, k - 1 - nt, r)))
                }
            },
            NodeV::Leaf(_) => n,
        }
    }
}

pub proof fn lemma_with_node_outside(n: NodeV, k: int, r: NodeV)
    requires
        k < 0 || k >= node_count(n),
    ensures
        with_node(n, k, r) == n,
    decreases n,
{
    if let NodeV::If(c, t, f) = n {
        lemma_with_node_outside(*t, k - 1, r);
        lemma_with_node_outside(*f, k - 1 - node_count(*t), r);
    }
}

/// Replace the node with number `n - seen` (pre-order over all nodes) by
/// `repl`; the walk does not enter the replaced node's old subtrees.
pub fn replace_nth_node(node: &mut Node, n: usize, seen: &mut usize, repl: &Node)
    requires
        *old(seen) + node_count(old(node)@) <= usize::MAX,
    ensures
        final(node)@ == with_node(old(node)@, n - *old(seen), repl@),
        (n < *old(seen) || n - *old(seen) >= node_count(old(node)@)) ==> *final(seen) == *old(
            seen,
        ) + node_count(old(node)@),
        (*old(seen) <= n && n - *old(seen) < node_count(old(node)@)) ==> n < *final(seen),
        *final(seen) <= *old(seen) + node_count(old(node)@),
    decreases *old(node),
{
    let ghost k = n - *seen;
    let idx = *seen;
    *seen = *seen + 1;
    if idx == n {
        let _ = replace_node(node, repl.clone());
        return;
    }
    match node {
        Node::If { on_true, on_false, .. } => {
            let ghost t0 = on_true@;
            let ghost f0 = on_false@;
            replace_nth_node(on_true, n, seen, repl);
            let ghost mid = *seen;
            replace_nth_node(on_false, n, seen, repl);
            proof {
                if k - 1 < 0 {
                    lemma_with_node_outside(t0, k - 1, repl@);
                    lemma_with_node_outside(f0, n - mid, repl@);
                } else if k - 1 < node_count(t0) {
                    lemma_with_node_outside(f0, n - mid, repl@);
                } else {
                    lemma_with_node_outside(t0, k - 1, repl@);
                }
            }
        },
        Node::Predict(_) => {},
    }
}

/// The tree with its `If` number `k` (pre-order) replaced by one of its
/// children: `on_true` when `take_true`, else `on_false`.
pub open spec fn collapse_at(n: NodeV, k: int, take_true: bool) -> NodeV
    decreases n,
{
    match n {
        NodeV::If(c, t, f) => {
            let ct = conds(*t).len() as int;
            if k == 0 {
                if take_true {
                    *t
                } else {
                    *f
                }
            } else if k - 1 < ct {
                NodeV::If(c, Box::new(collapse_at(*t, k - 1, take_true)), f)
            } else {
                NodeV::If(c, t, Box::new(collapse_at(*f, k - 1 - ct, take_true)))
            }
        },
        NodeV::Leaf(_) => n,
    }
}

pub proof fn lemma_collapse_outside(n: NodeV, k: int, take_true: bool)
    requires
        k < 0 || k >= conds(n).len(),
    ensures
        collapse_at(n, k, take_true) == n,
    decreases n,
{
    if let NodeV::If(c, t, f) = n {
        lemma_collapse_outside(*t, k - 1, take_true);
        lemma_collapse_outside(*f, k - 1 - conds(*t).len(), take_true);
    }
}

/// Replace the `If` with number `n - seen` (pre-order) by its `on_true`
/// child when `take_true`, else by its `on_false` child. Returns whether
/// that `If` was found; the walk stops there.
pub fn collapse_nth_if(node: &mut Node, n: usize, seen: &mut usize, take_true: bool) -> (found:
    bool)
    requires
        *old(seen) + conds(old(node)@).len() <= usize::MAX,
    ensures
        final(node)@ == collapse_at(old(node)@, n - *old(seen), take_true),
        found == (*old(seen) <= n && n - *old(seen) < conds(old(node)@).len()),
        !found ==> *final(seen) == *old(seen) + conds(old(node)@).len(),
        found ==> n < *final(seen),
        *final(seen) <= *old(seen) + conds(old(node)@).len(),
    decreases *old(node),
{
    if let Node::Predict(_) = node {
        return false;
    }
    let ghost k = n - *seen;
    let idx = *seen;
    *seen = *seen + 1;
    if idx == n {
        let prev = replace_node(node, Node::Predict(Predictor::SetValue(0)));
        if let Node::If { on_true, on_false, .. } = prev {
            if take_true {
                *node = *on_true;
            } else {
                *node = *on_false;
            }
        }
        return true;
    }
    match node {
        Node::If { on_true, on_false, .. } => {
            let ghost t0 = on_true@;
            let ghost f0 = on_false@;
            if collapse_nth_if(on_true, n, seen, take_true) {
                proof {
                    lemma_collapse_outside(f0, k - 1 - conds(t0).len(), take_true);
                }
                return true;
            }
            let ghost mid = *seen;
            if collapse_nth_if(on_false, n, seen, take_true) {
                proof {
                    lemma_collapse_outside(t0, k - 1, take_true);
                }
                return true;
            }
            proof {
                lemma_collapse_outside(t0, k - 1, take_true);
                lemma_collapse_outside(f0, n - mid, take_true);
            }
        },
        Node::Predict(_) => {},
    }
    false
}


// ── Paths ─────────────────────────────────────────────────────────────────────

/// Whether following `p` from the root (`true` = `on_true`) stays on `If`
/// nodes until its last step.
pub open spec fn valid_path(n: NodeV, p: Seq<bool>) -> bool
    decreases p.len(),
{
    if p.len() == 0 {
        true
    } else {
        match n {
            NodeV::If(_, t, f) => valid_path(
                if p[0] {
                    *t
                } else {
                    *f
                },
                p.drop_first(),
            ),
            NodeV::Leaf(_) => false,
        }
    }
}

/// The subtree that `p` leads to.
pub open spec fn subtree_at(n: NodeV, p: Seq<bool>) -> NodeV
    decreases p.len(),
{
    if p.len() == 0 {
        n
    } else {
        match n {
            NodeV::If(_, t, f) => subtree_at(
                if p[0] {
                    *t
                } else {
                    *f
                },
                p.drop_first(),
            ),
            NodeV::Leaf(_) => n,
        }
    }
}

/// The tree with the subtree that `p` leads to replaced by `s`.
pub open spec fn put_at(n: NodeV, p: Seq<bool>, s: NodeV) -> NodeV
    decreases p.len(),
{
    if p.len() == 0 {
        s
    } else {
        match n {
            NodeV::If(c, t, f) => if p[0] {
                NodeV::If(c, Box::new(put_at(*t, p.drop_first(), s)), f)
            } else {
                NodeV::If(c, t, Box::new(put_at(*f, p.drop_first(), s)))
            },
            NodeV::Leaf(_) => n,
        }
    }
}

/// `a` is `b` or an ancestor of it.
pub open spec fn prefix_of(a: Seq<bool>, b: Seq<bool>) -> bool {
    a.len() <= b.len() && b.subrange(0, a.len() as int) == a
}

/// Neither path leads into the subtree of the other.
pub open spec fn disjoint(a: Seq<bool>, b: Seq<bool>) -> bool {
    !prefix_of(a, b) && !prefix_of(b, a)
}

/// The tree with the subtrees at `a` and `b` exchanged.
pub open spec fn swapped(n: NodeV, a: Seq<bool>, b: Seq<bool>) -> NodeV {
    put_at(put_at(n, a, subtree_at(n, b)), b, subtree_at(n, a))
}

proof fn lemma_disjoint_step(a: Seq<bool>, b: Seq<bool>)
    requires
        disjoint(a, b),
    ensures
        a.len() > 0,
        b.len() > 0,
        a[0] == b[0] ==> disjoint(a.drop_first(), b.drop_first()),
{
    if a.len() == 0 {
        assert(b.subrange(0, 0) =~= a);
    }
    if b.len() == 0 {
        assert(a.subrange(0, 0) =~= b);
    }
    if a.len() > 0 && b.len() > 0 && a[0] == b[0] {
        let a1 = a.drop_first();
        let b1 = b.drop_first();
        if prefix_of(a1, b1) {
            assert forall|j: int| 0 <= j < a.len() implies #[trigger] b.subrange(0, a.len() as int)[j]
                == a[j] by {
                if j > 0 {
                    assert(b1.subrange(0, a1.len() as int)[j - 1] == a1[j - 1]);
                }
            }
            assert(b.subrange(0, a.len() as int) =~= a);
        }
        if prefix_of(b1, a1) {
            assert forall|j: int| 0 <= j < b.len() implies #[trigger] a.subrange(0, b.len() as int)[j]
                == b[j] by {
                if j > 0 {
                    assert(a1.subrange(0, b1.len() as int)[j - 1] == b1[j - 1]);
                }
            }
            assert(a.subrange(0, b.len() as int) =~= b);
        }
    }
}

/// Putting a subtree at `a` keeps what lies at a path disjoint from `a`.
pub proof fn lemma_put_elsewhere(n: NodeV, a: Seq<bool>, b: Seq<bool>, s: NodeV)
    requires
        valid_path(n, a),
        valid_path(n, b),
        disjoint(a, b),
    ensures
        valid_path(put_at(n, a, s), b),
        subtree_at(put_at(n, a, s), b) == subtree_at(n, b),
        valid_path(put_at(n, b, s), b),
    decreases a.len(),
{
    lemma_disjoint_step(a, b);
    lemma_put_valid(n, b, s);
    if let NodeV::If(c, t, f) = n {
        if a[0] == b[0] {
            let child = if a[0] {
                *t
            } else {
                *f
            };
            lemma_put_elsewhere(child, a.drop_first(), b.drop_first(), s);
        }
    }
}

/// A path stays valid after a subtree is put at it.
pub proof fn lemma_put_valid(n: NodeV, a: Seq<bool>, s: NodeV)
    requires
        valid_path(n, a),
    ensures
        valid_path(put_at(n, a, s), a),
        subtree_at(put_at(n, a, s), a) == s,
    decreases a.len(),
{
    if a.len() > 0 {
        if let NodeV::If(c, t, f) = n {
            let child = if a[0] {
                *t
            } else {
                *f
            };
            lemma_put_valid(child, a.drop_first(), s);
        }
    }
}

/// Puts at disjoint paths commute.
pub proof fn lemma_put_commute(n: NodeV, a: Seq<bool>, b: Seq<bool>, s1: NodeV, s2: NodeV)
    requires
        valid_path(n, a),
        valid_path(n, b),
        disjoint(a, b),
    ensures
        put_at(put_at(n, a, s1), b, s2) == put_at(put_at(n, b, s2), a, s1),
    decreases a.len(),
{
    lemma_disjoint_step(a, b);
    if let NodeV::If(c, t, f) = n {
        if a[0] == b[0] {
            let child = if a[0] {
                *t
            } else {
                *f
            };
            lemma_put_commute(child, a.drop_first(), b.drop_first(), s1, s2);
        }
    }
}

/// A second put at the same path overrides the first.
pub proof fn lemma_put_twice(n: NodeV, a: Seq<bool>, s1: NodeV, s2: NodeV)
    requires
        valid_path(n, a),
    ensures
        put_at(put_at(n, a, s1), a, s2) == put_at(n, a, s2),
    decreases a.len(),
{
    if a.len() > 0 {
        if let NodeV::If(c, t, f) = n {
            let child = if a[0] {
                *t
            } else {
                *f
            };
            lemma_put_twice(child, a.drop_first(), s1, s2);
        }
    }
}

/// Put `sub` at the end of `path` (from step `i` on), returning what was
/// there.
fn replace_at(node: &mut Node, path: &Vec<bool>, i: usize, sub: Node) -> (prev: Node)
    requires
        i <= path@.len(),
        valid_path(old(node)@, path@.skip(i as int)),
    ensures
        prev@ == subtree_at(old(node)@, path@.skip(i as int)),
        final(node)@ == put_at(old(node)@, path@.skip(i as int), sub@),
    decreases path@.len() - i,
{
    if i == path.len() {
        assert(path@.skip(i as int) =~= Seq::<bool>::empty());
        return replace_node(node, sub);
    }
    assert(path@.skip(i as int).drop_first() =~= path@.skip(i + 1));
    match node {
        Node::If { on_true, on_false, .. } => {
            if path[i] {
                replace_at(on_true, path, i + 1, sub)
            } else {
                replace_at(on_false, path, i + 1, sub)
            }
        },
        Node::Predict(_) => sub,
    }
}

/// Exchange the subtrees at two disjoint paths.
pub fn swap_subtrees_at(root: &mut Node, a: &Vec<bool>, b: &Vec<bool>)
    requires
        valid_path(old(root)@, a@),
        valid_path(old(root)@, b@),
        disjoint(a@, b@),
    ensures
        final(root)@ == swapped(old(root)@, a@, b@),
{
    let ghost n = root@;
    let placeholder = Node::Predict(Predictor::SetValue(0));
    assert(a@.skip(0) =~= a@);
    assert(b@.skip(0) =~= b@);
    proof {
        lemma_put_elsewhere(n, a@, b@, placeholder@);
    }
    let subtree_a = replace_at(root, a, 0, placeholder);
    let ghost r1 = root@;
    proof {
        lemma_put_valid(n, a@, placeholder@);
        lemma_put_elsewhere(r1, b@, a@, subtree_a@);
    }
    let subtree_b = replace_at(root, b, 0, subtree_a);
    let _ = replace_at(root, a, 0, subtree_b);
    proof {
        lemma_put_commute(n, a@, b@, placeholder@, subtree_at(n, a@));
        lemma_put_elsewhere(n, b@, a@, subtree_at(n, a@));
        lemma_put_twice(put_at(n, b@, subtree_at(n, a@)), a@, placeholder@, subtree_at(n, b@));
        lemma_put_elsewhere(n, a@, b@, subtree_at(n, b@));
        lemma_put_commute(n, a@, b@, subtree_at(n, b@), subtree_at(n, a@));
    }
}


/// The path to every node, in pre-order; the root's path is empty.
pub open spec fn node_paths(n: NodeV) -> Seq<Seq<bool>>
    decreases n,
{
    match n {
        NodeV::If(_, t, f) => seq![Seq::<bool>::empty()] + node_paths(*t).map_values(
            |p: Seq<bool>| seq![true] + p,
        ) + node_paths(*f).map_values(|p: Seq<bool>| seq![false] + p),
        NodeV::Leaf(_) => seq![Seq::<bool>::empty()],
    }
}

/// The views of a list of boolean vectors.
pub open spec fn path_views(v: Seq<Vec<bool>>) -> Seq<Seq<bool>> {
    v.map_values(|x: Vec<bool>| x@)
}

/// Every node has one path, each path is valid, and no two are equal.
pub proof fn lemma_node_paths(n: NodeV)
    ensures
        node_paths(n).len() == node_count(n),
        forall|i: int| 0 <= i < node_paths(n).len() ==> valid_path(n, #[trigger] node_paths(n)[i]),
        forall|i: int, j: int|
            0 <= i < node_paths(n).len() && 0 <= j < node_paths(n).len() && i != j
                ==> #[trigger] node_paths(n)[i] != #[trigger] node_paths(n)[j],
    decreases n,
{
    if let NodeV::If(c, t, f) = n {
        lemma_node_paths(*t);
        lemma_node_paths(*f);
        let pt = node_paths(*t);
        let pf = node_paths(*f);
        let mt = pt.map_values(|p: Seq<bool>| seq![true] + p);
        let mf = pf.map_values(|p: Seq<bool>| seq![false] + p);
        let all = node_paths(n);
        assert(all == seq![Seq::<bool>::empty()] + mt + mf);
        assert forall|i: int| 0 <= i < all.len() implies valid_path(n, #[trigger] all[i]) by {
            if 1 <= i < 1 + mt.len() {
                assert(all[i] == seq![true] + pt[i - 1]);
                assert(all[i].drop_first() =~= pt[i - 1]);
            } else if i >= 1 + mt.len() {
                assert(all[i] == seq![false] + pf[i - 1 - mt.len()]);
                assert(all[i].drop_first() =~= pf[i - 1 - mt.len()]);
            }
        }
        assert forall|i: int, j: int|
            0 <= i < all.len() && 0 <= j < all.len() && i != j implies #[trigger] all[i]
            != #[trigger] all[j] by {
            if 1 <= i < 1 + mt.len() && 1 <= j < 1 + mt.len() {
                assert(all[i].drop_first() =~= pt[i - 1]);
                assert(all[j].drop_first() =~= pt[j - 1]);
            } else if i >= 1 + mt.len() && j >= 1 + mt.len() {
                assert(all[i].drop_first() =~= pf[i - 1 - mt.len()]);
                assert(all[j].drop_first() =~= pf[j - 1 - mt.len()]);
            } else if i == 0 || j == 0 {
                if i == 0 {
                    assert(all[j].len() > 0);
                } else {
                    assert(all[i].len() > 0);
                }
            } else {
                assert(all[i][0] != all[j][0]);
            }
        }
    }
}

/// Record the path of every node of `node`, each behind `prefix`.
pub fn collect_node_paths(node: &Node, prefix: &mut Vec<bool>, out: &mut Vec<Vec<bool>>)
    ensures
        final(prefix)@ == old(prefix)@,
        path_views(final(out)@) == path_views(old(out)@) + node_paths(node@).map_values(
            |p: Seq<bool>| old(prefix)@ + p,
        ),
    decreases node,
{
    let ghost pre = prefix@;
    let ghost o0 = path_views(out@);
    out.push(prefix.clone());
    assert(path_views(out@) =~= o0.push(pre));
    if let Node::If { on_true, on_false, .. } = node {
        let t: &Node = on_true;
        let f: &Node = on_false;
        prefix.push(true);
        let ghost o1 = path_views(out@);
        collect_node_paths(t, prefix, out);
        prefix.pop();
        assert(prefix@ =~= pre);
        prefix.push(false);
        let ghost o2 = path_views(out@);
        collect_node_paths(f, prefix, out);
        prefix.pop();
        assert(prefix@ =~= pre);
        proof {
            let pt = node_paths(t@);
            let pf = node_paths(f@);
            let lhs = node_paths(node@).map_values(|p: Seq<bool>| pre + p);
            let rhs = seq![pre] + pt.map_values(|p: Seq<bool>| pre.push(true) + p) + pf.map_values(
                |p: Seq<bool>| pre.push(false) + p,
            );
            assert forall|i: int| 0 <= i < lhs.len() implies #[trigger] lhs[i] == rhs[i] by {
                if i == 0 {
                    assert(lhs[0] =~= pre);
                } else if i < 1 + pt.len() {
                    assert(lhs[i] =~= pre.push(true) + pt[i - 1]);
                } else {
                    assert(lhs[i] =~= pre.push(false) + pf[i - 1 - pt.len()]);
                }
            }
            assert(lhs =~= rhs);
            assert(path_views(out@) =~= o0 + lhs);
        }
    } else {
        assert(node_paths(node@).map_values(|p: Seq<bool>| pre + p) =~= seq![pre]);
    }
}

/// `a` is a strict ancestor of `b`.
pub fn is_path_ancestor(a: &Vec<bool>, b: &Vec<bool>) -> (r: bool)
    ensures
        r == (a@.len() < b@.len() && prefix_of(a@, b@)),
{
    if a.len() >= b.len() {
        return false;
    }
    let mut k: usize = 0;
    while k < a.len()
        invariant
            a@.len() < b@.len(),
            k <= a@.len(),
            forall|j: int| 0 <= j < k ==> a@[j] == b@[j],
        decreases a@.len() - k,
    {
        if a[k] != b[k] {
            assert(b@.subrange(0, a@.len() as int)[k as int] != a@[k as int]);
            return false;
        }
        k = k + 1;
    }
    assert(b@.subrange(0, a@.len() as int) =~= a@);
    true
}

} // verus!

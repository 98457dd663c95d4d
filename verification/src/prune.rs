//! Dead conditions and their removal. A condition `v > t` is dead when the
//! conditions above it on the same variable already decide it: always true
//! or always false on every path that reaches it. The decoder refuses a file
//! whose tree holds one, so generated and mutated trees are simplified.

use vstd::prelude::*;

use crate::roundtrip::tree_ok;
use crate::text::{chars_eq, str_chars};
use crate::tree::{CondV, Node, NodeV, var_label};

verus! {

/// The views of a list of bounds. A list of bounds says what the
/// conditions above a node tell of each variable, innermost last: the
/// variable's name, and the least and greatest value it can have there.
pub open spec fn bounds_view(v: Seq<(Vec<char>, i64, i64)>) -> Seq<(Seq<char>, i64, i64)> {
    v.map_values(|e: (Vec<char>, i64, i64)| (e.0@, e.1, e.2))
}

/// The least and greatest value of the variable named `key`: from its
/// innermost entry, or the whole range of `i64` when it has none.
pub open spec fn bounds_of(env: Seq<(Seq<char>, i64, i64)>, key: Seq<char>) -> (i64, i64)
    decreases env.len(),
{
    if env.len() == 0 {
        (i64::MIN, i64::MAX)
    } else if env.last().0 == key {
        (env.last().1, env.last().2)
    } else {
        bounds_of(env.drop_last(), key)
    }
}

/// `t + 1`, saturating at `i64::MAX`.
pub open spec fn sat_inc(t: i64) -> i64 {
    if t == i64::MAX {
        t
    } else {
        (t + 1) as i64
    }
}

/// Whether the bounds make `c` true on every path (its variable's least
/// value is above the threshold).
pub open spec fn always_true(env: Seq<(Seq<char>, i64, i64)>, c: CondV) -> bool {
    bounds_of(env, var_label(c.var)).0 > c.threshold
}

/// Whether the bounds make `c` false on every path (its variable's
/// greatest value is at most the threshold).
pub open spec fn always_false(env: Seq<(Seq<char>, i64, i64)>, c: CondV) -> bool {
    bounds_of(env, var_label(c.var)).1 <= c.threshold
}

/// The bounds on the `on_true` side of `c`: its variable exceeds the
/// threshold.
pub open spec fn true_side(env: Seq<(Seq<char>, i64, i64)>, c: CondV) -> Seq<(Seq<char>, i64, i64)> {
    let (lo, hi) = bounds_of(env, var_label(c.var));
    env.push(
        (
            var_label(c.var),
            if lo > sat_inc(c.threshold) {
                lo
            } else {
                sat_inc(c.threshold)
            },
            hi,
        ),
    )
}

/// The bounds on the `on_false` side of `c`: its variable is at most the
/// threshold.
pub open spec fn false_side(env: Seq<(Seq<char>, i64, i64)>, c: CondV) -> Seq<(Seq<char>, i64, i64)> {
    let (lo, hi) = bounds_of(env, var_label(c.var));
    env.push(
        (
            var_label(c.var),
            lo,
            if hi < c.threshold {
                hi
            } else {
                c.threshold
            },
        ),
    )
}

/// Whether no condition of `n`, under the bounds `env`, is dead.
pub open spec fn no_dead(n: NodeV, env: Seq<(Seq<char>, i64, i64)>) -> bool
    decreases n,
{
    match n {
        NodeV::If(c, t, f) => {
            &&& !always_true(env, c)
            &&& !always_false(env, c)
            &&& no_dead(*t, true_side(env, c))
            &&& no_dead(*f, false_side(env, c))
        },
        NodeV::Leaf(_) => true,
    }
}

/// The tree with each dead condition replaced by the side it always
/// takes, from the root down.
pub open spec fn prune(n: NodeV, env: Seq<(Seq<char>, i64, i64)>) -> NodeV
    decreases n,
{
    match n {
        NodeV::If(c, t, f) => if always_true(env, c) {
            prune(*t, env)
        } else if always_false(env, c) {
            prune(*f, env)
        } else {
            NodeV::If(c, Box::new(prune(*t, true_side(env, c))), Box::new(prune(*f, false_side(env, c))))
        },
        NodeV::Leaf(_) => n,
    }
}

/// A pruned tree has no dead condition.
pub proof fn lemma_prune_no_dead(n: NodeV, env: Seq<(Seq<char>, i64, i64)>)
    ensures
        no_dead(prune(n, env), env),
    decreases n,
{
    if let NodeV::If(c, t, f) = n {
        if always_true(env, c) {
            lemma_prune_no_dead(*t, env);
        } else if always_false(env, c) {
            lemma_prune_no_dead(*f, env);
        } else {
            lemma_prune_no_dead(*t, true_side(env, c));
            lemma_prune_no_dead(*f, false_side(env, c));
        }
    }
}

/// A tree without dead conditions is its own pruning.
pub proof fn lemma_prune_clean(n: NodeV, env: Seq<(Seq<char>, i64, i64)>)
    requires
        no_dead(n, env),
    ensures
        prune(n, env) == n,
    decreases n,
{
    if let NodeV::If(c, t, f) = n {
        lemma_prune_clean(*t, true_side(env, c));
        lemma_prune_clean(*f, false_side(env, c));
    }
}

/// Pruning keeps a tree that prints and reads back well-formed.
pub proof fn lemma_prune_tree_ok(n: NodeV, env: Seq<(Seq<char>, i64, i64)>)
    requires
        tree_ok(n),
    ensures
        tree_ok(prune(n, env)),
    decreases n,
{
    if let NodeV::If(c, t, f) = n {
        lemma_prune_tree_ok(*t, env);
        lemma_prune_tree_ok(*f, env);
        lemma_prune_tree_ok(*t, true_side(env, c));
        lemma_prune_tree_ok(*f, false_side(env, c));
    }
}

/// The bounds of the variable named `key`, as `bounds_of` says.
fn lookup_bounds(env: &Vec<(Vec<char>, i64, i64)>, key: &Vec<char>) -> (r: (i64, i64))
    ensures
        r == bounds_of(bounds_view(env@), key@),
{
    let ghost bv = bounds_view(env@);
    let mut i = env.len();
    assert(bv.take(i as int) =~= bv);
    while i > 0
        invariant
            i <= env@.len(),
            bv == bounds_view(env@),
            bounds_of(bv, key@) == bounds_of(bv.take(i as int), key@),
        decreases i,
    {
        let e = &env[i - 1];
        let ghost s = bv.take(i as int);
        assert(s.last() == (e.0@, e.1, e.2));
        assert(s.drop_last() =~= bv.take(i - 1));
        if chars_eq(&e.0, key) {
            return (e.1, e.2);
        }
        i = i - 1;
    }
    assert(bv.take(0) =~= Seq::<(Seq<char>, i64, i64)>::empty());
    (i64::MIN, i64::MAX)
}

/// `n` pruned under the bounds `env`, which it leaves as it found them.
fn prune_node(n: Node, env: &mut Vec<(Vec<char>, i64, i64)>) -> (r: Node)
    ensures
        r@ == prune(n@, bounds_view(old(env)@)),
        final(env)@ == old(env)@,
    decreases n,
{
    match n {
        Node::If { condition, on_true, on_false } => {
            let ghost c = condition@;
            let ghost e0 = bounds_view(env@);
            let key = str_chars(condition.var.label());
            let (lo, hi) = lookup_bounds(env, &key);
            let th = condition.threshold;
            let t: Node = *on_true;
            let f: Node = *on_false;
            if lo > th {
                return prune_node(t, env);
            }
            if hi <= th {
                return prune_node(f, env);
            }
            let inc: i64 = if th == i64::MAX {
                th
            } else {
                th + 1
            };
            let tlo: i64 = if lo > inc {
                lo
            } else {
                inc
            };
            env.push((str_chars(condition.var.label()), tlo, hi));
            assert(bounds_view(env@) =~= true_side(e0, c));
            let t2 = prune_node(t, env);
            env.pop();
            let fhi: i64 = if hi < th {
                hi
            } else {
                th
            };
            env.push((key, lo, fhi));
            assert(bounds_view(env@) =~= false_side(e0, c));
            let f2 = prune_node(f, env);
            env.pop();
            Node::If { condition, on_true: Box::new(t2), on_false: Box::new(f2) }
        },
        Node::Predict(p) => Node::Predict(p),
    }
}

/// The tree with every dead condition replaced by the side it always
/// takes: no condition is left that the conditions above it on the same
/// variable already decide.
pub fn simplify_degenerate(root: Node) -> (r: Node)
    ensures
        r@ == prune(root@, seq![]),
        no_dead(r@, seq![]),
{
    let mut env: Vec<(Vec<char>, i64, i64)> = Vec::new();
    assert(bounds_view(env@) =~= seq![]);
    let r = prune_node(root, &mut env);
    proof {
        lemma_prune_no_dead(root@, seq![]);
    }
    r
}

} // verus!

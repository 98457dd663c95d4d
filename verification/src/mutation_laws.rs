//! The mutations and the generator keep programs well-formed: whatever a
//! mutation draws, its result prints as text that reads back as itself.

use vstd::prelude::*;

use crate::edit::{
    collapse_at, conds, edited, leaves, node_count, offsets, put_at, shift_offsets, subtree_at, swapped,
    valid_path, with_cond, with_leaf, with_node, with_set_shift, with_split, with_swap, CondEditV,
};
use crate::mutations::{
    added_branch, branch_probs_of, chain_ok, stage, composite_name, countable, cycled_upsample,
    exotic_candidate, exotic_name, exotic_offset, first_with_word, header_pool, header_subset,
    picked, random_pred_ok, random_program_ok, random_tree_ok, step_ok, toggled, upsample_line,
    raw_step_ok, pruned, generated_ok,
    var_candidate, with_rct, with_root, Complexity, Mutation,
};
use crate::parse::{has_notlast, is_extra_key, join_with, parse_var, starts_with_word};
use crate::parse::parse_program;
use crate::prune::{lemma_prune_tree_ok, lemma_prune_no_dead, lemma_prune_clean, no_dead, prune};
use crate::roundtrip::{
    all_words, directive_line, frames_chained, lemma_dec_int_word, lemma_join2,
    lemma_parse_dec_i64, lemma_read_ok, lemma_tokens_join, lemma_tokens_word, no_open, pred_ok,
    print_then_read, program_clean, program_ok, raw_offset_ok, reserved_pred, reserved_var,
    slash_free, tree_ok, var_ok, word,
};
use crate::tree::program_text;
use crate::text::{dec_int, parse_i64, tokens};
use crate::tree::{CondV, NodeV, PredV, ProgramV, VarV};

verus! {

// ── Names the generator uses ──────────────────────────────────────────────────

proof fn lemma_pool_literals()
    ensures
        word("W+N-NW"@) && slash_free("W+N-NW"@) && !reserved_var("W+N-NW"@),
        word("|W|"@) && slash_free("|W|"@) && !reserved_var("|W|"@),
        word("|N|"@) && slash_free("|N|"@) && !reserved_var("|N|"@),
        word("N-NE"@) && slash_free("N-NE"@) && !reserved_var("N-NE"@),
        word("NW-N"@) && slash_free("NW-N"@) && !reserved_var("NW-N"@),
        word("W-NW"@) && slash_free("W-NW"@) && !reserved_var("W-NW"@),
        word("N-NN"@) && slash_free("N-NN"@) && !reserved_var("N-NN"@),
        word("W-WW"@) && slash_free("W-WW"@) && !reserved_var("W-WW"@),
        word("W-WW-NW+NWW"@) && slash_free("W-WW-NW+NWW"@) && !reserved_var("W-WW-NW+NWW"@),
        word("g"@) && slash_free("g"@) && !reserved_var("g"@),
        word("Prev"@) && slash_free("Prev"@) && !reserved_var("Prev"@),
        word("PrevErr"@) && slash_free("PrevErr"@) && !reserved_var("PrevErr"@),
        word("NE"@) && slash_free("NE"@) && !reserved_pred("NE"@),
        word("NW"@) && slash_free("NW"@) && !reserved_pred("NW"@),
        word("WW"@) && slash_free("WW"@) && !reserved_pred("WW"@),
        word("AvgW+N"@) && slash_free("AvgW+N"@) && !reserved_pred("AvgW+N"@),
        word("AvgAll"@) && slash_free("AvgAll"@) && !reserved_pred("AvgAll"@),
        word("Gradient"@) && slash_free("Gradient"@) && !reserved_pred("Gradient"@),
        word("Select"@) && slash_free("Select"@) && !reserved_pred("Select"@),
        word("Gaborish"@) && slash_free("Gaborish"@) && "Gaborish"@ != "NotLast"@,
        word("XYB"@) && slash_free("XYB"@) && "XYB"@ != "NotLast"@,
        word("DeltaPalette"@) && slash_free("DeltaPalette"@) && "DeltaPalette"@ != "NotLast"@,
        word("Squeeze"@) && slash_free("Squeeze"@) && "Squeeze"@ != "NotLast"@,
        word("Upsample"@) && slash_free("Upsample"@) && "Upsample"@ != "NotLast"@,
{
    reveal_strlit("AvgAll");
    reveal_strlit("AvgN+NE");
    reveal_strlit("AvgN+NW");
    reveal_strlit("AvgW+N");
    reveal_strlit("AvgW+NW");
    reveal_strlit("DeltaPalette");
    reveal_strlit("Gaborish");
    reveal_strlit("Gradient");
    reveal_strlit("N");
    reveal_strlit("N-NE");
    reveal_strlit("N-NN");
    reveal_strlit("NE");
    reveal_strlit("NW");
    reveal_strlit("NW-N");
    reveal_strlit("NotLast");
    reveal_strlit("Prev");
    reveal_strlit("PrevErr");
    reveal_strlit("Select");
    reveal_strlit("Set");
    reveal_strlit("Squeeze");
    reveal_strlit("Upsample");
    reveal_strlit("W");
    reveal_strlit("W+N-NW");
    reveal_strlit("W-NW");
    reveal_strlit("W-WW");
    reveal_strlit("W-WW-NW+NWW");
    reveal_strlit("WGH");
    reveal_strlit("WW");
    reveal_strlit("Weighted");
    reveal_strlit("XYB");
    reveal_strlit("c");
    reveal_strlit("g");
    reveal_strlit("x");
    reveal_strlit("y");
    reveal_strlit("|N|");
    reveal_strlit("|W|");
    assert("W+N-NW"@.len() != "x"@.len());
    assert("W+N-NW"@.len() != "y"@.len());
    assert("W+N-NW"@.len() != "c"@.len());
    assert("W+N-NW"@.len() != "W"@.len());
    assert("W+N-NW"@.len() != "N"@.len());
    assert("W+N-NW"@.len() != "WGH"@.len());
    assert("|W|"@.len() != "x"@.len());
    assert("|W|"@.len() != "y"@.len());
    assert("|W|"@.len() != "c"@.len());
    assert("|W|"@.len() != "W"@.len());
    assert("|W|"@.len() != "N"@.len());
    assert("|W|"@[0] != "WGH"@[0]);
    assert("|N|"@.len() != "x"@.len());
    assert("|N|"@.len() != "y"@.len());
    assert("|N|"@.len() != "c"@.len());
    assert("|N|"@.len() != "W"@.len());
    assert("|N|"@.len() != "N"@.len());
    assert("|N|"@[0] != "WGH"@[0]);
    assert("N-NE"@.len() != "x"@.len());
    assert("N-NE"@.len() != "y"@.len());
    assert("N-NE"@.len() != "c"@.len());
    assert("N-NE"@.len() != "W"@.len());
    assert("N-NE"@.len() != "N"@.len());
    assert("N-NE"@.len() != "WGH"@.len());
    assert("NW-N"@.len() != "x"@.len());
    assert("NW-N"@.len() != "y"@.len());
    assert("NW-N"@.len() != "c"@.len());
    assert("NW-N"@.len() != "W"@.len());
    assert("NW-N"@.len() != "N"@.len());
    assert("NW-N"@.len() != "WGH"@.len());
    assert("W-NW"@.len() != "x"@.len());
    assert("W-NW"@.len() != "y"@.len());
    assert("W-NW"@.len() != "c"@.len());
    assert("W-NW"@.len() != "W"@.len());
    assert("W-NW"@.len() != "N"@.len());
    assert("W-NW"@.len() != "WGH"@.len());
    assert("N-NN"@.len() != "x"@.len());
    assert("N-NN"@.len() != "y"@.len());
    assert("N-NN"@.len() != "c"@.len());
    assert("N-NN"@.len() != "W"@.len());
    assert("N-NN"@.len() != "N"@.len());
    assert("N-NN"@.len() != "WGH"@.len());
    assert("W-WW"@.len() != "x"@.len());
    assert("W-WW"@.len() != "y"@.len());
    assert("W-WW"@.len() != "c"@.len());
    assert("W-WW"@.len() != "W"@.len());
    assert("W-WW"@.len() != "N"@.len());
    assert("W-WW"@.len() != "WGH"@.len());
    assert("W-WW-NW+NWW"@.len() != "x"@.len());
    assert("W-WW-NW+NWW"@.len() != "y"@.len());
    assert("W-WW-NW+NWW"@.len() != "c"@.len());
    assert("W-WW-NW+NWW"@.len() != "W"@.len());
    assert("W-WW-NW+NWW"@.len() != "N"@.len());
    assert("W-WW-NW+NWW"@.len() != "WGH"@.len());
    assert("g"@[0] != "x"@[0]);
    assert("g"@[0] != "y"@[0]);
    assert("g"@[0] != "c"@[0]);
    assert("g"@[0] != "W"@[0]);
    assert("g"@[0] != "N"@[0]);
    assert("g"@.len() != "WGH"@.len());
    assert("Prev"@.len() != "x"@.len());
    assert("Prev"@.len() != "y"@.len());
    assert("Prev"@.len() != "c"@.len());
    assert("Prev"@.len() != "W"@.len());
    assert("Prev"@.len() != "N"@.len());
    assert("Prev"@.len() != "WGH"@.len());
    assert("PrevErr"@.len() != "x"@.len());
    assert("PrevErr"@.len() != "y"@.len());
    assert("PrevErr"@.len() != "c"@.len());
    assert("PrevErr"@.len() != "W"@.len());
    assert("PrevErr"@.len() != "N"@.len());
    assert("PrevErr"@.len() != "WGH"@.len());
    assert("NE"@.len() != "Set"@.len());
    assert("NE"@.len() != "N"@.len());
    assert("NE"@.len() != "W"@.len());
    assert("NE"@.len() != "AvgN+NW"@.len());
    assert("NE"@.len() != "AvgN+NE"@.len());
    assert("NE"@.len() != "AvgW+NW"@.len());
    assert("NE"@.len() != "Weighted"@.len());
    assert("NW"@.len() != "Set"@.len());
    assert("NW"@.len() != "N"@.len());
    assert("NW"@.len() != "W"@.len());
    assert("NW"@.len() != "AvgN+NW"@.len());
    assert("NW"@.len() != "AvgN+NE"@.len());
    assert("NW"@.len() != "AvgW+NW"@.len());
    assert("NW"@.len() != "Weighted"@.len());
    assert("WW"@.len() != "Set"@.len());
    assert("WW"@.len() != "N"@.len());
    assert("WW"@.len() != "W"@.len());
    assert("WW"@.len() != "AvgN+NW"@.len());
    assert("WW"@.len() != "AvgN+NE"@.len());
    assert("WW"@.len() != "AvgW+NW"@.len());
    assert("WW"@.len() != "Weighted"@.len());
    assert("AvgW+N"@.len() != "Set"@.len());
    assert("AvgW+N"@.len() != "N"@.len());
    assert("AvgW+N"@.len() != "W"@.len());
    assert("AvgW+N"@.len() != "AvgN+NW"@.len());
    assert("AvgW+N"@.len() != "AvgN+NE"@.len());
    assert("AvgW+N"@.len() != "AvgW+NW"@.len());
    assert("AvgW+N"@.len() != "Weighted"@.len());
    assert("AvgAll"@.len() != "Set"@.len());
    assert("AvgAll"@.len() != "N"@.len());
    assert("AvgAll"@.len() != "W"@.len());
    assert("AvgAll"@.len() != "AvgN+NW"@.len());
    assert("AvgAll"@.len() != "AvgN+NE"@.len());
    assert("AvgAll"@.len() != "AvgW+NW"@.len());
    assert("AvgAll"@.len() != "Weighted"@.len());
    assert("Gradient"@.len() != "Set"@.len());
    assert("Gradient"@.len() != "N"@.len());
    assert("Gradient"@.len() != "W"@.len());
    assert("Gradient"@.len() != "AvgN+NW"@.len());
    assert("Gradient"@.len() != "AvgN+NE"@.len());
    assert("Gradient"@.len() != "AvgW+NW"@.len());
    assert("Gradient"@[0] != "Weighted"@[0]);
    assert("Select"@.len() != "Set"@.len());
    assert("Select"@.len() != "N"@.len());
    assert("Select"@.len() != "W"@.len());
    assert("Select"@.len() != "AvgN+NW"@.len());
    assert("Select"@.len() != "AvgN+NE"@.len());
    assert("Select"@.len() != "AvgW+NW"@.len());
    assert("Select"@.len() != "Weighted"@.len());
    assert("Gaborish"@.len() != "NotLast"@.len());
    assert("XYB"@.len() != "NotLast"@.len());
    assert("DeltaPalette"@.len() != "NotLast"@.len());
    assert("Squeeze"@[0] != "NotLast"@[0]);
    assert("Upsample"@.len() != "NotLast"@.len());
}

proof fn lemma_slash_free_no_open(s: Seq<char>)
    requires
        slash_free(s),
    ensures
        no_open(s),
{
    assert forall|i: int| 0 <= i < s.len() - 1 implies !(#[trigger] s[i] == '/' && s[i + 1] == '*') by {
        assert(s[i] != '/');
    }
}

/// The variables the generator picks read back as themselves.
pub proof fn lemma_candidate_var_ok(v: VarV)
    requires
        var_candidate(v),
    ensures
        var_ok(v),
{
    lemma_pool_literals();
    if let VarV::Other(s) = v {
        let i = choose|i: int| 0 <= i < 12 && composite_name(i) == s;
        lemma_slash_free_no_open(s);
    }
}

proof fn lemma_exotic_offset_ok(off: Seq<char>)
    requires
        exotic_offset(off),
    ensures
        raw_offset_ok(off),
{
    reveal_strlit("0");
    reveal_strlit("+");
    reveal_strlit("-");
    reveal_strlit("+ ");
    reveal_strlit("- ");
    if off == "0"@ {
        assert(word("0"@));
        lemma_tokens_word("0"@);
        assert(join_with(seq!["0"@], ' ') == "0"@);
    } else {
        let m = if exists|m: int| 1 <= m <= 32 && off == "+ "@ + dec_int(m) {
            choose|m: int| 1 <= m <= 32 && off == "+ "@ + dec_int(m)
        } else {
            choose|m: int| 1 <= m <= 32 && off == "- "@ + dec_int(m)
        };
        let sign = if off == "+ "@ + dec_int(m) {
            "+"@
        } else {
            "-"@
        };
        let d = dec_int(m);
        lemma_dec_int_word(m);
        lemma_parse_dec_i64(m as i64);
        assert(all_words(seq![sign, d]));
        lemma_tokens_join(seq![sign, d]);
        lemma_join2(sign, d);
        assert(off =~= sign + seq![' '] + d);
    }
}

/// The predictors the generator picks read back as themselves.
pub proof fn lemma_random_pred_ok(q: PredV)
    requires
        random_pred_ok(q),
    ensures
        pred_ok(q),
{
    lemma_pool_literals();
    if let PredV::Other(name, off) = q {
        let i = choose|i: int| 0 <= i < 7 && exotic_name(i) == name;
        lemma_slash_free_no_open(name);
        lemma_exotic_offset_ok(off);
    }
}

/// The trees the generator builds read back as themselves.
pub proof fn lemma_random_tree_ok(n: NodeV, depth: int, probs: Seq<u32>)
    requires
        random_tree_ok(n, depth, probs),
    ensures
        tree_ok(n),
    decreases n,
{
    match n {
        NodeV::If(c, t, f) => {
            lemma_candidate_var_ok(c.var);
            lemma_random_tree_ok(*t, depth + 1, probs);
            lemma_random_tree_ok(*f, depth + 1, probs);
        },
        NodeV::Leaf(p) => {
            lemma_random_pred_ok(p);
        },
    }
}

// ── Tree edits keep trees well-formed ─────────────────────────────────────────

/// An edit that keeps a condition's variable readable.
pub open spec fn edit_ok(e: CondEditV) -> bool {
    match e {
        CondEditV::Replace(v, _) => var_ok(v),
        _ => true,
    }
}

pub proof fn lemma_with_cond_ok(n: NodeV, k: int, e: CondEditV)
    requires
        tree_ok(n),
        edit_ok(e),
    ensures
        tree_ok(with_cond(n, k, e)),
    decreases n,
{
    if let NodeV::If(c, t, f) = n {
        lemma_with_cond_ok(*t, k - 1, e);
        lemma_with_cond_ok(*f, k - 1 - conds(*t).len(), e);
    }
}

pub proof fn lemma_with_swap_ok(n: NodeV, k: int)
    requires
        tree_ok(n),
    ensures
        tree_ok(with_swap(n, k)),
    decreases n,
{
    if let NodeV::If(c, t, f) = n {
        lemma_with_swap_ok(*t, k - 1);
        lemma_with_swap_ok(*f, k - 1 - conds(*t).len());
    }
}

pub proof fn lemma_with_set_shift_ok(n: NodeV, k: int, d: i64)
    requires
        tree_ok(n),
    ensures
        tree_ok(with_set_shift(n, k, d)),
    decreases n,
{
    if let NodeV::If(c, t, f) = n {
        lemma_with_set_shift_ok(*t, k, d);
        lemma_with_set_shift_ok(*f, k - crate::edit::set_values(*t).len(), d);
    }
}

pub proof fn lemma_with_leaf_ok(n: NodeV, k: int, q: PredV)
    requires
        tree_ok(n),
        pred_ok(q),
    ensures
        tree_ok(with_leaf(n, k, q)),
    decreases n,
{
    if let NodeV::If(c, t, f) = n {
        lemma_with_leaf_ok(*t, k, q);
        lemma_with_leaf_ok(*f, k - leaves(*t).len(), q);
    }
}

pub proof fn lemma_with_split_ok(n: NodeV, k: int, c: CondV, q: PredV)
    requires
        tree_ok(n),
        var_ok(c.var),
        pred_ok(q),
    ensures
        tree_ok(with_split(n, k, c, q)),
    decreases n,
{
    if let NodeV::If(c0, t, f) = n {
        lemma_with_split_ok(*t, k, c, q);
        lemma_with_split_ok(*f, k - leaves(*t).len(), c, q);
    } else {
        assert(tree_ok(NodeV::Leaf(q)));
    }
}

pub proof fn lemma_with_node_ok(n: NodeV, k: int, r: NodeV)
    requires
        tree_ok(n),
        tree_ok(r),
    ensures
        tree_ok(with_node(n, k, r)),
    decreases n,
{
    if k != 0 {
        if let NodeV::If(c, t, f) = n {
            lemma_with_node_ok(*t, k - 1, r);
            lemma_with_node_ok(*f, k - 1 - node_count(*t), r);
        }
    }
}

pub proof fn lemma_collapse_ok(n: NodeV, k: int, take_true: bool)
    requires
        tree_ok(n),
    ensures
        tree_ok(collapse_at(n, k, take_true)),
    decreases n,
{
    if let NodeV::If(c, t, f) = n {
        lemma_collapse_ok(*t, k - 1, take_true);
        lemma_collapse_ok(*f, k - 1 - conds(*t).len(), take_true);
    }
}

pub proof fn lemma_shift_offsets_ok(n: NodeV, d: i64)
    requires
        tree_ok(n),
    ensures
        tree_ok(shift_offsets(n, d)),
    decreases n,
{
    if let NodeV::If(c, t, f) = n {
        lemma_shift_offsets_ok(*t, d);
        lemma_shift_offsets_ok(*f, d);
    }
}

/// Shifting the offsets by `d` adds `d` (wrapping) to the offset of every
/// neighbour-based leaf, `Weighted` included, in leaf order: the offsets
/// read the same plus `d`, each leaf keeps its predictor kind, `Set` and
/// verbatim leaves stay as they were, and the conditions do not change.
pub proof fn shift_offsets_moves_every_offset(n: NodeV, d: i64)
    ensures
        conds(shift_offsets(n, d)) == conds(n),
        offsets(shift_offsets(n, d)) == offsets(n).map_values(|o: i64| o.wrapping_add(d)),
        leaves(shift_offsets(n, d)).len() == leaves(n).len(),
        forall|k: int|
            #![trigger leaves(shift_offsets(n, d))[k]]
            0 <= k < leaves(n).len() ==> match (leaves(n)[k], leaves(shift_offsets(n, d))[k]) {
                (PredV::N(a), PredV::N(b)) => b == a.wrapping_add(d),
                (PredV::W(a), PredV::W(b)) => b == a.wrapping_add(d),
                (PredV::AvgNNW(a), PredV::AvgNNW(b)) => b == a.wrapping_add(d),
                (PredV::AvgNNE(a), PredV::AvgNNE(b)) => b == a.wrapping_add(d),
                (PredV::AvgWNW(a), PredV::AvgWNW(b)) => b == a.wrapping_add(d),
                (PredV::Weighted(a), PredV::Weighted(b)) => b == a.wrapping_add(d),
                (PredV::SetValue(a), b) => b == PredV::SetValue(a),
                (PredV::Other(x, y), b) => b == PredV::Other(x, y),
                _ => false,
            },
    decreases n,
{
    let r = shift_offsets(n, d);
    if let NodeV::If(c, t, f) = n {
        shift_offsets_moves_every_offset(*t, d);
        shift_offsets_moves_every_offset(*f, d);
        let g = |o: i64| o.wrapping_add(d);
        assert((offsets(*t) + offsets(*f)).map_values(g) =~= offsets(*t).map_values(g) + offsets(
            *f,
        ).map_values(g));
        let lt = leaves(*t).len();
        assert forall|k: int| 0 <= k < leaves(n).len() implies #[trigger] leaves(r)[k] == (if k
            < lt {
            leaves(shift_offsets(*t, d))[k]
        } else {
            leaves(shift_offsets(*f, d))[k - lt]
        }) && leaves(n)[k] == (if k < lt {
            leaves(*t)[k]
        } else {
            leaves(*f)[k - lt]
        }) by {}
    }
}

/// Tweaking all offsets moves the offset of every neighbour-based leaf by
/// one and the same amount, at least 1, up for a percentage of 0 or more and
/// down for a negative one, and keeps the conditions and the number of
/// leaves; a tree without such a leaf is left as it was.
pub proof fn tweak_all_offsets_moves_offsets_together(percent: i64, p: ProgramV, r: ProgramV)
    requires
        raw_step_ok(Mutation::TweakAllOffsets { percent }, p, r),
    ensures
        offsets(p.root).len() == 0 ==> r == p,
        offsets(p.root).len() > 0 ==> exists|d: i64|
            #![trigger shift_offsets(p.root, d)]
            r.root == shift_offsets(p.root, d) && offsets(r.root) == offsets(p.root).map_values(
                |o: i64| o.wrapping_add(d),
            ) && (percent >= 0 ==> d >= 1) && (percent < 0 ==> d <= -1),
        conds(r.root) == conds(p.root),
        leaves(r.root).len() == leaves(p.root).len(),
{
    let n = p.root;
    if offsets(n).len() > 0 {
        let d = crate::mutations::offsets_delta_spec(offsets(n), percent);
        shift_offsets_moves_every_offset(n, d);
        assert(r.root == shift_offsets(n, d));
    }
}

pub proof fn lemma_subtree_ok(n: NodeV, a: Seq<bool>)
    requires
        tree_ok(n),
    ensures
        tree_ok(subtree_at(n, a)),
    decreases a.len(),
{
    if a.len() > 0 {
        if let NodeV::If(c, t, f) = n {
            lemma_subtree_ok(if a[0] {
                *t
            } else {
                *f
            }, a.drop_first());
        }
    }
}

pub proof fn lemma_put_ok(n: NodeV, a: Seq<bool>, s: NodeV)
    requires
        tree_ok(n),
        tree_ok(s),
    ensures
        tree_ok(put_at(n, a, s)),
    decreases a.len(),
{
    if a.len() > 0 {
        if let NodeV::If(c, t, f) = n {
            lemma_put_ok(if a[0] {
                *t
            } else {
                *f
            }, a.drop_first(), s);
        }
    }
}

pub proof fn lemma_swapped_ok(n: NodeV, a: Seq<bool>, b: Seq<bool>)
    requires
        tree_ok(n),
    ensures
        tree_ok(swapped(n, a, b)),
{
    lemma_subtree_ok(n, a);
    lemma_subtree_ok(n, b);
    lemma_put_ok(n, a, subtree_at(n, b));
    lemma_put_ok(put_at(n, a, subtree_at(n, b)), b, subtree_at(n, a));
}


// ── Header edits keep headers well-formed ─────────────────────────────────────

/// `NotLast` heads one of the lines.
pub proof fn lemma_has_notlast(hs: Seq<Seq<char>>)
    ensures
        has_notlast(hs) == exists|i: int| 0 <= i < hs.len() && starts_with_word(#[trigger] hs[i], "NotLast"@),
    decreases hs.len(),
{
    if hs.len() > 0 {
        lemma_has_notlast(hs.drop_last());
        if has_notlast(hs.drop_last()) {
            let i = choose|i: int| 0 <= i < hs.drop_last().len() && starts_with_word(#[trigger] hs.drop_last()[i], "NotLast"@);
            assert(hs[i] == hs.drop_last()[i]);
        }
        if exists|i: int| 0 <= i < hs.len() && starts_with_word(#[trigger] hs[i], "NotLast"@) {
            let i = choose|i: int| 0 <= i < hs.len() && starts_with_word(#[trigger] hs[i], "NotLast"@);
            if i < hs.len() - 1 {
                assert(hs.drop_last()[i] == hs[i]);
            }
        }
    }
}

/// A line that is one of the flag words, or `Upsample` and a factor: a
/// directive line that is not `NotLast`.
proof fn lemma_pool_line(w: Seq<char>)
    requires
        header_pool().contains(w) || w == "Upsample"@,
    ensures
        directive_line(w, true),
        !starts_with_word(w, "NotLast"@),
{
    lemma_pool_literals();
    let i = choose|i: int| 0 <= i < header_pool().len() && header_pool()[i] == w;
    lemma_tokens_word(w);
    assert(join_with(seq![w], ' ') == w);
    lemma_slash_free_no_open(w);
}

proof fn lemma_upsample_line(k: u32)
    ensures
        directive_line(upsample_line(k), true),
        !starts_with_word(upsample_line(k), "NotLast"@),
        starts_with_word(upsample_line(k), "Upsample"@),
{
    lemma_pool_literals();
    reveal_strlit("Upsample ");
    reveal_strlit("Upsample");
    let u = "Upsample"@;
    let d = dec_int(k as int);
    lemma_dec_int_word(k as int);
    assert(u + seq![' '] =~= "Upsample "@);
    lemma_join2(u, d);
    assert(all_words(seq![u, d]));
    lemma_tokens_join(seq![u, d]);
    let l = upsample_line(k);
    assert(l =~= u + seq![' '] + d);
    assert(slash_free(l)) by {
        crate::roundtrip::lemma_dec_int_word(k as int);
        assert forall|i: int| 0 <= i < l.len() implies #[trigger] l[i] != '/' by {
            if i < 9 {
                assert(l[i] == "Upsample "@[i]);
            } else {
                assert(l[i] == d[i - 9]);
                assert(crate::text::is_digit(d[i - 9]) || d[i - 9] == '-');
            }
        }
    }
    lemma_slash_free_no_open(l);
}

/// Toggling a flag keeps the header lines well-formed and `NotLast` as it was.
pub proof fn lemma_toggled_ok(hs: Seq<Seq<char>>, i: int)
    requires
        0 <= i < 4,
        forall|k: int| 0 <= k < hs.len() ==> directive_line(#[trigger] hs[k], true),
    ensures
        forall|k: int| 0 <= k < toggled(hs, header_pool()[i]).len() ==> directive_line(
            #[trigger] toggled(hs, header_pool()[i])[k],
            true,
        ),
        has_notlast(toggled(hs, header_pool()[i])) == has_notlast(hs),
{
    let w = header_pool()[i];
    assert(header_pool().contains(w));
    lemma_pool_line(w);
    lemma_pool_literals();
    crate::mutations::lemma_first_with_word(hs, w, 0);
    let r = toggled(hs, w);
    lemma_has_notlast(hs);
    lemma_has_notlast(r);
    match first_with_word(hs, w, 0) {
        Some(j) => {
            assert(r == hs.remove(j));
            first_with_word_found(hs, w, 0);
            assert(starts_with_word(hs[j], w));
            assert(!starts_with_word(hs[j], "NotLast"@));
            assert forall|k: int| 0 <= k < r.len() implies directive_line(#[trigger] r[k], true) by {
                if k < j {
                    assert(r[k] == hs[k]);
                } else {
                    assert(r[k] == hs[k + 1]);
                }
            }
            if has_notlast(hs) {
                let x = choose|x: int| 0 <= x < hs.len() && starts_with_word(#[trigger] hs[x], "NotLast"@);
                if x < j {
                    assert(r[x] == hs[x]);
                } else {
                    assert(x != j);
                    assert(r[x - 1] == hs[x]);
                }
            }
            if has_notlast(r) {
                let x = choose|x: int| 0 <= x < r.len() && starts_with_word(#[trigger] r[x], "NotLast"@);
                if x < j {
                    assert(r[x] == hs[x]);
                } else {
                    assert(r[x] == hs[x + 1]);
                }
            }
        },
        None => {
            assert(r == hs.push(w));
            assert forall|k: int| 0 <= k < r.len() implies directive_line(#[trigger] r[k], true) by {
                if k < hs.len() {
                    assert(r[k] == hs[k]);
                }
            }
            if has_notlast(r) {
                let x = choose|x: int| 0 <= x < r.len() && starts_with_word(#[trigger] r[x], "NotLast"@);
                assert(x < hs.len());
                assert(r[x] == hs[x]);
            }
            if has_notlast(hs) {
                let x = choose|x: int| 0 <= x < hs.len() && starts_with_word(#[trigger] hs[x], "NotLast"@);
                assert(r[x] == hs[x]);
            }
        },
    }
}

proof fn first_with_word_found(hs: Seq<Seq<char>>, w: Seq<char>, i: int)
    requires
        0 <= i,
        first_with_word(hs, w, i) is Some,
    ensures
        starts_with_word(hs[first_with_word(hs, w, i)->Some_0], w),
    decreases hs.len() - i,
{
    if i < hs.len() && !starts_with_word(hs[i], w) {
        first_with_word_found(hs, w, i + 1);
    }
}

/// Cycling the `Upsample` factor keeps the header lines well-formed and
/// `NotLast` as it was.
pub proof fn lemma_cycled_ok(hs: Seq<Seq<char>>)
    requires
        forall|k: int| 0 <= k < hs.len() ==> directive_line(#[trigger] hs[k], true),
    ensures
        forall|k: int| 0 <= k < cycled_upsample(hs).len() ==> directive_line(
            #[trigger] cycled_upsample(hs)[k],
            true,
        ),
        has_notlast(cycled_upsample(hs)) == has_notlast(hs),
{
    lemma_pool_literals();
    crate::mutations::lemma_first_with_word(hs, "Upsample"@, 0);
    let r = cycled_upsample(hs);
    lemma_has_notlast(hs);
    lemma_has_notlast(r);
    match first_with_word(hs, "Upsample"@, 0) {
        Some(j) => {
            first_with_word_found(hs, "Upsample"@, 0);
            let nk: u32 = if crate::mutations::upsample_arg(hs[j]) >= 4 {
                2
            } else {
                4
            };
            lemma_upsample_line(nk);
            assert(r == hs.update(j, upsample_line(nk)));
            assert(!starts_with_word(hs[j], "NotLast"@));
            assert forall|k: int| 0 <= k < r.len() implies directive_line(#[trigger] r[k], true) by {
                if k != j {
                    assert(r[k] == hs[k]);
                }
            }
            if has_notlast(hs) {
                let x = choose|x: int| 0 <= x < hs.len() && starts_with_word(#[trigger] hs[x], "NotLast"@);
                assert(x != j);
                assert(r[x] == hs[x]);
            }
            if has_notlast(r) {
                let x = choose|x: int| 0 <= x < r.len() && starts_with_word(#[trigger] r[x], "NotLast"@);
                assert(x != j);
                assert(r[x] == hs[x]);
            }
        },
        None => {
            lemma_upsample_line(2);
            assert(r == hs.push(upsample_line(2)));
            assert forall|k: int| 0 <= k < r.len() implies directive_line(#[trigger] r[k], true) by {
                if k < hs.len() {
                    assert(r[k] == hs[k]);
                }
            }
            if has_notlast(r) {
                let x = choose|x: int| 0 <= x < r.len() && starts_with_word(#[trigger] r[x], "NotLast"@);
                assert(x < hs.len());
                assert(r[x] == hs[x]);
            }
            if has_notlast(hs) {
                let x = choose|x: int| 0 <= x < hs.len() && starts_with_word(#[trigger] hs[x], "NotLast"@);
                assert(r[x] == hs[x]);
            }
        },
    }
}


// ── Laws ──────────────────────────────────────────────────────────────────────

/// The change of a mutation other than a chain keeps a well-formed program
/// well-formed.
proof fn raw_step_keeps_well_formed(m: Mutation, p: ProgramV, r: ProgramV)
    requires
        program_ok(p),
        raw_step_ok(m, p, r),
    ensures
        program_ok(r),
{
    let n = p.root;
    match m {
        Mutation::TweakThreshold { percent } => {
            if conds(n).len() > 0 {
                let k = choose|k: int|
                    0 <= k < conds(n).len() && r == with_root(
                        p,
                        #[trigger] with_cond(
                            n,
                            k,
                            CondEditV::Shift(
                                crate::mutations::relative_delta_spec(
                                    crate::edit::thresholds(n)[k],
                                    crate::edit::thresholds(n),
                                    percent,
                                ),
                            ),
                        ),
                    );
                lemma_with_cond_ok(n, k, CondEditV::Shift(crate::mutations::relative_delta_spec(crate::edit::thresholds(n)[k], crate::edit::thresholds(n), percent)));
            }
        },
        Mutation::NegateThreshold => {
            if countable(n) && conds(n).len() > 0 {
                let k = choose|k: int| 0 <= k < conds(n).len() && r == with_root(p, #[trigger] with_cond(n, k, CondEditV::Negate));
                lemma_with_cond_ok(n, k, CondEditV::Negate);
            }
        },
        Mutation::SwapConditionVar => {
            if countable(n) && conds(n).len() > 0 {
                let (k, v, t) = choose|k: int, v: VarV, t: i64|
                    0 <= k < conds(n).len() && var_candidate(v) && crate::mutations::threshold_fits(v, t) && r == with_root(
                        p,
                        #[trigger] with_cond(n, k, CondEditV::Replace(v, t)),
                    );
                lemma_candidate_var_ok(v);
                lemma_with_cond_ok(n, k, CondEditV::Replace(v, t));
            }
        },
        Mutation::SwapBranches => {
            if countable(n) && conds(n).len() > 0 {
                let k = choose|k: int| 0 <= k < conds(n).len() && r == with_root(p, #[trigger] with_swap(n, k));
                lemma_with_swap_ok(n, k);
            }
        },
        Mutation::TweakSetValue { percent } => {
            let sv = crate::edit::set_values(n);
            if sv.len() > 0 {
                let k = choose|k: int|
                    0 <= k < sv.len() && r == with_root(
                        p,
                        #[trigger] with_set_shift(n, k, crate::mutations::relative_delta_spec(sv[k], sv, percent)),
                    );
                lemma_with_set_shift_ok(n, k, crate::mutations::relative_delta_spec(sv[k], sv, percent));
            }
        },
        Mutation::SwapPredictor => {
            if countable(n) {
                let (k, q) = choose|k: int, q: PredV|
                    0 <= k < leaves(n).len() && random_pred_ok(q) && r == with_root(p, #[trigger] with_leaf(n, k, q));
                lemma_random_pred_ok(q);
                lemma_with_leaf_ok(n, k, q);
            }
        },
        Mutation::TweakAllOffsets { percent } => {
            if crate::edit::offsets(n).len() > 0 {
                lemma_shift_offsets_ok(n, crate::mutations::offsets_delta_spec(crate::edit::offsets(n), percent));
            }
        },
        Mutation::AddBranch => {
            let (v, t, sv) = choose|v: VarV, t: i64, s: i64|
                var_candidate(v) && 0 <= t <= 255 && 0 <= s <= 255 && r == with_root(
                    p,
                    #[trigger] added_branch(n, v, t, s),
                );
            lemma_candidate_var_ok(v);
            assert(tree_ok(NodeV::Leaf(PredV::SetValue(sv))));
        },
        Mutation::RemoveBranch => {},
        Mutation::PromoteTrueBranch => {},
        Mutation::RemoveBranchAt => {
            if countable(n) && conds(n).len() > 0 {
                let k = choose|k: int| 0 <= k < conds(n).len() && r == with_root(p, #[trigger] collapse_at(n, k, false));
                lemma_collapse_ok(n, k, false);
            }
        },
        Mutation::PromoteTrueAt => {
            if countable(n) && conds(n).len() > 0 {
                let k = choose|k: int| 0 <= k < conds(n).len() && r == with_root(p, #[trigger] collapse_at(n, k, true));
                lemma_collapse_ok(n, k, true);
            }
        },
        Mutation::SwapSubtrees => {
            if r != p {
                let (a, b) = choose|a: Seq<bool>, b: Seq<bool>|
                    valid_path(n, a) && valid_path(n, b) && crate::edit::disjoint(a, b) && r == with_root(
                        p,
                        #[trigger] swapped(n, a, b),
                    );
                lemma_swapped_ok(n, a, b);
            }
        },
        Mutation::InsertIfAtLeaf => {
            if countable(n) {
                let (k, v, t, q) = choose|k: int, v: VarV, t: i64, q: PredV|
                    0 <= k < leaves(n).len() && var_candidate(v) && 0 <= t <= 255 && random_pred_ok(q) && r
                        == with_root(p, #[trigger] with_split(n, k, CondV { var: v, threshold: t }, q));
                lemma_candidate_var_ok(v);
                lemma_random_pred_ok(q);
                lemma_with_split_ok(n, k, CondV { var: v, threshold: t }, q);
            }
        },
        Mutation::ReplaceSubtreeRandom => {
            if countable(n) {
                let (k, sub) = choose|k: int, s: NodeV|
                    0 <= k < node_count(n) && random_tree_ok(s, 1, branch_probs_of(Complexity::Normal))
                        && r == with_root(p, #[trigger] with_node(n, k, s));
                lemma_random_tree_ok(sub, 1, branch_probs_of(Complexity::Normal));
                lemma_with_node_ok(n, k, sub);
            }
        },
        Mutation::CycleRct => {
            let x = choose|x: u32|
                crate::mutations::rct_pool().contains(x) && x != (match p.rct {
                    Some(v) => v,
                    None => 0,
                }) && r == #[trigger] with_rct(p, x);
        },
        Mutation::ToggleHeader => {
            let i = choose|i: int|
                0 <= i < 4 && r == ProgramV { headers: #[trigger] toggled(p.headers, header_pool()[i]), ..p };
            lemma_toggled_ok(p.headers, i);
        },
        Mutation::CycleUpsample => {
            lemma_cycled_ok(p.headers);
        },
        Mutation::SwapPredictorExotic => {
            if countable(n) {
                let (k, q) = choose|k: int, q: PredV|
                    0 <= k < leaves(n).len() && exotic_candidate(q) && r == with_root(p, #[trigger] with_leaf(n, k, q));
                assert(random_pred_ok(q));
                lemma_random_pred_ok(q);
                lemma_with_leaf_ok(n, k, q);
            }
        },
        Mutation::Chain(_) => {},
    }
}

/// Pruning dead conditions keeps a well-formed program well-formed.
proof fn lemma_pruned_ok(q: ProgramV)
    requires
        program_ok(q),
    ensures
        program_ok(pruned(q)),
{
    lemma_prune_tree_ok(q.root, seq![]);
}

/// Whatever a single mutation or a chain draws, a well-formed program
/// stays well-formed.
pub proof fn mutation_keeps_well_formed(m: Mutation, p: ProgramV, r: ProgramV)
    requires
        program_ok(p),
        step_ok(m, p, r),
    ensures
        program_ok(r),
    decreases m,
{
    match m {
        Mutation::Chain(ms) => {
            assert(decreases_to!(m => m->Chain_0));
            chain_keeps_well_formed(ms@, p, r);
        },
        _ => {
            let q = choose|q: ProgramV| #[trigger] raw_step_ok(m, p, q) && r == pruned(q);
            raw_step_keeps_well_formed(m, p, q);
            lemma_pruned_ok(q);
        },
    }
}

/// Applying a chain's steps in turn keeps a well-formed program
/// well-formed.
pub proof fn chain_keeps_well_formed(ms: Seq<Mutation>, p: ProgramV, r: ProgramV)
    requires
        program_ok(p),
        chain_ok(ms, p, r),
    ensures
        program_ok(r),
    decreases ms,
{
    if ms.len() > 0 {
        let q = choose|q: ProgramV|
            #[trigger] stage(q) && chain_ok(ms.subrange(0, ms.len() - 1), p, q) && step_ok(
                ms[ms.len() - 1],
                q,
                r,
            );
        chain_keeps_well_formed(ms.subrange(0, ms.len() - 1), p, q);
        mutation_keeps_well_formed(ms[ms.len() - 1], q, r);
    }
}


/// The flags picked from a pool are pool entries.
proof fn lemma_picked_in(pool: Seq<Seq<char>>, mask: Seq<bool>)
    ensures
        forall|k: int| 0 <= k < picked(pool, mask).len() ==> pool.contains(#[trigger] picked(pool, mask)[k]),
    decreases mask.len(),
{
    if mask.len() > 0 && pool.len() > 0 {
        lemma_picked_in(pool.drop_last(), mask.drop_last());
        let a = picked(pool.drop_last(), mask.drop_last());
        let r = picked(pool, mask);
        assert forall|k: int| 0 <= k < r.len() implies pool.contains(#[trigger] r[k]) by {
            if k < a.len() {
                assert(r[k] == a[k]);
                let j = choose|j: int| 0 <= j < pool.drop_last().len() && pool.drop_last()[j] == a[k];
                assert(pool[j] == a[k]);
            } else {
                assert(r[k] == pool.last());
                assert(pool[pool.len() - 1] == pool.last());
            }
        }
    }
}

/// Headers made of flags from the pool, then perhaps an `Upsample` line:
/// directive lines without `NotLast`.
proof fn lemma_generated_headers(hs: Seq<Seq<char>>)
    requires
        forall|k: int| 0 <= k < hs.len() ==> header_pool().contains(#[trigger] hs[k]) || exists|f: u32|
            hs[k] == upsample_line(f),
    ensures
        forall|k: int| 0 <= k < hs.len() ==> directive_line(#[trigger] hs[k], true),
        !has_notlast(hs),
{
    assert forall|k: int| 0 <= k < hs.len() implies directive_line(#[trigger] hs[k], true) && !starts_with_word(
        hs[k],
        "NotLast"@,
    ) by {
        if header_pool().contains(hs[k]) {
            lemma_pool_line(hs[k]);
        } else {
            let f = choose|f: u32| hs[k] == upsample_line(f);
            lemma_upsample_line(f);
        }
    }
    lemma_has_notlast(hs);
}

/// A generated program is well-formed.
pub proof fn generated_program_well_formed(p: ProgramV, cx: Complexity, dims: Option<(u32, u32)>)
    requires
        generated_ok(p, cx, dims),
    ensures
        program_ok(p),
{
    let q = choose|q: ProgramV| #[trigger] random_program_ok(q, cx, dims) && p == pruned(q);
    raw_program_well_formed(q, cx, dims);
    lemma_pruned_ok(q);
}

/// A program that `random_program_ok` describes is well-formed.
proof fn raw_program_well_formed(p: ProgramV, cx: Complexity, dims: Option<(u32, u32)>)
    requires
        random_program_ok(p, cx, dims),
    ensures
        program_ok(p),
{
    if let NodeV::If(c, t, f) = p.root {
        lemma_random_tree_ok(*t, 1, branch_probs_of(cx));
        lemma_random_tree_ok(*f, 1, branch_probs_of(cx));
        assert(var_ok(c.var));
    }
    let hs = p.headers;
    if header_subset(hs) {
        let m = choose|m: Seq<bool>| m.len() == 4 && hs == picked(header_pool(), m);
        lemma_picked_in(header_pool(), m);
        lemma_generated_headers(hs);
    } else {
        let base = hs.drop_last();
        let m = choose|m: Seq<bool>| m.len() == 4 && base == picked(header_pool(), m);
        lemma_picked_in(header_pool(), m);
        assert forall|k: int| 0 <= k < hs.len() implies header_pool().contains(#[trigger] hs[k]) || exists|f: u32|
            hs[k] == upsample_line(f) by {
            if k < hs.len() - 1 {
                assert(hs[k] == base[k]);
            } else {
                assert(hs[k] == upsample_line(crate::mutations::upsample_for(p.width)));
            }
        }
        lemma_generated_headers(hs);
    }
}

/// Whatever a mutation draws, the mutated program of a well-formed program
/// prints as text that reads back as the mutated program.
pub proof fn mutated_program_reads_back(m: Mutation, p: ProgramV, r: ProgramV)
    requires
        program_ok(p),
        step_ok(m, p, r),
    ensures
        parse_program(program_text(r)) == Ok::<ProgramV, Seq<char>>(r),
{
    mutation_keeps_well_formed(m, p, r);
    print_then_read(r);
}

/// A program read from text and then mutated prints as text that reads
/// back as the mutated program, provided its verbatim parts and names hold
/// no comment marker `/*` and no spline line ends in `\r`.
pub proof fn read_then_mutated_reads_back(s: Seq<char>, m: Mutation, p: ProgramV, r: ProgramV)
    requires
        parse_program(s) == Ok::<ProgramV, Seq<char>>(p),
        program_clean(p),
        step_ok(m, p, r),
    ensures
        parse_program(program_text(r)) == Ok::<ProgramV, Seq<char>>(r),
{
    lemma_read_ok(s);
    mutation_keeps_well_formed(m, p, r);
    print_then_read(r);
}

/// A generated program prints as text that reads back as the program.
pub proof fn generated_program_reads_back(p: ProgramV, cx: Complexity, dims: Option<(u32, u32)>)
    requires
        generated_ok(p, cx, dims),
    ensures
        parse_program(program_text(p)) == Ok::<ProgramV, Seq<char>>(p),
{
    generated_program_well_formed(p, cx, dims);
    print_then_read(p);
}

// ── What mutations leave alone ───────────────────────────────────────────────

/// Whether the last change a mutation makes is a single step (a chain
/// ends in one, through any nesting); only an empty chain does not.
pub open spec fn ends_in_step(m: Mutation) -> bool
    decreases m,
{
    match m {
        Mutation::Chain(ms) => steps_end_in_step(ms@),
        _ => true,
    }
}

pub open spec fn steps_end_in_step(ms: Seq<Mutation>) -> bool
    decreases ms,
{
    ms.len() > 0 && ends_in_step(ms[ms.len() - 1])
}

/// Whether a mutation, or some step of a chain, edits the program-level
/// settings (the RCT preset or the header lines).
pub open spec fn touches_header(m: Mutation) -> bool
    decreases m,
{
    match m {
        Mutation::CycleRct => true,
        Mutation::ToggleHeader => true,
        Mutation::CycleUpsample => true,
        Mutation::Chain(ms) => steps_touch_header(ms@),
        _ => false,
    }
}

pub open spec fn steps_touch_header(ms: Seq<Mutation>) -> bool
    decreases ms,
{
    ms.len() > 0 && (steps_touch_header(ms.subrange(0, ms.len() - 1)) || touches_header(
        ms[ms.len() - 1],
    ))
}

/// Whether a mutation, and every step of a chain, edits only the
/// program-level settings.
pub open spec fn only_header(m: Mutation) -> bool
    decreases m,
{
    match m {
        Mutation::CycleRct => true,
        Mutation::ToggleHeader => true,
        Mutation::CycleUpsample => true,
        Mutation::Chain(ms) => steps_only_header(ms@),
        _ => false,
    }
}

pub open spec fn steps_only_header(ms: Seq<Mutation>) -> bool
    decreases ms,
{
    ms.len() == 0 || (steps_only_header(ms.subrange(0, ms.len() - 1)) && only_header(
        ms[ms.len() - 1],
    ))
}

/// Whether `r` has the canvas of `p`: size, bit depth, channels,
/// orientation, splines and later frames.
pub open spec fn same_canvas(p: ProgramV, r: ProgramV) -> bool {
    &&& r.width == p.width
    &&& r.height == p.height
    &&& r.bitdepth == p.bitdepth
    &&& r.channels == p.channels
    &&& r.orientation == p.orientation
    &&& r.splines == p.splines
    &&& r.frames == p.frames
}

/// No mutation or chain changes the canvas: the size, bit depth, channels,
/// orientation, splines and later frames stay as they were.
pub proof fn mutation_keeps_canvas(m: Mutation, p: ProgramV, r: ProgramV)
    requires
        step_ok(m, p, r),
    ensures
        same_canvas(p, r),
    decreases m,
{
    match m {
        Mutation::Chain(ms) => {
            assert(decreases_to!(m => m->Chain_0));
            chain_keeps_canvas(ms@, p, r);
        },
        _ => {
            let q = choose|q: ProgramV| #[trigger] raw_step_ok(m, p, q) && r == pruned(q);
        },
    }
}

/// A chain keeps the canvas, step by step.
pub proof fn chain_keeps_canvas(ms: Seq<Mutation>, p: ProgramV, r: ProgramV)
    requires
        chain_ok(ms, p, r),
    ensures
        same_canvas(p, r),
    decreases ms,
{
    if ms.len() > 0 {
        let q = choose|q: ProgramV|
            #[trigger] stage(q) && chain_ok(ms.subrange(0, ms.len() - 1), p, q) && step_ok(
                ms[ms.len() - 1],
                q,
                r,
            );
        chain_keeps_canvas(ms.subrange(0, ms.len() - 1), p, q);
        mutation_keeps_canvas(ms[ms.len() - 1], q, r);
    }
}

/// A mutation none of whose steps edits the program-level settings leaves
/// the RCT preset and the header lines as they were.
pub proof fn tree_mutation_keeps_headers(m: Mutation, p: ProgramV, r: ProgramV)
    requires
        step_ok(m, p, r),
        !touches_header(m),
    ensures
        r.rct == p.rct,
        r.headers == p.headers,
    decreases m,
{
    match m {
        Mutation::Chain(ms) => {
            assert(decreases_to!(m => m->Chain_0));
            chain_keeps_headers(ms@, p, r);
        },
        _ => {
            let q = choose|q: ProgramV| #[trigger] raw_step_ok(m, p, q) && r == pruned(q);
        },
    }
}

/// A chain none of whose steps edits the program-level settings leaves
/// them as they were.
pub proof fn chain_keeps_headers(ms: Seq<Mutation>, p: ProgramV, r: ProgramV)
    requires
        chain_ok(ms, p, r),
        !steps_touch_header(ms),
    ensures
        r.rct == p.rct,
        r.headers == p.headers,
    decreases ms,
{
    if ms.len() > 0 {
        let q = choose|q: ProgramV|
            #[trigger] stage(q) && chain_ok(ms.subrange(0, ms.len() - 1), p, q) && step_ok(
                ms[ms.len() - 1],
                q,
                r,
            );
        chain_keeps_headers(ms.subrange(0, ms.len() - 1), p, q);
        tree_mutation_keeps_headers(ms[ms.len() - 1], q, r);
    }
}

/// A mutation all of whose steps edit only the program-level settings
/// leaves the tree as it was, or pruned of its dead conditions; a tree
/// without dead conditions stays exactly as it was.
pub proof fn header_mutation_keeps_tree(m: Mutation, p: ProgramV, r: ProgramV)
    requires
        step_ok(m, p, r),
        only_header(m),
    ensures
        r.root == p.root || r.root == prune(p.root, seq![]),
        no_dead(p.root, seq![]) ==> r.root == p.root,
    decreases m,
{
    lemma_prune_no_dead(p.root, seq![]);
    lemma_prune_clean(prune(p.root, seq![]), seq![]);
    if no_dead(p.root, seq![]) {
        lemma_prune_clean(p.root, seq![]);
    }
    match m {
        Mutation::Chain(ms) => {
            assert(decreases_to!(m => m->Chain_0));
            chain_keeps_tree(ms@, p, r);
        },
        _ => {
            let q = choose|q: ProgramV| #[trigger] raw_step_ok(m, p, q) && r == pruned(q);
        },
    }
}

/// A chain all of whose steps edit only the program-level settings leaves
/// the tree as it was, or pruned.
pub proof fn chain_keeps_tree(ms: Seq<Mutation>, p: ProgramV, r: ProgramV)
    requires
        chain_ok(ms, p, r),
        steps_only_header(ms),
    ensures
        r.root == p.root || r.root == prune(p.root, seq![]),
        no_dead(p.root, seq![]) ==> r.root == p.root,
    decreases ms,
{
    lemma_prune_no_dead(p.root, seq![]);
    lemma_prune_clean(prune(p.root, seq![]), seq![]);
    if no_dead(p.root, seq![]) {
        lemma_prune_clean(p.root, seq![]);
    }
    if ms.len() > 0 {
        let q = choose|q: ProgramV|
            #[trigger] stage(q) && chain_ok(ms.subrange(0, ms.len() - 1), p, q) && step_ok(
                ms[ms.len() - 1],
                q,
                r,
            );
        chain_keeps_tree(ms.subrange(0, ms.len() - 1), p, q);
        header_mutation_keeps_tree(ms[ms.len() - 1], q, r);
    }
}

/// A generated program whose canvas the generator picked, when it is not
/// the full 1024 × 1024 canvas, is a square pixel-art canvas of 64, 96,
/// 128 or 256 pixels whose last header upscales it by 8, or by 4 for 256:
/// the factor is one that JPEG XL allows (at most 8), and the upscaled
/// canvas is at most 1024 pixels wide.
pub proof fn generated_pixel_art_upsample(p: ProgramV, cx: Complexity)
    requires
        generated_ok(p, cx, None),
        p.width != 1024,
    ensures
        p.height == p.width,
        p.width == 64 || p.width == 96 || p.width == 128 || p.width == 256,
        p.headers.len() >= 1,
        p.headers.last() == (if p.width == 256 {
            "Upsample 4"@
        } else {
            "Upsample 8"@
        }),
        exists|f: u32|
            #![trigger upsample_line(f)]
            p.headers.last() == upsample_line(f) && (f == 2 || f == 4 || f == 8) && p.width * f
                <= 1024,
{
    let q = choose|q: ProgramV| #[trigger] random_program_ok(q, cx, None) && p == pruned(q);
    assert(p.width == q.width && p.height == q.height && p.headers == q.headers);
    let w = p.width;
    assert(crate::mutations::pixel_dims().contains(w));
    let i = choose|i: int| 0 <= i < 4 && crate::mutations::pixel_dims()[i] == w;
    assert(w == 64 || w == 96 || w == 128 || w == 256) by {
        assert(crate::mutations::pixel_dims()[i] == w);
    }
    reveal_strlit("Upsample ");
    reveal_strlit("Upsample 4");
    reveal_strlit("Upsample 8");
    let f: u32 = if w == 256 { 4 } else { 8 };
    assert(crate::mutations::upsample_for(w) == f);
    assert(dec_int(f as int) == seq![crate::text::digit_char(f as nat)]);
    assert(crate::text::digit_char(4) == '4');
    assert(crate::text::digit_char(8) == '8');
    if w == 256 {
        assert(upsample_line(f) =~= "Upsample 4"@);
    } else {
        assert(upsample_line(f) =~= "Upsample 8"@);
    }
    assert(p.headers.last() == upsample_line(f));
}

// ── No dead conditions ───────────────────────────────────────────────────────

/// A generated program's tree holds no dead condition.
pub proof fn generated_program_has_no_dead_conditions(p: ProgramV, cx: Complexity, dims: Option<(u32, u32)>)
    requires
        generated_ok(p, cx, dims),
    ensures
        no_dead(p.root, seq![]),
{
    let q = choose|q: ProgramV| #[trigger] random_program_ok(q, cx, dims) && p == pruned(q);
    lemma_prune_no_dead(q.root, seq![]);
}

/// Whatever it draws, a mutation (or a chain that is not empty) leaves a
/// tree with no dead condition, whatever tree it started from.
pub proof fn mutated_program_has_no_dead_conditions(m: Mutation, p: ProgramV, r: ProgramV)
    requires
        step_ok(m, p, r),
        ends_in_step(m),
    ensures
        no_dead(r.root, seq![]),
    decreases m,
{
    match m {
        Mutation::Chain(ms) => {
            assert(decreases_to!(m => m->Chain_0));
            let s = ms@;
            let q = choose|q: ProgramV|
                #[trigger] stage(q) && chain_ok(s.subrange(0, s.len() - 1), p, q) && step_ok(
                    s[s.len() - 1],
                    q,
                    r,
                );
            mutated_program_has_no_dead_conditions(s[s.len() - 1], q, r);
        },
        _ => {
            let q = choose|q: ProgramV| #[trigger] raw_step_ok(m, p, q) && r == pruned(q);
            lemma_prune_no_dead(q.root, seq![]);
        },
    }
}

} // verus!

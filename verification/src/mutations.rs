//! Random program generation and the mutation engine.
//!
//! Probabilities are exact ratios of integers (per mille or per cent) and
//! mutation scales are whole percentages; the relative deltas they produce
//! are computed exactly, rounding halves away from zero.

use vstd::prelude::*;

use rand::rngs::ThreadRng;

use crate::prune::{prune, simplify_degenerate};
use crate::edit::{
    replace_node,
    collapse_at, collapse_nth_if, collect_node_paths, collect_offsets, collect_set_values,
    collect_thresholds, conds, count_all_nodes, count_conditions, count_predictors, disjoint,
    is_path_ancestor, lemma_counts, lemma_node_paths, leaves, node_count, node_paths, offsets,
    path_views, prefix_of, put_at, replace_nth_leaf, replace_nth_node, set_values, shift_offsets,
    subtree_at, swap_nth_branches, swap_subtrees_at, swapped, thresholds, tweak_all_offsets,
    valid_path, with_cond, with_leaf, with_node, with_set_shift, with_split, with_swap,
    apply_nth_condition, apply_nth_predictor, apply_nth_set_predictor, CondEdit, CondEditV,
};
use crate::random::{new_rng, rng_between, rng_index, rng_ratio};
use crate::parse::starts_with_word;
use crate::text::{
    chars_eq, chars_to_string, dec_int, parse_u32, parse_u32_chars, push_i64, push_str, push_u64,
    str_chars, str_eq, tokenize, tokens, views,
};
use crate::tree::string_views;
use vstd::arithmetic::div_mod::lemma_fundamental_div_mod_converse;
use crate::tree::{CondV, Condition, ImageProgram, Node, NodeV, Op, PredV, Predictor, ProgramV, Var, VarV};

verus! {

// ── Pools ─────────────────────────────────────────────────────────────────────

/// The RCT presets the generator and `CycleRct` pick from: a visually
/// distinct subset of libjxl's full set.
pub open spec fn rct_pool() -> Seq<u32> {
    seq![0u32, 2, 6, 10, 13, 16, 20, 27]
}

fn pool_rct(i: usize) -> (r: u32)
    requires
        i < 8,
    ensures
        r == rct_pool()[i as int],
{
    match i {
        0 => 0,
        1 => 2,
        2 => 6,
        3 => 10,
        4 => 13,
        5 => 16,
        6 => 20,
        _ => 27,
    }
}

/// The header flags the generator and `ToggleHeader` flip, in the order
/// the generator keeps them.
pub open spec fn header_pool() -> Seq<Seq<char>> {
    seq!["Gaborish"@, "XYB"@, "DeltaPalette"@, "Squeeze"@]
}

fn pool_header(i: usize) -> (r: &'static str)
    requires
        i < 4,
    ensures
        r@ == header_pool()[i as int],
{
    match i {
        0 => "Gaborish",
        1 => "XYB",
        2 => "DeltaPalette",
        _ => "Squeeze",
    }
}

/// How the threshold of a condition on a variable is drawn.
#[derive(Debug, Clone, Copy, PartialEq, Eq, Structural)]
pub enum VarClass {
    /// `x`, `y`: image coordinates.
    Coord,
    /// `c`: the channel index.
    Channel,
    /// `g`: the group index.
    Small,
    /// `W`, `N`: neighbour pixel values.
    Neighbor,
    /// `WGH`: the weighted predictor's error magnitude.
    Wgh,
    /// Gradient, absolute and previous-channel values, pixel-valued.
    Value,
    /// Neighbour differences, centred on zero.
    Diff,
}

/// The inclusive range a threshold of each class is drawn from.
pub open spec fn class_range(c: VarClass) -> (int, int) {
    match c {
        VarClass::Coord => (50, 950),
        VarClass::Channel => (0, 2),
        VarClass::Small => (0, 3),
        VarClass::Neighbor => (-100, 300),
        VarClass::Wgh => (0, 20),
        VarClass::Value => (0, 255),
        VarClass::Diff => (-50, 50),
    }
}

impl VarClass {
    pub fn sample(self, rng: &mut ThreadRng) -> (r: i64)
        ensures
            class_range(self).0 <= r <= class_range(self).1,
    {
        match self {
            VarClass::Coord => rng_between(rng, 50, 950),
            VarClass::Channel => rng_between(rng, 0, 2),
            VarClass::Small => rng_between(rng, 0, 3),
            VarClass::Neighbor => rng_between(rng, -100, 300),
            VarClass::Wgh => rng_between(rng, 0, 20),
            VarClass::Value => rng_between(rng, 0, 255),
            VarClass::Diff => rng_between(rng, -50, 50),
        }
    }
}

/// The composite and expression condition variables drawn from the
/// gallery, all valid condition properties for the encoder.
pub open spec fn composite_name(i: int) -> Seq<char> {
    if i == 0 {
        "W+N-NW"@
    } else if i == 1 {
        "|W|"@
    } else if i == 2 {
        "|N|"@
    } else if i == 3 {
        "N-NE"@
    } else if i == 4 {
        "NW-N"@
    } else if i == 5 {
        "W-NW"@
    } else if i == 6 {
        "N-NN"@
    } else if i == 7 {
        "W-WW"@
    } else if i == 8 {
        "W-WW-NW+NWW"@
    } else if i == 9 {
        "g"@
    } else if i == 10 {
        "Prev"@
    } else {
        "PrevErr"@
    }
}

pub open spec fn composite_class(i: int) -> VarClass {
    if i == 0 || i == 1 || i == 2 || i == 10 {
        VarClass::Value
    } else if i == 9 {
        VarClass::Small
    } else {
        VarClass::Diff
    }
}

fn composite_entry(i: usize) -> (r: (&'static str, VarClass))
    requires
        i < 12,
    ensures
        r.0@ == composite_name(i as int),
        r.1 == composite_class(i as int),
{
    match i {
        0 => ("W+N-NW", VarClass::Value),
        1 => ("|W|", VarClass::Value),
        2 => ("|N|", VarClass::Value),
        3 => ("N-NE", VarClass::Diff),
        4 => ("NW-N", VarClass::Diff),
        5 => ("W-NW", VarClass::Diff),
        6 => ("N-NN", VarClass::Diff),
        7 => ("W-WW", VarClass::Diff),
        8 => ("W-WW-NW+NWW", VarClass::Diff),
        9 => ("g", VarClass::Small),
        10 => ("Prev", VarClass::Value),
        _ => ("PrevErr", VarClass::Diff),
    }
}

/// The class of the first composite variable named `s`, from entry `i` on.
pub open spec fn lookup_class(s: Seq<char>, i: int) -> Option<VarClass>
    decreases 12 - i,
{
    if i < 0 || i >= 12 {
        None
    } else if composite_name(i) == s {
        Some(composite_class(i))
    } else {
        lookup_class(s, i + 1)
    }
}

/// The class of a variable; an unknown pasted expression counts as
/// pixel-valued.
pub open spec fn var_class_of(v: VarV) -> VarClass {
    match v {
        VarV::X => VarClass::Coord,
        VarV::Y => VarClass::Coord,
        VarV::C => VarClass::Channel,
        VarV::W => VarClass::Neighbor,
        VarV::N => VarClass::Neighbor,
        VarV::WGH => VarClass::Wgh,
        VarV::Other(s) => match lookup_class(s, 0) {
            Some(c) => c,
            None => VarClass::Value,
        },
    }
}

fn var_class(var: &Var) -> (r: VarClass)
    ensures
        r == var_class_of(var@),
{
    match var {
        Var::X => VarClass::Coord,
        Var::Y => VarClass::Coord,
        Var::C => VarClass::Channel,
        Var::W => VarClass::Neighbor,
        Var::N => VarClass::Neighbor,
        Var::WGH => VarClass::Wgh,
        Var::Other(s) => {
            let mut i: usize = 0;
            while i < 12
                invariant
                    i <= 12,
                    var@ == VarV::Other(s@),
                    lookup_class(s@, 0) == lookup_class(s@, i as int),
                decreases 12 - i,
            {
                let (name, class) = composite_entry(i);
                let st = s.as_str();
                if str_eq(st, name) {
                    assert(st@ == s@);
                    assert(lookup_class(s@, i as int) == Some(class));
                    return class;
                }
                i = i + 1;
            }
            VarClass::Value
        },
    }
}

/// A comparison threshold drawn from the range of `var`'s class.
fn random_threshold_for(var: &Var, rng: &mut ThreadRng) -> (r: i64)
    ensures
        threshold_fits(var@, r),
{
    var_class(var).sample(rng)
}

pub open spec fn threshold_fits(v: VarV, t: i64) -> bool {
    class_range(var_class_of(v)).0 <= t <= class_range(var_class_of(v)).1
}

/// A variable the generator may pick: one of the six basic ones or a
/// composite from the list.
pub open spec fn var_candidate(v: VarV) -> bool {
    match v {
        VarV::Other(s) => exists|i: int| 0 <= i < 12 && composite_name(i) == s,
        _ => true,
    }
}

/// About a third of the time a composite variable (`W+N-NW`, which
/// dominates real-world art, with extra weight), otherwise one of the six
/// basic ones.
fn random_var(rng: &mut ThreadRng) -> (r: Var)
    ensures
        var_candidate(r@),
{
    if rng_ratio(rng, 35, 100) {
        if rng_ratio(rng, 40, 100) {
            let s = "W+N-NW".to_owned();
            assert(composite_name(0) == s@);
            return Var::Other(s);
        }
        let i = rng_index(rng, 12);
        let (name, _) = composite_entry(i);
        let s = name.to_owned();
        assert(composite_name(i as int) == s@);
        return Var::Other(s);
    }
    match rng_index(rng, 6) {
        0 => Var::X,
        1 => Var::Y,
        2 => Var::C,
        3 => Var::W,
        4 => Var::N,
        _ => Var::WGH,
    }
}

/// The leaf predictors the encoder accepts that the structured predictor
/// type keeps verbatim (some valid condition names crash it as leaves, so
/// the list is curated).
pub open spec fn exotic_name(i: int) -> Seq<char> {
    if i == 0 {
        "NE"@
    } else if i == 1 {
        "NW"@
    } else if i == 2 {
        "WW"@
    } else if i == 3 {
        "AvgW+N"@
    } else if i == 4 {
        "AvgAll"@
    } else if i == 5 {
        "Gradient"@
    } else {
        "Select"@
    }
}

fn exotic_entry(i: usize) -> (r: &'static str)
    requires
        i < 7,
    ensures
        r@ == exotic_name(i as int),
{
    match i {
        0 => "NE",
        1 => "NW",
        2 => "WW",
        3 => "AvgW+N",
        4 => "AvgAll",
        5 => "Gradient",
        _ => "Select",
    }
}

/// An offset text of an exotic leaf: `"0"`, `"+ m"` or `"- m"` for
/// `1 <= m <= 32`.
pub open spec fn exotic_offset(off: Seq<char>) -> bool {
    ||| off == "0"@
    ||| exists|m: int| 1 <= m <= 32 && off == "+ "@ + dec_int(m)
    ||| exists|m: int| 1 <= m <= 32 && off == "- "@ + dec_int(m)
}

pub open spec fn exotic_candidate(p: PredV) -> bool {
    match p {
        PredV::Other(name, off) => (exists|i: int| 0 <= i < 7 && exotic_name(i) == name)
            && exotic_offset(off),
        _ => false,
    }
}

fn random_exotic_predictor(rng: &mut ThreadRng) -> (r: Predictor)
    ensures
        exotic_candidate(r@),
{
    let i = rng_index(rng, 7);
    let name = exotic_entry(i);
    let mut off: Vec<char> = Vec::new();
    let pick = rng_index(rng, 3);
    if pick == 0 {
        push_str(&mut off, "0");
    } else {
        let m = rng_between(rng, 1, 32);
        if pick == 1 {
            push_str(&mut off, "+ ");
        } else {
            push_str(&mut off, "- ");
        }
        push_i64(&mut off, m);
    }
    let offset = chars_to_string(&off);
    let name_s = name.to_owned();
    assert(exotic_name(i as int) == name_s@);
    Predictor::Other { name: name_s, offset }
}

/// A leaf the generator may produce: `Set` in `-128..=256`, a neighbour
/// predictor with offset in `-32..=32`, or an exotic one.
pub open spec fn random_pred_ok(p: PredV) -> bool {
    match p {
        PredV::SetValue(v) => -128 <= v <= 256,
        PredV::N(o) => -32 <= o <= 32,
        PredV::W(o) => -32 <= o <= 32,
        PredV::AvgNNW(o) => -32 <= o <= 32,
        PredV::AvgNNE(o) => -32 <= o <= 32,
        PredV::AvgWNW(o) => -32 <= o <= 32,
        PredV::Weighted(o) => -32 <= o <= 32,
        PredV::Other(_, _) => exotic_candidate(p),
    }
}

/// One leaf in five is exotic; otherwise `Set` (signed, so colour
/// difference channels can go negative) or a neighbour predictor.
fn random_predictor(rng: &mut ThreadRng) -> (r: Predictor)
    ensures
        random_pred_ok(r@),
{
    if rng_ratio(rng, 20, 100) {
        return random_exotic_predictor(rng);
    }
    let offset = rng_between(rng, -32, 32);
    match rng_index(rng, 7) {
        0 => Predictor::SetValue(rng_between(rng, -128, 256)),
        1 => Predictor::N(offset),
        2 => Predictor::W(offset),
        3 => Predictor::AvgNNW(offset),
        4 => Predictor::AvgNNE(offset),
        5 => Predictor::AvgWNW(offset),
        _ => Predictor::Weighted(offset),
    }
}


// ── Random trees and programs ─────────────────────────────────────────────────

/// The generator's complexity dial: it sets the branch-probability curve of
/// the random trees (header probability is not scaled).
#[derive(Debug, Clone, Copy, PartialEq, Eq, Structural)]
pub enum Complexity {
    Simple,
    Normal,
    Complex,
}

pub open spec fn complexity_of(n: u8) -> Complexity {
    if n == 0 {
        Complexity::Simple
    } else if n == 2 {
        Complexity::Complex
    } else {
        Complexity::Normal
    }
}

/// Branch probabilities per mille, indexed by depth; past the end a node
/// is always a leaf, so the length sets the maximum depth.
pub open spec fn branch_probs_of(c: Complexity) -> Seq<u32> {
    match c {
        Complexity::Simple => seq![650u32, 300, 100],
        Complexity::Normal => seq![950u32, 850, 700, 500, 250],
        Complexity::Complex => seq![980u32, 950, 900, 800, 600, 400, 200],
    }
}

impl Complexity {
    /// `0` is simple, `2` complex, anything else normal.
    pub fn from_u8(n: u8) -> (r: Self)
        ensures
            r == complexity_of(n),
    {
        match n {
            0 => Complexity::Simple,
            2 => Complexity::Complex,
            _ => Complexity::Normal,
        }
    }

    fn branch_probs(self) -> (r: Vec<u32>)
        ensures
            r@ == branch_probs_of(self),
    {
        let mut v: Vec<u32> = Vec::new();
        match self {
            Complexity::Simple => {
                v.push(650);
                v.push(300);
                v.push(100);
            },
            Complexity::Normal => {
                v.push(950);
                v.push(850);
                v.push(700);
                v.push(500);
                v.push(250);
            },
            Complexity::Complex => {
                v.push(980);
                v.push(950);
                v.push(900);
                v.push(800);
                v.push(600);
                v.push(400);
                v.push(200);
            },
        }
        assert(v@ =~= branch_probs_of(self));
        v
    }
}

/// A tree the generator may produce from depth `depth`: it branches only
/// where the curve gives a positive probability, on a candidate variable
/// with a threshold from its class's range, and ends in generated leaves.
pub open spec fn random_tree_ok(n: NodeV, depth: int, probs: Seq<u32>) -> bool
    decreases n,
{
    match n {
        NodeV::If(c, t, f) => {
            &&& 0 <= depth < probs.len()
            &&& probs[depth] > 0
            &&& var_candidate(c.var)
            &&& threshold_fits(c.var, c.threshold)
            &&& random_tree_ok(*t, depth + 1, probs)
            &&& random_tree_ok(*f, depth + 1, probs)
        },
        NodeV::Leaf(p) => random_pred_ok(p),
    }
}

/// Whether no leaf of `n` (rooted at `depth`) stands at a depth where the
/// curve branches for certain (1000 per mille).
pub open spec fn certain_branches_taken(n: NodeV, depth: int, probs: Seq<u32>) -> bool
    decreases n,
{
    match n {
        NodeV::If(_, t, f) => certain_branches_taken(*t, depth + 1, probs)
            && certain_branches_taken(*f, depth + 1, probs),
        NodeV::Leaf(_) => !(0 <= depth < probs.len() && probs[depth] == 1000),
    }
}

/// A random subtree rooted at `depth`, branching with the curve's
/// probability for that depth: never below a depth where the curve ends or
/// is 0, always where it is 1000.
fn random_node(rng: &mut ThreadRng, depth: usize, probs: &Vec<u32>) -> (r: Node)
    requires
        depth <= probs@.len(),
        forall|i: int| 0 <= i < probs@.len() ==> probs@[i] <= 1000,
    ensures
        random_tree_ok(r@, depth as int, probs@),
        certain_branches_taken(r@, depth as int, probs@),
    decreases probs@.len() - depth,
{
    let p: u32 = if depth < probs.len() {
        probs[depth]
    } else {
        0
    };
    if rng_ratio(rng, p, 1000) {
        let var = random_var(rng);
        let threshold = random_threshold_for(&var, rng);
        let t = random_node(rng, depth + 1, probs);
        let f = random_node(rng, depth + 1, probs);
        Node::If {
            condition: Condition { var, op: Op::Gt, threshold },
            on_true: Box::new(t),
            on_false: Box::new(f),
        }
    } else {
        Node::Predict(random_predictor(rng))
    }
}

/// The pool entries whose flag in `mask` is set, in pool order.
pub open spec fn picked(pool: Seq<Seq<char>>, mask: Seq<bool>) -> Seq<Seq<char>>
    decreases mask.len(),
{
    if mask.len() == 0 || pool.len() == 0 {
        seq![]
    } else {
        picked(pool.drop_last(), mask.drop_last()) + if mask.last() {
            seq![pool.last()]
        } else {
            seq![]
        }
    }
}

/// Some of the header flags, in pool order.
pub open spec fn header_subset(hs: Seq<Seq<char>>) -> bool {
    exists|m: Seq<bool>| m.len() == 4 && hs == picked(header_pool(), m)
}

/// Each flag of the pool is switched on with probability 3/10.
fn random_headers(rng: &mut ThreadRng) -> (r: Vec<String>)
    ensures
        header_subset(crate::tree::string_views(r@)),
{
    let mut out: Vec<String> = Vec::new();
    let ghost mut mask: Seq<bool> = seq![];
    let mut i: usize = 0;
    assert(header_pool().take(0) =~= Seq::<Seq<char>>::empty());
    while i < 4
        invariant
            i <= 4,
            mask.len() == i,
            crate::tree::string_views(out@) == picked(header_pool().take(i as int), mask),
        decreases 4 - i,
    {
        let keep = rng_ratio(rng, 30, 100);
        let ghost before = crate::tree::string_views(out@);
        if keep {
            out.push(pool_header(i).to_owned());
        }
        proof {
            let pool1 = header_pool().take(i + 1);
            let m1 = mask.push(keep);
            assert(pool1.drop_last() =~= header_pool().take(i as int));
            assert(m1.drop_last() =~= mask);
            if keep {
                assert(crate::tree::string_views(out@) =~= before.push(header_pool()[i as int]));
            } else {
                assert(crate::tree::string_views(out@) =~= before);
            }
            assert(crate::tree::string_views(out@) =~= picked(pool1, m1));
            mask = m1;
        }
        i = i + 1;
    }
    assert(header_pool().take(4) =~= header_pool());
    out
}

fn random_rct(rng: &mut ThreadRng) -> (r: u32)
    ensures
        rct_pool().contains(r),
{
    let i = rng_index(rng, 8);
    let r = pool_rct(i);
    assert(rct_pool()[i as int] == r);
    r
}

/// The canvas sizes of the small "pixel art" programs.
pub open spec fn pixel_dims() -> Seq<u32> {
    seq![64u32, 96, 128, 256]
}

/// The upscale factor of a pixel-art canvas: the native decode size stays
/// at most 1024, and the factor at most 8.
pub open spec fn upsample_for(dim: u32) -> u32 {
    if 1024u32 / dim < 8u32 {
        1024u32 / dim
    } else {
        8u32
    }
}

/// `"Upsample <f>"`.
pub open spec fn upsample_line(f: u32) -> Seq<char> {
    "Upsample "@ + dec_int(f as int)
}

fn upsample_header(f: u32) -> (r: String)
    ensures
        r@ == upsample_line(f),
{
    let mut out: Vec<char> = Vec::new();
    push_str(&mut out, "Upsample ");
    push_u64(&mut out, f as u64);
    assert(out@ =~= upsample_line(f));
    chars_to_string(&out)
}

/// What `random_program` may return, before pruning, for a complexity and
/// the canvas size asked for (`None`: the generator picks it).
pub open spec fn random_program_ok(p: ProgramV, cx: Complexity, dims: Option<(u32, u32)>) -> bool {
    let probs = branch_probs_of(cx);
    &&& p.channels == 3
    &&& p.splines.len() == 0
    &&& p.frames.len() == 0
    &&& p.orientation matches Some(o) && 1 <= o <= 8
    &&& p.rct matches Some(x) && rct_pool().contains(x)
    &&& p.root matches NodeV::If(c, t, f) && c.var == VarV::C && (c.threshold == 0
        || c.threshold == 1) && random_tree_ok(*t, 1, probs) && random_tree_ok(*f, 1, probs)
    &&& match dims {
        Some((w, h)) => p.width == w && p.height == h && p.bitdepth == 8 && header_subset(
            p.headers,
        ),
        None => {
            ||| p.width == 1024 && p.height == 1024 && p.bitdepth == 8 && header_subset(p.headers)
            ||| pixel_dims().contains(p.width) && p.height == p.width && 4 <= p.bitdepth <= 6
                && p.headers.len() >= 1 && header_subset(p.headers.drop_last())
                && p.headers.last() == upsample_line(upsample_for(p.width))
        },
    }
}

/// A random program. The root always splits on the channel `c`, so that
/// the colour transform sees varied channels. `dims` fixes the canvas's
/// width and height; without it the canvas is 1024 × 1024, except that
/// about one program in seven is a small upscaled pixel-art canvas with a
/// low bit depth. Its tree's dead conditions are pruned.
pub fn random_program(complexity: Complexity, dims: Option<(u32, u32)>) -> (r: ImageProgram)
    ensures
        generated_ok(r@, complexity, dims),
{
    let mut r = random_program_raw(complexity, dims);
    let ghost q = r@;
    let raw = replace_node(&mut r.root, Node::Predict(Predictor::SetValue(0)));
    r.root = simplify_degenerate(raw);
    assert(r@ == pruned(q));
    r
}

/// A generated program: one that `random_program_ok` describes, with the
/// dead conditions of its tree pruned.
pub open spec fn generated_ok(p: ProgramV, cx: Complexity, dims: Option<(u32, u32)>) -> bool {
    exists|q: ProgramV| #[trigger] random_program_ok(q, cx, dims) && p == pruned(q)
}

/// A random program before its dead conditions are pruned.
fn random_program_raw(complexity: Complexity, dims: Option<(u32, u32)>) -> (r: ImageProgram)
    ensures
        random_program_ok(r@, complexity, dims),
{
    let mut rng = new_rng();
    let probs = complexity.branch_probs();
    let c_threshold: i64 = if rng_ratio(&mut rng, 1, 2) {
        0
    } else {
        1
    };
    let t = random_node(&mut rng, 1, &probs);
    let f = random_node(&mut rng, 1, &probs);
    let root = Node::If {
        condition: Condition { var: Var::C, op: Op::Gt, threshold: c_threshold },
        on_true: Box::new(t),
        on_false: Box::new(f),
    };
    let mut extra_headers = random_headers(&mut rng);
    let ghost hs0 = crate::tree::string_views(extra_headers@);
    let mut width: u32 = 1024;
    let mut height: u32 = 1024;
    let mut bitdepth: u32 = 8;
    if let Some((w, h)) = dims {
        width = w;
        height = h;
    } else if rng_ratio(&mut rng, 15, 100) {
        let k = rng_index(&mut rng, 4);
        let dim: u32 = if k == 0 {
            64
        } else if k == 1 {
            96
        } else if k == 2 {
            128
        } else {
            256
        };
        assert(pixel_dims()[k as int] == dim);
        let factor: u32 = if 1024 / dim < 8 {
            1024 / dim
        } else {
            8
        };
        extra_headers.push(upsample_header(factor));
        assert(crate::tree::string_views(extra_headers@).drop_last() =~= hs0);
        width = dim;
        height = dim;
        bitdepth = rng_between(&mut rng, 4, 6) as u32;
    }
    let orientation = rng_between(&mut rng, 1, 8) as u32;
    let rct = random_rct(&mut rng);
    ImageProgram {
        width,
        height,
        bitdepth,
        channels: 3,
        orientation: Some(orientation),
        rct: Some(rct),
        extra_headers,
        splines: Vec::new(),
        root,
        extra_frames: Vec::new(),
    }
}


// ── Relative deltas ───────────────────────────────────────────────────────────

pub open spec fn abs_of(v: i64) -> int {
    if v < 0 {
        -(v as int)
    } else {
        v as int
    }
}

/// The sum of the magnitudes.
pub open spec fn sum_abs(s: Seq<i64>) -> int
    decreases s.len(),
{
    if s.len() == 0 {
        0
    } else {
        sum_abs(s.drop_last()) + abs_of(s.last())
    }
}

/// How many values are not zero.
pub open spec fn count_nonzero(s: Seq<i64>) -> int
    decreases s.len(),
{
    if s.len() == 0 {
        0
    } else {
        count_nonzero(s.drop_last()) + if s.last() != 0 {
            1int
        } else {
            0
        }
    }
}

/// A magnitude of at least one that fits an `i64`.
pub open spec fn clamp_magnitude(m: int) -> int {
    if m < 1 {
        1
    } else if m > i64::MAX {
        i64::MAX as int
    } else {
        m
    }
}

/// `m` with the sign of `percent` (zero counts as positive).
pub open spec fn signed_by(m: int, percent: i64) -> i64 {
    (if percent >= 0 {
        m
    } else {
        -m
    }) as i64
}

/// What a relative change starts from: the magnitude of `current`, or,
/// when that is zero, the mean magnitude (rounded down) of the non-zero
/// values, or 10 when there are none.
pub open spec fn delta_base(current: i64, all: Seq<i64>) -> int {
    if current != 0 {
        abs_of(current)
    } else if count_nonzero(all) == 0 {
        10
    } else {
        sum_abs(all) / count_nonzero(all)
    }
}

/// `percent` per cent of the base, rounded half up, at least 1, with the
/// sign of `percent`.
pub open spec fn relative_delta_spec(current: i64, all: Seq<i64>, percent: i64) -> i64 {
    signed_by(clamp_magnitude((delta_base(current, all) * abs_of(percent) + 50) / 100), percent)
}

/// `percent` per cent of the mean offset magnitude (taken as at least 1),
/// rounded half up, at least 1, with the sign of `percent`.
pub open spec fn offsets_delta_spec(offs: Seq<i64>, percent: i64) -> i64 {
    let s = sum_abs(offs);
    let l = offs.len() as int;
    let p = abs_of(percent);
    let raw = if s < l {
        (p + 50) / 100
    } else {
        (2 * s * p + 100 * l) / (200 * l)
    };
    signed_by(clamp_magnitude(raw), percent)
}

fn abs_u128(v: i64) -> (r: u128)
    ensures
        r == abs_of(v),
        r <= 0x8000_0000_0000_0000,
{
    if v < 0 {
        (0i128 - v as i128) as u128
    } else {
        v as u128
    }
}

/// The sum of the magnitudes and the number of non-zero values.
fn magnitudes(v: &Vec<i64>) -> (r: (u128, usize))
    ensures
        r.0 == sum_abs(v@),
        r.1 == count_nonzero(v@),
        r.0 <= r.1 * 0x8000_0000_0000_0000,
        r.1 <= v@.len(),
{
    let mut s: u128 = 0;
    let mut c: usize = 0;
    let mut i: usize = 0;
    while i < v.len()
        invariant
            i <= v@.len(),
            s == sum_abs(v@.take(i as int)),
            c == count_nonzero(v@.take(i as int)),
            s <= c * 0x8000_0000_0000_0000,
            c <= i,
        decreases v@.len() - i,
    {
        let x = v[i];
        assert(v@.take(i + 1).drop_last() =~= v@.take(i as int));
        let a = abs_u128(x);
        s = s + a;
        if x != 0 {
            c = c + 1;
        }
        i = i + 1;
    }
    assert(v@.take(v@.len() as int) =~= v@);
    (s, c)
}

fn finish_delta(raw: u128, percent: i64) -> (r: i64)
    ensures
        r == signed_by(clamp_magnitude(raw as int), percent),
{
    let m: i64 = if raw < 1 {
        1
    } else if raw > i64::MAX as u128 {
        i64::MAX
    } else {
        raw as i64
    };
    if percent >= 0 {
        m
    } else {
        -m
    }
}

/// A delta of `percent` per cent of `current`'s magnitude, falling back to
/// the mean magnitude of the non-zero `all` when `current` is zero; never
/// zero.
pub fn relative_delta(current: i64, all: &Vec<i64>, percent: i64) -> (r: i64)
    ensures
        r == relative_delta_spec(current, all@, percent),
        percent >= 0 ==> r >= 1,
        percent < 0 ==> r <= -1,
{
    let base: u128 = if current != 0 {
        abs_u128(current)
    } else {
        let (s, c) = magnitudes(all);
        if c == 0 {
            10
        } else {
            let cc = c as u128;
            assert(s / cc <= 0x8000_0000_0000_0000) by (nonlinear_arith)
                requires
                    s <= cc * 0x8000_0000_0000_0000,
                    cc > 0,
            ;
            s / cc
        }
    };
    let p = abs_u128(percent);
    assert(base * p <= 0x8000_0000_0000_0000 * 0x8000_0000_0000_0000) by (nonlinear_arith)
        requires
            base <= 0x8000_0000_0000_0000,
            p <= 0x8000_0000_0000_0000,
    ;
    finish_delta((base * p + 50) / 100, percent)
}

/// `round(s * p / (100 * l))`, halves up, from the parts the executable
/// computation works with.
proof fn lemma_round_split(s: int, p: int, l: int)
    requires
        s >= 0,
        p >= 0,
        l > 0,
    ensures
        ({
            let q = s / l;
            let rem = s % l;
            let a = q * p;
            let d = 100 * l;
            let y = (a % 100) * l + rem * p;
            (2 * s * p + d) / (2 * d) == a / 100 + y / d + if 2 * (y % d) >= d {
                1int
            } else {
                0
            }
        }),
{
    let q = s / l;
    let rem = s % l;
    let a = q * p;
    let a1 = a / 100;
    let a0 = a % 100;
    let d = 100 * l;
    let y = a0 * l + rem * p;
    let qy = y / d;
    let ry = y % d;
    vstd::arithmetic::div_mod::lemma_fundamental_div_mod(s, l);
    vstd::arithmetic::div_mod::lemma_fundamental_div_mod(a, 100);
    vstd::arithmetic::div_mod::lemma_fundamental_div_mod(y, d);
    assert(0 <= rem < l) by {
        vstd::arithmetic::div_mod::lemma_mod_bound(s, l);
    }
    assert(0 <= a0 < 100);
    assert(q >= 0) by (nonlinear_arith)
        requires
            s >= 0,
            l > 0,
            q == s / l,
    ;
    assert(a >= 0) by (nonlinear_arith)
        requires
            q >= 0,
            p >= 0,
            a == q * p,
    ;
    assert(y >= 0) by (nonlinear_arith)
        requires
            a0 >= 0,
            l > 0,
            rem >= 0,
            p >= 0,
            y == a0 * l + rem * p,
    ;
    assert(0 <= ry < d) by {
        vstd::arithmetic::div_mod::lemma_mod_bound(y, d);
    }
    assert(s * p == l * a + rem * p) by (nonlinear_arith)
        requires
            s == l * q + rem,
            a == q * p,
    ;
    assert(l * a == d * a1 + a0 * l) by (nonlinear_arith)
        requires
            a == 100 * a1 + a0,
            d == 100 * l,
    ;
    assert((a1 + qy) * (2 * d) == 2 * (d * a1) + 2 * (d * qy)) by (nonlinear_arith);
    assert(2 * s * p == 2 * (s * p)) by (nonlinear_arith);
    assert(y == d * qy + ry);
    assert(2 * s * p + d == (a1 + qy) * (2 * d) + 2 * ry + d);
    if 2 * ry >= d {
        assert(2 * s * p + d == (a1 + qy + 1) * (2 * d) + (2 * ry - d)) by (nonlinear_arith)
            requires
                2 * s * p + d == (a1 + qy) * (2 * d) + 2 * ry + d,
        ;
        lemma_fundamental_div_mod_converse(2 * s * p + d, 2 * d, a1 + qy + 1, 2 * ry - d);
    } else {
        lemma_fundamental_div_mod_converse(2 * s * p + d, 2 * d, a1 + qy, 2 * ry + d);
    }
}

/// The shift `TweakAllOffsets` applies to every offset.
fn offsets_delta(offs: &Vec<i64>, percent: i64) -> (r: i64)
    requires
        offs@.len() > 0,
    ensures
        r == offsets_delta_spec(offs@, percent),
{
    let (s, _) = magnitudes(offs);
    let l = offs.len() as u128;
    let p = abs_u128(percent);
    if s < l {
        return finish_delta((p + 50) / 100, percent);
    }
    let q = s / l;
    let rem = s % l;
    assert(q <= 0x8000_0000_0000_0000) by (nonlinear_arith)
        requires
            s <= l * 0x8000_0000_0000_0000,
            l > 0,
            q == s / l,
    ;
    assert(q * p <= 0x8000_0000_0000_0000 * 0x8000_0000_0000_0000) by (nonlinear_arith)
        requires
            q <= 0x8000_0000_0000_0000,
            p <= 0x8000_0000_0000_0000,
    ;
    let a = q * p;
    let a1 = a / 100;
    let a0 = a % 100;
    let d = 100 * l;
    assert(a0 * l + rem * p <= 100 * 0x1_0000_0000_0000_0000 + 0x1_0000_0000_0000_0000
        * 0x8000_0000_0000_0000) by (nonlinear_arith)
        requires
            a0 < 100,
            l <= 0x1_0000_0000_0000_0000,
            rem < l,
            p <= 0x8000_0000_0000_0000,
    ;
    let y = a0 * l + rem * p;
    let bump: u128 = if 2 * (y % d) >= d {
        1
    } else {
        0
    };
    assert(a1 + y / d + bump <= 0x1_0000_0000_0000_0000_0000_0000_0000_0000) by (nonlinear_arith)
        requires
            a1 <= 0x8000_0000_0000_0000 * 0x8000_0000_0000_0000,
            y <= 100 * 0x1_0000_0000_0000_0000 + 0x1_0000_0000_0000_0000 * 0x8000_0000_0000_0000,
            d > 0,
            bump <= 1,
    ;
    proof {
        lemma_round_split(s as int, p as int, l as int);
    }
    finish_delta(a1 + y / d + bump, percent)
}


// ── Mutations ─────────────────────────────────────────────────────────────────

/// One structured change to a program, or a chain of them applied in turn.
/// Scales are whole percentages.
#[derive(Debug)]
pub enum Mutation {
    /// Nudge a randomly chosen condition's threshold by `percent` per cent
    /// of its magnitude.
    TweakThreshold { percent: i64 },
    /// Negate a randomly chosen condition's threshold.
    NegateThreshold,
    /// Give a randomly chosen condition a random variable and a threshold
    /// suited to it.
    SwapConditionVar,
    /// Exchange `on_true` and `on_false` of a randomly chosen `If`.
    SwapBranches,
    /// Nudge a randomly chosen `Set` leaf's value by `percent` per cent.
    TweakSetValue { percent: i64 },
    /// Replace a randomly chosen leaf with a random predictor.
    SwapPredictor,
    /// Shift every neighbour-predictor offset by `percent` per cent of the
    /// mean offset magnitude.
    TweakAllOffsets { percent: i64 },
    /// Wrap the tree in a new random `If` (the old tree on its false side).
    AddBranch,
    /// Replace the root with its `on_false` child.
    RemoveBranch,
    /// Replace the root with its `on_true` child.
    PromoteTrueBranch,
    /// Replace any `If` of the tree with its `on_false` child.
    RemoveBranchAt,
    /// Replace any `If` of the tree with its `on_true` child.
    PromoteTrueAt,
    /// Exchange two subtrees neither of which contains the other; a tree
    /// with no such pair (or no luck in finding one) is left alone.
    SwapSubtrees,
    /// Split a random leaf into a new `If` over the old leaf and a new one.
    InsertIfAtLeaf,
    /// Replace a random subtree with a freshly generated one.
    ReplaceSubtreeRandom,
    /// Switch to a different RCT preset.
    CycleRct,
    /// Flip one header flag of the pool.
    ToggleHeader,
    /// Add or cycle the `Upsample` factor: none, 2, 4, 2, 4, …
    CycleUpsample,
    /// Replace a random leaf with an exotic predictor.
    SwapPredictorExotic,
    /// Apply several mutations in sequence.
    Chain(Vec<Mutation>),
}

/// `format!("{:+}", n)`.
pub open spec fn signed_text(n: i64) -> Seq<char> {
    if n >= 0 {
        "+"@ + dec_int(n as int)
    } else {
        dec_int(n as int)
    }
}

/// The label a mutation shows on its card.
pub open spec fn mutation_label(m: Mutation) -> Seq<char>
    decreases m,
{
    match m {
        Mutation::TweakThreshold { percent } => "Threshold "@ + signed_text(percent) + "%"@,
        Mutation::NegateThreshold => "Negate threshold"@,
        Mutation::SwapConditionVar => "Swap cond var"@,
        Mutation::SwapBranches => "Swap branches"@,
        Mutation::TweakSetValue { percent } => "Set value "@ + signed_text(percent) + "%"@,
        Mutation::SwapPredictor => "Swap predictor"@,
        Mutation::TweakAllOffsets { percent } => "All offsets "@ + signed_text(percent) + "%"@,
        Mutation::AddBranch => "Add branch"@,
        Mutation::RemoveBranch => "Remove branch"@,
        Mutation::PromoteTrueBranch => "Promote true branch"@,
        Mutation::RemoveBranchAt => "Remove branch (deep)"@,
        Mutation::PromoteTrueAt => "Promote true branch (deep)"@,
        Mutation::SwapSubtrees => "Swap subtrees"@,
        Mutation::InsertIfAtLeaf => "Insert if at leaf"@,
        Mutation::ReplaceSubtreeRandom => "Replace subtree"@,
        Mutation::CycleRct => "Cycle RCT"@,
        Mutation::ToggleHeader => "Toggle header"@,
        Mutation::SwapPredictorExotic => "Swap predictor (exotic)"@,
        Mutation::CycleUpsample => "Cycle upsample"@,
        Mutation::Chain(ms) => chain_label(ms@),
    }
}

/// The labels of a chain's steps joined by `" → "`.
pub open spec fn chain_label(ms: Seq<Mutation>) -> Seq<char>
    decreases ms,
{
    if ms.len() == 0 {
        seq![]
    } else if ms.len() == 1 {
        mutation_label(ms[0])
    } else {
        chain_label(ms.subrange(0, ms.len() - 1)) + " → "@ + mutation_label(ms[ms.len() - 1])
    }
}

fn push_signed(out: &mut Vec<char>, n: i64)
    ensures
        final(out)@ == old(out)@ + signed_text(n),
{
    if n >= 0 {
        push_str(out, "+");
    }
    push_i64(out, n);
    assert(final(out)@ =~= old(out)@ + signed_text(n));
}

impl Mutation {
    pub fn is_compound(&self) -> (r: bool)
        ensures
            r == (*self is Chain),
    {
        match self {
            Mutation::Chain(_) => true,
            _ => false,
        }
    }

    pub fn label(&self) -> (r: String)
        ensures
            r@ == mutation_label(*self),
        decreases self,
    {
        let mut out: Vec<char> = Vec::new();
        match self {
            Mutation::TweakThreshold { percent } => {
                push_str(&mut out, "Threshold ");
                push_signed(&mut out, *percent);
                push_str(&mut out, "%");
            },
            Mutation::NegateThreshold => push_str(&mut out, "Negate threshold"),
            Mutation::SwapConditionVar => push_str(&mut out, "Swap cond var"),
            Mutation::SwapBranches => push_str(&mut out, "Swap branches"),
            Mutation::TweakSetValue { percent } => {
                push_str(&mut out, "Set value ");
                push_signed(&mut out, *percent);
                push_str(&mut out, "%");
            },
            Mutation::SwapPredictor => push_str(&mut out, "Swap predictor"),
            Mutation::TweakAllOffsets { percent } => {
                push_str(&mut out, "All offsets ");
                push_signed(&mut out, *percent);
                push_str(&mut out, "%");
            },
            Mutation::AddBranch => push_str(&mut out, "Add branch"),
            Mutation::RemoveBranch => push_str(&mut out, "Remove branch"),
            Mutation::PromoteTrueBranch => push_str(&mut out, "Promote true branch"),
            Mutation::RemoveBranchAt => push_str(&mut out, "Remove branch (deep)"),
            Mutation::PromoteTrueAt => push_str(&mut out, "Promote true branch (deep)"),
            Mutation::SwapSubtrees => push_str(&mut out, "Swap subtrees"),
            Mutation::InsertIfAtLeaf => push_str(&mut out, "Insert if at leaf"),
            Mutation::ReplaceSubtreeRandom => push_str(&mut out, "Replace subtree"),
            Mutation::CycleRct => push_str(&mut out, "Cycle RCT"),
            Mutation::ToggleHeader => push_str(&mut out, "Toggle header"),
            Mutation::SwapPredictorExotic => push_str(&mut out, "Swap predictor (exotic)"),
            Mutation::CycleUpsample => push_str(&mut out, "Cycle upsample"),
            Mutation::Chain(ms) => {
                let mut i: usize = 0;
                while i < ms.len()
                    invariant
                        i <= ms@.len(),
                        out@ == chain_label(ms@.subrange(0, i as int)),
                        *self == Mutation::Chain(*ms),
                    decreases ms@.len() - i,
                {
                    if i > 0 {
                        push_str(&mut out, " → ");
                    }
                    proof {
                        let v: Vec<Mutation> = *ms;
                        assert(decreases_to!(*self => (*self)->Chain_0));
                        assert(decreases_to!(v => v@));
                        assert(decreases_to!(v@ => v@[i as int]));
                        assert(decreases_to!(*self => ms@[i as int]));
                    }
                    let l = ms[i].label();
                    push_str(&mut out, l.as_str());
                    proof {
                        let sub = ms@.subrange(0, i + 1);
                        assert(sub.subrange(0, i as int) =~= ms@.subrange(0, i as int));
                        assert(sub[i as int] == ms@[i as int]);
                    }
                    i = i + 1;
                }
                assert(ms@.subrange(0, ms@.len() as int) =~= ms@);
            },
        }
        chars_to_string(&out)
    }
}


// ── Lists of mutations ────────────────────────────────────────────────────────

/// The steps a mutation applies: a chain's steps, or the mutation itself.
pub open spec fn steps_of(m: Mutation) -> Seq<Mutation> {
    match m {
        Mutation::Chain(ms) => ms@,
        _ => seq![m],
    }
}

/// The curated set shown for every program: the single mutations first,
/// then a few compounds.
pub open spec fn showcase_list() -> Seq<Seq<Mutation>> {
    seq![
        seq![Mutation::TweakThreshold { percent: 15i64 }],
        seq![Mutation::TweakThreshold { percent: -15i64 }],
        seq![Mutation::TweakThreshold { percent: 40i64 }],
        seq![Mutation::TweakThreshold { percent: -40i64 }],
        seq![Mutation::NegateThreshold],
        seq![Mutation::SwapBranches],
        seq![Mutation::SwapConditionVar],
        seq![Mutation::AddBranch],
        seq![Mutation::RemoveBranch],
        seq![Mutation::PromoteTrueBranch],
        seq![Mutation::RemoveBranchAt],
        seq![Mutation::PromoteTrueAt],
        seq![Mutation::SwapSubtrees],
        seq![Mutation::InsertIfAtLeaf],
        seq![Mutation::ReplaceSubtreeRandom],
        seq![Mutation::TweakSetValue { percent: 20i64 }],
        seq![Mutation::TweakSetValue { percent: -20i64 }],
        seq![Mutation::TweakAllOffsets { percent: 25i64 }],
        seq![Mutation::TweakAllOffsets { percent: -25i64 }],
        seq![Mutation::SwapPredictor],
        seq![Mutation::SwapPredictorExotic],
        seq![Mutation::CycleRct],
        seq![Mutation::ToggleHeader],
        seq![Mutation::CycleUpsample],
        seq![Mutation::TweakThreshold { percent: 20i64 }, Mutation::SwapPredictor],
        seq![Mutation::SwapBranches, Mutation::TweakThreshold { percent: -30i64 }],
        seq![Mutation::SwapConditionVar, Mutation::NegateThreshold],
        seq![Mutation::AddBranch, Mutation::TweakAllOffsets { percent: 25i64 }],
        seq![
            Mutation::AddBranch,
            Mutation::SwapConditionVar,
            Mutation::TweakThreshold { percent: 20i64 },
        ],
        seq![Mutation::SwapConditionVar, Mutation::NegateThreshold, Mutation::SwapPredictor],
        seq![
            Mutation::TweakThreshold { percent: 30i64 },
            Mutation::SwapBranches,
            Mutation::TweakAllOffsets { percent: -20i64 },
        ],
        seq![Mutation::CycleRct, Mutation::SwapPredictorExotic],
        seq![Mutation::ToggleHeader, Mutation::TweakAllOffsets { percent: 30i64 }],
    ]
}

fn chain2(a: Mutation, b: Mutation) -> (r: Mutation)
    ensures
        r is Chain,
        steps_of(r) == seq![a, b],
{
    let mut v: Vec<Mutation> = Vec::new();
    v.push(a);
    v.push(b);
    assert(v@ =~= seq![a, b]);
    Mutation::Chain(v)
}

fn chain3(a: Mutation, b: Mutation, c: Mutation) -> (r: Mutation)
    ensures
        r is Chain,
        steps_of(r) == seq![a, b, c],
{
    let mut v: Vec<Mutation> = Vec::new();
    v.push(a);
    v.push(b);
    v.push(c);
    assert(v@ =~= seq![a, b, c]);
    Mutation::Chain(v)
}

impl Mutation {
    /// The showcase: entry `i` applies the steps `showcase_list()[i]`; the
    /// last nine are chains.
    pub fn showcase() -> (r: Vec<Mutation>)
        ensures
            r@.len() == showcase_list().len(),
            forall|i: int|
                0 <= i < r@.len() ==> (#[trigger] r@[i] is Chain) == (i >= 24) && steps_of(r@[i])
                    == showcase_list()[i],
    {
        let mut v: Vec<Mutation> = Vec::new();
        v.push(Mutation::TweakThreshold { percent: 15 });
        v.push(Mutation::TweakThreshold { percent: -15 });
        v.push(Mutation::TweakThreshold { percent: 40 });
        v.push(Mutation::TweakThreshold { percent: -40 });
        v.push(Mutation::NegateThreshold);
        v.push(Mutation::SwapBranches);
        v.push(Mutation::SwapConditionVar);
        v.push(Mutation::AddBranch);
        v.push(Mutation::RemoveBranch);
        v.push(Mutation::PromoteTrueBranch);
        v.push(Mutation::RemoveBranchAt);
        v.push(Mutation::PromoteTrueAt);
        v.push(Mutation::SwapSubtrees);
        v.push(Mutation::InsertIfAtLeaf);
        v.push(Mutation::ReplaceSubtreeRandom);
        v.push(Mutation::TweakSetValue { percent: 20 });
        v.push(Mutation::TweakSetValue { percent: -20 });
        v.push(Mutation::TweakAllOffsets { percent: 25 });
        v.push(Mutation::TweakAllOffsets { percent: -25 });
        v.push(Mutation::SwapPredictor);
        v.push(Mutation::SwapPredictorExotic);
        v.push(Mutation::CycleRct);
        v.push(Mutation::ToggleHeader);
        v.push(Mutation::CycleUpsample);
        v.push(chain2(Mutation::TweakThreshold { percent: 20 }, Mutation::SwapPredictor));
        v.push(chain2(Mutation::SwapBranches, Mutation::TweakThreshold { percent: -30 }));
        v.push(chain2(Mutation::SwapConditionVar, Mutation::NegateThreshold));
        v.push(chain2(Mutation::AddBranch, Mutation::TweakAllOffsets { percent: 25 }));
        v.push(
            chain3(
                Mutation::AddBranch,
                Mutation::SwapConditionVar,
                Mutation::TweakThreshold { percent: 20 },
            ),
        );
        v.push(
            chain3(Mutation::SwapConditionVar, Mutation::NegateThreshold, Mutation::SwapPredictor),
        );
        v.push(
            chain3(
                Mutation::TweakThreshold { percent: 30 },
                Mutation::SwapBranches,
                Mutation::TweakAllOffsets { percent: -20 },
            ),
        );
        v.push(chain2(Mutation::CycleRct, Mutation::SwapPredictorExotic));
        v.push(chain2(Mutation::ToggleHeader, Mutation::TweakAllOffsets { percent: 30 }));
        v
    }
}

/// Where a single mutation stands among the showcase's single cards (-1 for
/// none).
spec fn single_card_slot(m: Mutation) -> int {
    match m {
        Mutation::TweakThreshold { percent } => if percent == 15 {
            0
        } else if percent == -15 {
            1
        } else if percent == 40 {
            2
        } else if percent == -40 {
            3
        } else {
            -1
        },
        Mutation::NegateThreshold => 4,
        Mutation::SwapBranches => 5,
        Mutation::SwapConditionVar => 6,
        Mutation::AddBranch => 7,
        Mutation::RemoveBranch => 8,
        Mutation::PromoteTrueBranch => 9,
        Mutation::RemoveBranchAt => 10,
        Mutation::PromoteTrueAt => 11,
        Mutation::SwapSubtrees => 12,
        Mutation::InsertIfAtLeaf => 13,
        Mutation::ReplaceSubtreeRandom => 14,
        Mutation::TweakSetValue { percent } => if percent == 20 {
            15
        } else if percent == -20 {
            16
        } else {
            -1
        },
        Mutation::TweakAllOffsets { percent } => if percent == 25 {
            17
        } else if percent == -25 {
            18
        } else {
            -1
        },
        Mutation::SwapPredictor => 19,
        Mutation::SwapPredictorExotic => 20,
        Mutation::CycleRct => 21,
        Mutation::ToggleHeader => 22,
        Mutation::CycleUpsample => 23,
        _ => -1,
    }
}

/// The showcase's first 24 cards are single mutations, no two of them
/// alike; each tweak card comes with the card that tweaks by the opposite
/// percentage right after it (thresholds by 15 % and by 40 %, `Set` values
/// by 20 %, all offsets by 25 %), and each of the last nine cards has two
/// steps or more.
pub proof fn showcase_cards_distinct_and_paired()
    ensures
        showcase_list().len() == 33,
        forall|i: int| 0 <= i < 24 ==> (#[trigger] showcase_list()[i]).len() == 1,
        forall|i: int| 24 <= i < 33 ==> (#[trigger] showcase_list()[i]).len() >= 2,
        forall|i: int, j: int|
            0 <= i < 24 && 0 <= j < 24 && i != j ==> #[trigger] showcase_list()[i][0]
                != #[trigger] showcase_list()[j][0],
        showcase_list()[0][0] == (Mutation::TweakThreshold { percent: 15i64 }),
        showcase_list()[1][0] == (Mutation::TweakThreshold { percent: -15i64 }),
        showcase_list()[2][0] == (Mutation::TweakThreshold { percent: 40i64 }),
        showcase_list()[3][0] == (Mutation::TweakThreshold { percent: -40i64 }),
        showcase_list()[15][0] == (Mutation::TweakSetValue { percent: 20i64 }),
        showcase_list()[16][0] == (Mutation::TweakSetValue { percent: -20i64 }),
        showcase_list()[17][0] == (Mutation::TweakAllOffsets { percent: 25i64 }),
        showcase_list()[18][0] == (Mutation::TweakAllOffsets { percent: -25i64 }),
{
    let s = showcase_list();
    assert forall|i: int| 0 <= i < 24 implies (#[trigger] s[i]).len() == 1 && single_card_slot(s[i][0])
        == i by {
        if i == 0 {
            assert(s[0].len() == 1 && single_card_slot(s[0][0]) == 0);
        } else if i == 1 {
            assert(s[1].len() == 1 && single_card_slot(s[1][0]) == 1);
        } else if i == 2 {
            assert(s[2].len() == 1 && single_card_slot(s[2][0]) == 2);
        } else if i == 3 {
            assert(s[3].len() == 1 && single_card_slot(s[3][0]) == 3);
        } else if i == 4 {
            assert(s[4].len() == 1 && single_card_slot(s[4][0]) == 4);
        } else if i == 5 {
            assert(s[5].len() == 1 && single_card_slot(s[5][0]) == 5);
        } else if i == 6 {
            assert(s[6].len() == 1 && single_card_slot(s[6][0]) == 6);
        } else if i == 7 {
            assert(s[7].len() == 1 && single_card_slot(s[7][0]) == 7);
        } else if i == 8 {
            assert(s[8].len() == 1 && single_card_slot(s[8][0]) == 8);
        } else if i == 9 {
            assert(s[9].len() == 1 && single_card_slot(s[9][0]) == 9);
        } else if i == 10 {
            assert(s[10].len() == 1 && single_card_slot(s[10][0]) == 10);
        } else if i == 11 {
            assert(s[11].len() == 1 && single_card_slot(s[11][0]) == 11);
        } else if i == 12 {
            assert(s[12].len() == 1 && single_card_slot(s[12][0]) == 12);
        } else if i == 13 {
            assert(s[13].len() == 1 && single_card_slot(s[13][0]) == 13);
        } else if i == 14 {
            assert(s[14].len() == 1 && single_card_slot(s[14][0]) == 14);
        } else if i == 15 {
            assert(s[15].len() == 1 && single_card_slot(s[15][0]) == 15);
        } else if i == 16 {
            assert(s[16].len() == 1 && single_card_slot(s[16][0]) == 16);
        } else if i == 17 {
            assert(s[17].len() == 1 && single_card_slot(s[17][0]) == 17);
        } else if i == 18 {
            assert(s[18].len() == 1 && single_card_slot(s[18][0]) == 18);
        } else if i == 19 {
            assert(s[19].len() == 1 && single_card_slot(s[19][0]) == 19);
        } else if i == 20 {
            assert(s[20].len() == 1 && single_card_slot(s[20][0]) == 20);
        } else if i == 21 {
            assert(s[21].len() == 1 && single_card_slot(s[21][0]) == 21);
        } else if i == 22 {
            assert(s[22].len() == 1 && single_card_slot(s[22][0]) == 22);
        } else if i == 23 {
            assert(s[23].len() == 1 && single_card_slot(s[23][0]) == 23);
        }
    }
    assert forall|i: int| 24 <= i < 33 implies (#[trigger] s[i]).len() >= 2 by {
        if i == 24 {
            assert(s[24].len() >= 2);
        } else if i == 25 {
            assert(s[25].len() >= 2);
        } else if i == 26 {
            assert(s[26].len() >= 2);
        } else if i == 27 {
            assert(s[27].len() >= 2);
        } else if i == 28 {
            assert(s[28].len() >= 2);
        } else if i == 29 {
            assert(s[29].len() >= 2);
        } else if i == 30 {
            assert(s[30].len() >= 2);
        } else if i == 31 {
            assert(s[31].len() >= 2);
        } else if i == 32 {
            assert(s[32].len() >= 2);
        }
    }
    assert forall|i: int, j: int|
        0 <= i < 24 && 0 <= j < 24 && i != j implies #[trigger] s[i][0] != #[trigger] s[j][0] by {
        assert(single_card_slot(s[i][0]) == i);
        assert(single_card_slot(s[j][0]) == j);
    }
}

/// A single mutation `random_simple_mutation` may draw: any kind but the
/// root-only ones and chains, with a scale of 10 to 50 per cent either way.
pub open spec fn random_simple_ok(m: Mutation) -> bool {
    match m {
        Mutation::TweakThreshold { percent } => 10 <= abs_of(percent) <= 50,
        Mutation::TweakSetValue { percent } => 10 <= abs_of(percent) <= 50,
        Mutation::TweakAllOffsets { percent } => 10 <= abs_of(percent) <= 50,
        Mutation::AddBranch => false,
        Mutation::RemoveBranch => false,
        Mutation::PromoteTrueBranch => false,
        Mutation::Chain(_) => false,
        _ => true,
    }
}

fn random_simple_mutation(rng: &mut ThreadRng) -> (r: Mutation)
    ensures
        random_simple_ok(r),
{
    let mag = rng_between(rng, 10, 50);
    let percent = if rng_ratio(rng, 1, 2) {
        mag
    } else {
        -mag
    };
    match rng_index(rng, 16) {
        0 => Mutation::TweakThreshold { percent },
        1 => Mutation::NegateThreshold,
        2 => Mutation::SwapConditionVar,
        3 => Mutation::SwapBranches,
        4 => Mutation::TweakSetValue { percent },
        5 => Mutation::SwapPredictor,
        6 => Mutation::TweakAllOffsets { percent },
        7 => Mutation::CycleRct,
        8 => Mutation::ToggleHeader,
        9 => Mutation::SwapPredictorExotic,
        10 => Mutation::InsertIfAtLeaf,
        11 => Mutation::RemoveBranchAt,
        12 => Mutation::PromoteTrueAt,
        13 => Mutation::SwapSubtrees,
        14 => Mutation::CycleUpsample,
        _ => Mutation::ReplaceSubtreeRandom,
    }
}

/// A chain of two to four random single mutations.
pub open spec fn random_compound_ok(m: Mutation) -> bool {
    &&& m is Chain
    &&& 2 <= steps_of(m).len() <= 4
    &&& forall|j: int| 0 <= j < steps_of(m).len() ==> random_simple_ok(#[trigger] steps_of(m)[j])
}

/// `n` random compound mutations.
pub fn random_compounds(n: usize) -> (r: Vec<Mutation>)
    ensures
        r@.len() == n,
        forall|i: int| 0 <= i < n ==> random_compound_ok(#[trigger] r@[i]),
{
    let mut rng = new_rng();
    let mut out: Vec<Mutation> = Vec::new();
    let mut i: usize = 0;
    while i < n
        invariant
            i <= n,
            out@.len() == i,
            forall|k: int| 0 <= k < i ==> random_compound_ok(#[trigger] out@[k]),
        decreases n - i,
    {
        let len = rng_index(&mut rng, 3) + 2;
        let mut steps: Vec<Mutation> = Vec::new();
        let mut j: usize = 0;
        while j < len
            invariant
                j <= len <= 4,
                steps@.len() == j,
                forall|k: int| 0 <= k < j ==> random_simple_ok(#[trigger] steps@[k]),
            decreases len - j,
        {
            steps.push(random_simple_mutation(&mut rng));
            j = j + 1;
        }
        let m = Mutation::Chain(steps);
        assert(random_compound_ok(m));
        out.push(m);
        i = i + 1;
    }
    out
}

// ── Header edits ──────────────────────────────────────────────────────────────

/// The index of the first header from `i` on whose first word is `w`.
pub open spec fn first_with_word(hs: Seq<Seq<char>>, w: Seq<char>, i: int) -> Option<int>
    decreases hs.len() - i,
{
    if i < 0 || i >= hs.len() {
        None
    } else if starts_with_word(hs[i], w) {
        Some(i)
    } else {
        first_with_word(hs, w, i + 1)
    }
}

pub proof fn lemma_first_with_word(hs: Seq<Seq<char>>, w: Seq<char>, i: int)
    requires
        0 <= i,
    ensures
        first_with_word(hs, w, i) matches Some(j) ==> i <= j < hs.len(),
    decreases hs.len() - i,
{
    if i < hs.len() && !starts_with_word(hs[i], w) {
        lemma_first_with_word(hs, w, i + 1);
    }
}

fn first_word_is(h: &String, w: &str) -> (r: bool)
    ensures
        r == starts_with_word(h@, w@),
{
    let chars = str_chars(h.as_str());
    let toks = tokenize(&chars);
    if toks.len() == 0 {
        return false;
    }
    let wc = str_chars(w);
    assert(views(toks@)[0] == toks@[0]@);
    chars_eq(&toks[0], &wc)
}

fn find_header(hs: &Vec<String>, w: &str) -> (r: Option<usize>)
    ensures
        r matches Some(j) ==> first_with_word(string_views(hs@), w@, 0) == Some(j as int),
        r is None ==> first_with_word(string_views(hs@), w@, 0) is None,
{
    let mut i: usize = 0;
    while i < hs.len()
        invariant
            i <= hs@.len(),
            first_with_word(string_views(hs@), w@, 0) == first_with_word(
                string_views(hs@),
                w@,
                i as int,
            ),
        decreases hs@.len() - i,
    {
        if first_word_is(&hs[i], w) {
            return Some(i);
        }
        i = i + 1;
    }
    None
}

/// The headers with the flag `w` switched: its first line removed when
/// present, otherwise `w` appended.
pub open spec fn toggled(hs: Seq<Seq<char>>, w: Seq<char>) -> Seq<Seq<char>> {
    match first_with_word(hs, w, 0) {
        Some(j) => hs.remove(j),
        None => hs.push(w),
    }
}

/// The factor an `Upsample` line gives, 2 when it gives none.
pub open spec fn upsample_arg(h: Seq<char>) -> u32 {
    let t = tokens(h);
    if t.len() >= 2 {
        match parse_u32(t[1]) {
            Some(v) => v,
            None => 2,
        }
    } else {
        2
    }
}

/// The headers with the `Upsample` factor cycled: a first `Upsample` line
/// becomes factor 2 when it was at least 4 and factor 4 otherwise; without
/// one, `Upsample 2` is appended.
pub open spec fn cycled_upsample(hs: Seq<Seq<char>>) -> Seq<Seq<char>> {
    match first_with_word(hs, "Upsample"@, 0) {
        Some(j) => hs.update(
            j,
            upsample_line(
                if upsample_arg(hs[j]) >= 4 {
                    2
                } else {
                    4
                },
            ),
        ),
        None => hs.push(upsample_line(2)),
    }
}

fn upsample_arg_exec(h: &String) -> (r: u32)
    ensures
        r == upsample_arg(h@),
{
    let chars = str_chars(h.as_str());
    let toks = tokenize(&chars);
    if toks.len() >= 2 {
        assert(views(toks@)[1] == toks@[1]@);
        match parse_u32_chars(&toks[1]) {
            Some(v) => v,
            None => 2,
        }
    } else {
        2
    }
}

fn toggle_header(hs: &mut Vec<String>, w: &str)
    ensures
        string_views(final(hs)@) == toggled(string_views(old(hs)@), w@),
{
    proof {
        lemma_first_with_word(string_views(hs@), w@, 0);
    }
    match find_header(hs, w) {
        Some(i) => {
            let ghost before = hs@;
            let _ = hs.remove(i);
            assert(string_views(hs@) =~= string_views(before).remove(i as int));
        },
        None => {
            let ghost before = hs@;
            hs.push(w.to_owned());
            assert(string_views(hs@) =~= string_views(before).push(w@));
        },
    }
}

fn cycle_upsample(hs: &mut Vec<String>)
    ensures
        string_views(final(hs)@) == cycled_upsample(string_views(old(hs)@)),
{
    proof {
        lemma_first_with_word(string_views(hs@), "Upsample"@, 0);
    }
    match find_header(hs, "Upsample") {
        Some(i) => {
            let cur = upsample_arg_exec(&hs[i]);
            let next: u32 = if cur >= 4 {
                2
            } else {
                4
            };
            let ghost before = hs@;
            hs.set(i, upsample_header(next));
            assert(string_views(hs@) =~= string_views(before).update(i as int, upsample_line(next)));
        },
        None => {
            let ghost before = hs@;
            hs.push(upsample_header(2));
            assert(string_views(hs@) =~= string_views(before).push(upsample_line(2)));
        },
    }
}


// ── Applying a mutation ───────────────────────────────────────────────────────

/// The program with another tree.
pub open spec fn with_root(p: ProgramV, root: NodeV) -> ProgramV {
    ProgramV { root, ..p }
}

/// The program with another RCT.
pub open spec fn with_rct(p: ProgramV, x: u32) -> ProgramV {
    ProgramV { rct: Some(x), ..p }
}

/// The tree under a new root `If` on `v > t`, whose `on_true` side is the
/// leaf `Set s`.
pub open spec fn added_branch(n: NodeV, v: VarV, t: i64, s: i64) -> NodeV {
    NodeV::If(CondV { var: v, threshold: t }, Box::new(NodeV::Leaf(PredV::SetValue(s))), Box::new(n))
}

/// Whether a tree's nodes can be counted in a `usize`; every tree that
/// fits in memory can.
pub open spec fn countable(n: NodeV) -> bool {
    node_count(n) <= usize::MAX
}

/// What one mutation other than a chain may turn `p` into, before its
/// dead conditions are pruned. Which condition, leaf or node is edited, and
/// the random values it gets, are left to chance; everything else is fixed.
/// A tree mutation on a tree whose nodes cannot be counted leaves the
/// program unchanged.
pub open spec fn raw_step_ok(m: Mutation, p: ProgramV, r: ProgramV) -> bool {
    let n = p.root;
    let cs = conds(n);
    let ths = thresholds(n);
    let ls = leaves(n);
    let sv = set_values(n);
    match m {
        Mutation::TweakThreshold { percent } => if cs.len() == 0 {
            r == p
        } else {
            exists|k: int|
                0 <= k < cs.len() && r == with_root(
                    p,
                    #[trigger] with_cond(
                        n,
                        k,
                        CondEditV::Shift(relative_delta_spec(ths[k], ths, percent)),
                    ),
                )
        },
        Mutation::NegateThreshold => if !countable(n) || cs.len() == 0 {
            r == p
        } else {
            exists|k: int| 0 <= k < cs.len() && r == with_root(p, #[trigger] with_cond(n, k, CondEditV::Negate))
        },
        Mutation::SwapConditionVar => if !countable(n) || cs.len() == 0 {
            r == p
        } else {
            exists|k: int, v: VarV, t: i64|
                0 <= k < cs.len() && var_candidate(v) && threshold_fits(v, t) && r == with_root(
                    p,
                    #[trigger] with_cond(n, k, CondEditV::Replace(v, t)),
                )
        },
        Mutation::SwapBranches => if !countable(n) || cs.len() == 0 {
            r == p
        } else {
            exists|k: int| 0 <= k < cs.len() && r == with_root(p, #[trigger] with_swap(n, k))
        },
        Mutation::TweakSetValue { percent } => if sv.len() == 0 {
            r == p
        } else {
            exists|k: int|
                0 <= k < sv.len() && r == with_root(
                    p,
                    #[trigger] with_set_shift(n, k, relative_delta_spec(sv[k], sv, percent)),
                )
        },
        Mutation::SwapPredictor => if !countable(n) {
            r == p
        } else {
            exists|k: int, q: PredV|
                0 <= k < ls.len() && random_pred_ok(q) && r == with_root(p, #[trigger] with_leaf(n, k, q))
        },
        Mutation::TweakAllOffsets { percent } => if offsets(n).len() == 0 {
            r == p
        } else {
            r == with_root(p, shift_offsets(n, offsets_delta_spec(offsets(n), percent)))
        },
        Mutation::AddBranch => exists|v: VarV, t: i64, s: i64|
            var_candidate(v) && 0 <= t <= 255 && 0 <= s <= 255 && r == with_root(
                p,
                #[trigger] added_branch(n, v, t, s),
            ),
        Mutation::RemoveBranch => r == with_root(
            p,
            match n {
                NodeV::If(_, _, f) => *f,
                NodeV::Leaf(_) => n,
            },
        ),
        Mutation::PromoteTrueBranch => r == with_root(
            p,
            match n {
                NodeV::If(_, t, _) => *t,
                NodeV::Leaf(_) => n,
            },
        ),
        Mutation::RemoveBranchAt => if !countable(n) || cs.len() == 0 {
            r == p
        } else {
            exists|k: int| 0 <= k < cs.len() && r == with_root(p, #[trigger] collapse_at(n, k, false))
        },
        Mutation::PromoteTrueAt => if !countable(n) || cs.len() == 0 {
            r == p
        } else {
            exists|k: int| 0 <= k < cs.len() && r == with_root(p, #[trigger] collapse_at(n, k, true))
        },
        Mutation::SwapSubtrees => r == p || exists|a: Seq<bool>, b: Seq<bool>|
            valid_path(n, a) && valid_path(n, b) && disjoint(a, b) && r == with_root(
                p,
                #[trigger] swapped(n, a, b),
            ),
        Mutation::InsertIfAtLeaf => if !countable(n) {
            r == p
        } else {
            exists|k: int, v: VarV, t: i64, q: PredV|
                0 <= k < ls.len() && var_candidate(v) && 0 <= t <= 255 && random_pred_ok(q) && r
                    == with_root(p, #[trigger] with_split(n, k, CondV { var: v, threshold: t }, q))
        },
        Mutation::ReplaceSubtreeRandom => if !countable(n) {
            r == p
        } else {
            exists|k: int, s: NodeV|
                0 <= k < node_count(n) && random_tree_ok(s, 1, branch_probs_of(Complexity::Normal))
                    && r == with_root(p, #[trigger] with_node(n, k, s))
        },
        Mutation::CycleRct => exists|x: u32|
            rct_pool().contains(x) && x != (match p.rct {
                Some(v) => v,
                None => 0,
            }) && r == #[trigger] with_rct(p, x),
        Mutation::ToggleHeader => exists|i: int|
            0 <= i < 4 && r == ProgramV { headers: #[trigger] toggled(p.headers, header_pool()[i]), ..p },
        Mutation::CycleUpsample => r == ProgramV { headers: cycled_upsample(p.headers), ..p },
        Mutation::SwapPredictorExotic => if !countable(n) {
            r == p
        } else {
            exists|k: int, q: PredV|
                0 <= k < ls.len() && exotic_candidate(q) && r == with_root(p, #[trigger] with_leaf(n, k, q))
        },
        Mutation::Chain(_) => false,
    }
}

/// The program with the dead conditions of its tree pruned.
pub open spec fn pruned(q: ProgramV) -> ProgramV {
    with_root(q, prune(q.root, seq![]))
}

/// What applying one mutation may turn `p` into: a chain applies its steps
/// in turn; any other mutation makes its change (`raw_step_ok`) and then
/// prunes the tree's dead conditions.
pub open spec fn step_ok(m: Mutation, p: ProgramV, r: ProgramV) -> bool
    decreases m,
{
    match m {
        Mutation::Chain(ms) => chain_ok(ms@, p, r),
        _ => exists|q: ProgramV| #[trigger] raw_step_ok(m, p, q) && r == pruned(q),
    }
}

/// What applying a chain's steps in turn may turn `p` into.
pub open spec fn chain_ok(ms: Seq<Mutation>, p: ProgramV, r: ProgramV) -> bool
    decreases ms,
{
    if ms.len() == 0 {
        r == p
    } else {
        exists|q: ProgramV|
            #[trigger] stage(q) && chain_ok(ms.subrange(0, ms.len() - 1), p, q) && step_ok(
                ms[ms.len() - 1],
                q,
                r,
            )
    }
}

/// Marks a program that a chain passes through; it names the intermediate
/// programs in `chain_ok` and holds of all of them. It serves as the
/// trigger there: the recursive `chain_ok` call inside `chain_ok`'s own
/// body is not matched by the calls outside it, so it cannot serve.
pub open spec fn stage(q: ProgramV) -> bool {
    true
}


/// A different RCT preset, drawn uniformly from the pool without `current`.
fn other_rct(rng: &mut ThreadRng, current: u32) -> (r: u32)
    ensures
        rct_pool().contains(r),
        r != current,
{
    let mut pos: usize = 8;
    let mut i: usize = 0;
    while i < 8
        invariant
            i <= 8,
            pos == 8 || (pos < i && rct_pool()[pos as int] == current),
            pos == 8 ==> forall|j: int| 0 <= j < i ==> rct_pool()[j] != current,
        decreases 8 - i,
    {
        if pos == 8 && pool_rct(i) == current {
            pos = i;
        }
        i = i + 1;
    }
    let r = if pos < 8 {
        let j = rng_index(rng, 7);
        let idx = if j >= pos {
            j + 1
        } else {
            j
        };
        assert(idx != pos);
        assert(rct_pool()[idx as int] != rct_pool()[pos as int]);
        pool_rct(idx)
    } else {
        let j = rng_index(rng, 8);
        pool_rct(j)
    };
    assert(rct_pool().contains(r));
    r
}

impl Mutation {
    /// Apply the mutation to a copy of `program`; a chain applies its steps
    /// in turn. Every step ends by pruning the tree's dead conditions.
    pub fn apply(&self, program: &ImageProgram) -> (r: ImageProgram)
        ensures
            step_ok(*self, program@, r@),
        decreases self,
    {
        if let Mutation::Chain(steps) = self {
            let mut cur = program.clone();
            let mut i: usize = 0;
            assert(steps@.subrange(0, 0) =~= Seq::<Mutation>::empty());
            while i < steps.len()
                invariant
                    i <= steps@.len(),
                    *self == Mutation::Chain(*steps),
                    chain_ok(steps@.subrange(0, i as int), program@, cur@),
                decreases steps@.len() - i,
            {
                proof {
                    let v: Vec<Mutation> = *steps;
                    assert(decreases_to!(*self => (*self)->Chain_0));
                    assert(decreases_to!(v => v@));
                    assert(decreases_to!(v@ => v@[i as int]));
                }
                let next = steps[i].apply(&cur);
                proof {
                    let sub = steps@.subrange(0, i + 1);
                    assert(sub.subrange(0, i as int) =~= steps@.subrange(0, i as int));
                    assert(sub[i as int] == steps@[i as int]);
                    assert(chain_ok(sub.subrange(0, sub.len() - 1), program@, cur@));
                    assert(step_ok(sub[sub.len() - 1], cur@, next@));
                    assert(stage(cur@));
                    assert(chain_ok(sub, program@, next@));
                }
                cur = next;
                i = i + 1;
            }
            assert(steps@.subrange(0, steps@.len() as int) =~= steps@);
            return cur;
        }
        let mut r = self.apply_raw(program);
        let ghost q = r@;
        let raw = replace_node(&mut r.root, Node::Predict(Predictor::SetValue(0)));
        r.root = simplify_degenerate(raw);
        assert(r@ == pruned(q));
        r
    }

    /// The change of a mutation other than a chain, before pruning.
    fn apply_raw(&self, program: &ImageProgram) -> (r: ImageProgram)
        requires
            !(*self is Chain),
        ensures
            raw_step_ok(*self, program@, r@),
    {
        let mut rng = new_rng();
        let mut prog = program.clone();
        let ghost n0 = program@.root;
        match self {
            Mutation::TweakThreshold { percent } => {
                let ths = collect_thresholds(&prog.root);
                if ths.len() == 0 {
                    return prog;
                }
                let n = rng_index(&mut rng, ths.len());
                let delta = relative_delta(ths[n], &ths, *percent);
                let mut seen: usize = 0;
                apply_nth_condition(&mut prog.root, n, &mut seen, &CondEdit::Shift(delta));
                assert(prog@ == with_root(program@, with_cond(n0, n as int, CondEditV::Shift(delta))));
            },
            Mutation::NegateThreshold => {
                if count_all_nodes(&prog.root).is_none() {
                    return prog;
                }
                let n_conds = count_conditions(&prog.root);
                if n_conds == 0 {
                    return prog;
                }
                let n = rng_index(&mut rng, n_conds);
                let mut seen: usize = 0;
                apply_nth_condition(&mut prog.root, n, &mut seen, &CondEdit::Negate);
                assert(prog@ == with_root(program@, with_cond(n0, n as int, CondEditV::Negate)));
            },
            Mutation::SwapConditionVar => {
                if count_all_nodes(&prog.root).is_none() {
                    return prog;
                }
                let n_conds = count_conditions(&prog.root);
                if n_conds == 0 {
                    return prog;
                }
                let n = rng_index(&mut rng, n_conds);
                let pick = random_var(&mut rng);
                let thr = random_threshold_for(&pick, &mut rng);
                let ghost v = pick@;
                let mut seen: usize = 0;
                apply_nth_condition(&mut prog.root, n, &mut seen, &CondEdit::Replace(pick, thr));
                assert(prog@ == with_root(program@, with_cond(n0, n as int, CondEditV::Replace(v, thr))));
            },
            Mutation::SwapBranches => {
                if count_all_nodes(&prog.root).is_none() {
                    return prog;
                }
                let n_conds = count_conditions(&prog.root);
                if n_conds == 0 {
                    return prog;
                }
                let n = rng_index(&mut rng, n_conds);
                let mut seen: usize = 0;
                swap_nth_branches(&mut prog.root, n, &mut seen);
                assert(prog@ == with_root(program@, with_swap(n0, n as int)));
            },
            Mutation::TweakSetValue { percent } => {
                let set_vals = collect_set_values(&prog.root);
                if set_vals.len() == 0 {
                    return prog;
                }
                let n = rng_index(&mut rng, set_vals.len());
                let delta = relative_delta(set_vals[n], &set_vals, *percent);
                let mut seen: usize = 0;
                apply_nth_set_predictor(&mut prog.root, n, &mut seen, delta);
                assert(prog@ == with_root(program@, with_set_shift(n0, n as int, delta)));
            },
            Mutation::SwapPredictor => {
                if count_all_nodes(&prog.root).is_none() {
                    return prog;
                }
                let n_preds = count_predictors(&prog.root);
                proof {
                    lemma_counts(n0);
                }
                let n = rng_index(&mut rng, n_preds);
                let replacement = random_predictor(&mut rng);
                let mut seen: usize = 0;
                apply_nth_predictor(&mut prog.root, n, &mut seen, &replacement);
                assert(prog@ == with_root(program@, with_leaf(n0, n as int, replacement@)));
            },
            Mutation::TweakAllOffsets { percent } => {
                let offs = collect_offsets(&prog.root);
                if offs.len() == 0 {
                    return prog;
                }
                let delta = offsets_delta(&offs, *percent);
                tweak_all_offsets(&mut prog.root, delta);
            },
            Mutation::AddBranch => {
                let old_root = replace_node(&mut prog.root, Node::Predict(Predictor::SetValue(0)));
                let var = random_var(&mut rng);
                let threshold = rng_between(&mut rng, 0, 255);
                let set = rng_between(&mut rng, 0, 255);
                let ghost v = var@;
                let leaf = Node::Predict(Predictor::SetValue(set));
                assert(leaf@ == NodeV::Leaf(PredV::SetValue(set)));
                prog.root = Node::If {
                    condition: Condition { var, op: Op::Gt, threshold },
                    on_true: Box::new(leaf),
                    on_false: Box::new(old_root),
                };
                assert(prog@ == with_root(program@, added_branch(n0, v, threshold, set)));
            },
            Mutation::RemoveBranch => {
                let old_root = replace_node(&mut prog.root, Node::Predict(Predictor::SetValue(0)));
                prog.root = match old_root {
                    Node::If { on_false, .. } => *on_false,
                    leaf => leaf,
                };
            },
            Mutation::PromoteTrueBranch => {
                let old_root = replace_node(&mut prog.root, Node::Predict(Predictor::SetValue(0)));
                prog.root = match old_root {
                    Node::If { on_true, .. } => *on_true,
                    leaf => leaf,
                };
            },
            Mutation::RemoveBranchAt => {
                if count_all_nodes(&prog.root).is_none() {
                    return prog;
                }
                let n_ifs = count_conditions(&prog.root);
                if n_ifs == 0 {
                    return prog;
                }
                let n = rng_index(&mut rng, n_ifs);
                let mut seen: usize = 0;
                let _ = collapse_nth_if(&mut prog.root, n, &mut seen, false);
                assert(prog@ == with_root(program@, collapse_at(n0, n as int, false)));
            },
            Mutation::PromoteTrueAt => {
                if count_all_nodes(&prog.root).is_none() {
                    return prog;
                }
                let n_ifs = count_conditions(&prog.root);
                if n_ifs == 0 {
                    return prog;
                }
                let n = rng_index(&mut rng, n_ifs);
                let mut seen: usize = 0;
                let _ = collapse_nth_if(&mut prog.root, n, &mut seen, true);
                assert(prog@ == with_root(program@, collapse_at(n0, n as int, true)));
            },
            Mutation::SwapSubtrees => {
                let mut paths: Vec<Vec<bool>> = Vec::new();
                let mut prefix: Vec<bool> = Vec::new();
                collect_node_paths(&prog.root, &mut prefix, &mut paths);
                proof {
                    assert(node_paths(n0).map_values(|p: Seq<bool>| Seq::<bool>::empty() + p)
                        =~= node_paths(n0));
                    lemma_node_paths(n0);
                }
                if paths.len() < 2 {
                    return prog;
                }
                let mut attempt: usize = 0;
                while attempt < 16
                    invariant
                        *self == Mutation::SwapSubtrees,
                        prog@ == program@,
                        n0 == program@.root,
                        path_views(paths@) == node_paths(n0),
                        forall|i: int|
                            0 <= i < node_paths(n0).len() ==> valid_path(n0, #[trigger] node_paths(n0)[i]),
                        forall|i: int, j: int|
                            0 <= i < node_paths(n0).len() && 0 <= j < node_paths(n0).len() && i != j
                                ==> #[trigger] node_paths(n0)[i] != #[trigger] node_paths(n0)[j],
                        paths@.len() >= 2,
                    decreases 16 - attempt,
                {
                    attempt = attempt + 1;
                    let i = rng_index(&mut rng, paths.len());
                    let j = rng_index(&mut rng, paths.len());
                    if i == j {
                        continue;
                    }
                    let a = paths[i].clone();
                    let b = paths[j].clone();
                    assert(a@ == path_views(paths@)[i as int]);
                    assert(b@ == path_views(paths@)[j as int]);
                    if is_path_ancestor(&a, &b) || is_path_ancestor(&b, &a) {
                        continue;
                    }
                    proof {
                        assert(node_paths(n0)[i as int] != node_paths(n0)[j as int]);
                        if prefix_of(a@, b@) {
                            assert(a@.len() == b@.len());
                            assert(b@.subrange(0, a@.len() as int) =~= b@);
                        }
                        if prefix_of(b@, a@) {
                            assert(a@.len() == b@.len());
                            assert(a@.subrange(0, b@.len() as int) =~= a@);
                        }
                    }
                    assert(valid_path(n0, node_paths(n0)[i as int]));
                    assert(valid_path(n0, node_paths(n0)[j as int]));
                    assert(disjoint(a@, b@));
                    swap_subtrees_at(&mut prog.root, &a, &b);
                    assert(prog@ == with_root(program@, swapped(n0, a@, b@)));
                    return prog;
                }
            },
            Mutation::InsertIfAtLeaf => {
                if count_all_nodes(&prog.root).is_none() {
                    return prog;
                }
                let n_leaves = count_predictors(&prog.root);
                proof {
                    lemma_counts(n0);
                }
                let n = rng_index(&mut rng, n_leaves);
                let var = random_var(&mut rng);
                let threshold = rng_between(&mut rng, 0, 255);
                let ghost v = var@;
                let condition = Condition { var, op: Op::Gt, threshold };
                let sibling = random_predictor(&mut rng);
                let mut seen: usize = 0;
                replace_nth_leaf(&mut prog.root, n, &mut seen, &condition, &sibling);
                assert(prog@ == with_root(
                    program@,
                    with_split(n0, n as int, CondV { var: v, threshold }, sibling@),
                ));
            },
            Mutation::ReplaceSubtreeRandom => {
                let n_nodes = match count_all_nodes(&prog.root) {
                    Some(c) => c,
                    None => {
                        return prog;
                    },
                };
                let n = rng_index(&mut rng, n_nodes);
                let probs = Complexity::Normal.branch_probs();
                let replacement = random_node(&mut rng, 1, &probs);
                let mut seen: usize = 0;
                replace_nth_node(&mut prog.root, n, &mut seen, &replacement);
                assert(prog@ == with_root(program@, with_node(n0, n as int, replacement@)));
            },
            Mutation::CycleRct => {
                let current = match prog.rct {
                    Some(v) => v,
                    None => 0,
                };
                let pick = other_rct(&mut rng, current);
                prog.rct = Some(pick);
                assert(prog@ == with_rct(program@, pick));
            },
            Mutation::ToggleHeader => {
                let i = rng_index(&mut rng, 4);
                let pick = pool_header(i);
                toggle_header(&mut prog.extra_headers, pick);
                assert(prog@ == ProgramV { headers: toggled(program@.headers, header_pool()[i as int]), ..program@ });
            },
            Mutation::CycleUpsample => {
                cycle_upsample(&mut prog.extra_headers);
            },
            Mutation::SwapPredictorExotic => {
                if count_all_nodes(&prog.root).is_none() {
                    return prog;
                }
                let n_preds = count_predictors(&prog.root);
                proof {
                    lemma_counts(n0);
                }
                let n = rng_index(&mut rng, n_preds);
                let replacement = random_exotic_predictor(&mut rng);
                let mut seen: usize = 0;
                apply_nth_predictor(&mut prog.root, n, &mut seen, &replacement);
                assert(prog@ == with_root(program@, with_leaf(n0, n as int, replacement@)));
            },
            Mutation::Chain(_) => {},
        }
        prog
    }
}


// ── Flat images ───────────────────────────────────────────────────────────────

/// The least value of channel `ch` over the first `n` RGBA pixels (255 for
/// none).
pub open spec fn channel_min(rgba: Seq<u8>, ch: int, n: nat) -> u8
    decreases n,
{
    if n == 0 {
        255
    } else {
        let v = rgba[4 * (n - 1) + ch];
        let m = channel_min(rgba, ch, (n - 1) as nat);
        if v < m {
            v
        } else {
            m
        }
    }
}

/// The greatest value of channel `ch` over the first `n` RGBA pixels (0
/// for none).
pub open spec fn channel_max(rgba: Seq<u8>, ch: int, n: nat) -> u8
    decreases n,
{
    if n == 0 {
        0
    } else {
        let v = rgba[4 * (n - 1) + ch];
        let m = channel_max(rgba, ch, (n - 1) as nat);
        if v > m {
            v
        } else {
            m
        }
    }
}

/// An RGBA buffer is degenerate (a single flat colour, near enough) when
/// it holds no whole pixel, or when the ranges of red, green and blue over
/// its whole pixels add up to less than 10. Alpha is ignored, and so are
/// trailing bytes that make no whole pixel.
pub open spec fn degenerate(rgba: Seq<u8>) -> bool {
    let n = rgba.len() / 4;
    rgba.len() < 4 || (channel_max(rgba, 0, n) - channel_min(rgba, 0, n)) + (channel_max(rgba, 1, n)
        - channel_min(rgba, 1, n)) + (channel_max(rgba, 2, n) - channel_min(rgba, 2, n)) < 10
}

proof fn lemma_channel_bounds(rgba: Seq<u8>, ch: int, n: nat)
    requires
        n >= 1,
    ensures
        channel_min(rgba, ch, n) <= channel_max(rgba, ch, n),
    decreases n,
{
    if n > 1 {
        lemma_channel_bounds(rgba, ch, (n - 1) as nat);
    }
}

/// `|v|`.
pub open spec fn abs_int(v: int) -> int {
    if v < 0 {
        -v
    } else {
        v
    }
}

/// Channel `ch` of pixel `p` of an RGBA buffer.
pub open spec fn sample(rgba: Seq<u8>, p: int, ch: int) -> int {
    rgba[4 * p + ch] as int
}

/// Over the first `n` pixels, channel `ch`'s least and greatest values
/// bound every pixel's value and are each taken by some pixel.
proof fn lemma_channel_extremes(rgba: Seq<u8>, ch: int, n: nat)
    requires
        n >= 1,
    ensures
        forall|p: int| 0 <= p < n ==> channel_min(rgba, ch, n) <= #[trigger] sample(rgba, p, ch)
            <= channel_max(rgba, ch, n),
        exists|p: int| 0 <= p < n && #[trigger] sample(rgba, p, ch) == channel_min(rgba, ch, n),
        exists|p: int| 0 <= p < n && #[trigger] sample(rgba, p, ch) == channel_max(rgba, ch, n),
    decreases n,
{
    let last = n - 1;
    let m = (n - 1) as nat;
    assert(sample(rgba, last, ch) == rgba[4 * (n - 1) + ch]);
    if n == 1 {
        assert(channel_min(rgba, ch, m) == 255 && channel_max(rgba, ch, m) == 0);
        assert(sample(rgba, 0, ch) == channel_min(rgba, ch, n));
        assert(sample(rgba, 0, ch) == channel_max(rgba, ch, n));
    } else {
        lemma_channel_extremes(rgba, ch, m);
        let pmin = choose|p: int| 0 <= p < m && #[trigger] sample(rgba, p, ch) == channel_min(rgba, ch, m);
        let pmax = choose|p: int| 0 <= p < m && #[trigger] sample(rgba, p, ch) == channel_max(rgba, ch, m);
        if sample(rgba, last, ch) < channel_min(rgba, ch, m) {
            assert(sample(rgba, last, ch) == channel_min(rgba, ch, n));
        } else {
            assert(sample(rgba, pmin, ch) == channel_min(rgba, ch, n));
        }
        if sample(rgba, last, ch) > channel_max(rgba, ch, m) {
            assert(sample(rgba, last, ch) == channel_max(rgba, ch, n));
        } else {
            assert(sample(rgba, pmax, ch) == channel_max(rgba, ch, n));
        }
    }
}

/// A buffer is degenerate exactly when it holds no whole pixel, or when no
/// choice of whole pixels makes the differences of red between two of them,
/// of green between two and of blue between two add up to 10 or more.
pub proof fn degenerate_iff_no_contrast(rgba: Seq<u8>)
    ensures
        degenerate(rgba) <==> (rgba.len() < 4 || forall|a: int, b: int, c: int, d: int, e: int, f: int|
            #![trigger sample(rgba, a, 0), sample(rgba, b, 0), sample(rgba, c, 1), sample(rgba, d, 1), sample(rgba, e, 2), sample(rgba, f, 2)]
            0 <= a < rgba.len() / 4 && 0 <= b < rgba.len() / 4 && 0 <= c < rgba.len() / 4 && 0 <= d
                < rgba.len() / 4 && 0 <= e < rgba.len() / 4 && 0 <= f < rgba.len() / 4 ==> (sample(
                rgba,
                a,
                0,
            ) - sample(rgba, b, 0)) + (sample(rgba, c, 1) - sample(rgba, d, 1)) + (sample(rgba, e, 2)
                - sample(rgba, f, 2)) < 10),
{
    if rgba.len() >= 4 {
        let n = rgba.len() / 4;
        lemma_channel_extremes(rgba, 0, n);
        lemma_channel_extremes(rgba, 1, n);
        lemma_channel_extremes(rgba, 2, n);
        let a = choose|p: int| 0 <= p < n && #[trigger] sample(rgba, p, 0) == channel_max(rgba, 0, n);
        let b = choose|p: int| 0 <= p < n && #[trigger] sample(rgba, p, 0) == channel_min(rgba, 0, n);
        let c = choose|p: int| 0 <= p < n && #[trigger] sample(rgba, p, 1) == channel_max(rgba, 1, n);
        let d = choose|p: int| 0 <= p < n && #[trigger] sample(rgba, p, 1) == channel_min(rgba, 1, n);
        let e = choose|p: int| 0 <= p < n && #[trigger] sample(rgba, p, 2) == channel_max(rgba, 2, n);
        let f = choose|p: int| 0 <= p < n && #[trigger] sample(rgba, p, 2) == channel_min(rgba, 2, n);
        assert(sample(rgba, a, 0) == channel_max(rgba, 0, n));
    }
}

/// Two whole pixels whose red, green and blue differ by 10 or more in all
/// make a buffer that is not degenerate.
pub proof fn contrasting_pixels_not_degenerate(rgba: Seq<u8>, a: int, b: int)
    requires
        0 <= a < rgba.len() / 4,
        0 <= b < rgba.len() / 4,
        abs_int(sample(rgba, a, 0) - sample(rgba, b, 0)) + abs_int(sample(rgba, a, 1) - sample(rgba, b, 1))
            + abs_int(sample(rgba, a, 2) - sample(rgba, b, 2)) >= 10,
    ensures
        !degenerate(rgba),
{
    degenerate_iff_no_contrast(rgba);
    let (r1, r2) = if sample(rgba, a, 0) >= sample(rgba, b, 0) { (a, b) } else { (b, a) };
    let (g1, g2) = if sample(rgba, a, 1) >= sample(rgba, b, 1) { (a, b) } else { (b, a) };
    let (b1, b2) = if sample(rgba, a, 2) >= sample(rgba, b, 2) { (a, b) } else { (b, a) };
    assert(sample(rgba, r1, 0) - sample(rgba, r2, 0) + (sample(rgba, g1, 1) - sample(rgba, g2, 1)) + (
    sample(rgba, b1, 2) - sample(rgba, b2, 2)) >= 10);
}

/// A buffer whose whole pixels all share one red, green and blue value is
/// degenerate.
pub proof fn flat_colour_is_degenerate(rgba: Seq<u8>)
    requires
        forall|p: int, ch: int|
            0 <= p < rgba.len() / 4 && 0 <= ch < 3 ==> #[trigger] sample(rgba, p, ch) == sample(rgba, 0, ch),
    ensures
        degenerate(rgba),
{
    degenerate_iff_no_contrast(rgba);
}


pub fn is_degenerate(rgba: &[u8]) -> (r: bool)
    ensures
        r == degenerate(rgba@),
{
    if rgba.len() < 4 {
        return true;
    }
    let (mut mn_r, mut mx_r) = (255u8, 0u8);
    let (mut mn_g, mut mx_g) = (255u8, 0u8);
    let (mut mn_b, mut mx_b) = (255u8, 0u8);
    let len = rgba.len();
    let n = len / 4;
    assert(4 * n <= len);
    let mut p: usize = 0;
    while p < n
        invariant
            len == rgba@.len(),
            n == len / 4,
            4 * n <= len,
            p <= n,
            mn_r == channel_min(rgba@, 0, p as nat),
            mx_r == channel_max(rgba@, 0, p as nat),
            mn_g == channel_min(rgba@, 1, p as nat),
            mx_g == channel_max(rgba@, 1, p as nat),
            mn_b == channel_min(rgba@, 2, p as nat),
            mx_b == channel_max(rgba@, 2, p as nat),
        decreases n - p,
    {
        let base = 4 * p;
        let (r, g, b) = (rgba[base], rgba[base + 1], rgba[base + 2]);
        if r < mn_r {
            mn_r = r;
        }
        if r > mx_r {
            mx_r = r;
        }
        if g < mn_g {
            mn_g = g;
        }
        if g > mx_g {
            mx_g = g;
        }
        if b < mn_b {
            mn_b = b;
        }
        if b > mx_b {
            mx_b = b;
        }
        p = p + 1;
    }
    proof {
        lemma_channel_bounds(rgba@, 0, n as nat);
        lemma_channel_bounds(rgba@, 1, n as nat);
        lemma_channel_bounds(rgba@, 2, n as nat);
    }
    let range = (mx_r - mn_r) as u16 + (mx_g - mn_g) as u16 + (mx_b - mn_b) as u16;
    range < 10
}

// ── Programs worth showing ────────────────────────────────────────────────────

/// How many candidates `random_program_non_degenerate` renders at most.
pub const RETRY_LIMIT: usize = 10;

/// How many of the retries only redraw the colour transform and headers
/// before the whole program is redrawn.
pub const CHEAP_REROLLS: usize = 7;

/// The next candidate after candidate number `attempt` rendered flat (or
/// not at all): the first retries redraw only the cheap program-level
/// knobs (RCT and header flags), which often bring colour back; later
/// ones draw a fresh program.
pub fn reroll_program(prog: &mut ImageProgram, attempt: usize, complexity: Complexity)
    ensures
        attempt < CHEAP_REROLLS ==> ({
            let p = final(prog)@;
            &&& p.rct matches Some(x) && rct_pool().contains(x)
            &&& header_subset(p.headers)
            &&& p == ProgramV { rct: p.rct, headers: p.headers, ..old(prog)@ }
        }),
        attempt >= CHEAP_REROLLS ==> generated_ok(final(prog)@, complexity, None),
{
    if attempt < CHEAP_REROLLS {
        let mut rng = new_rng();
        prog.rct = Some(random_rct(&mut rng));
        prog.extra_headers = random_headers(&mut rng);
    } else {
        *prog = random_program(complexity, None);
    }
}

/// One round of the search for a random program whose preview is not
/// flat. `preview` is the render of the current candidate, `None` when it
/// could not be rendered. A candidate that rendered and is not degenerate is
/// kept (`true`, the program unchanged); otherwise it is redrawn for the
/// next round as `reroll_program` says.
pub fn non_degenerate_step(
    prog: &mut ImageProgram,
    attempt: usize,
    preview: Option<&[u8]>,
    complexity: Complexity,
) -> (keep: bool)
    ensures
        keep == (preview matches Some(px) && !degenerate(px@)),
        keep ==> final(prog)@ == old(prog)@,
        !keep && attempt < CHEAP_REROLLS ==> ({
            let p = final(prog)@;
            &&& p.rct matches Some(x) && rct_pool().contains(x)
            &&& header_subset(p.headers)
            &&& p == ProgramV { rct: p.rct, headers: p.headers, ..old(prog)@ }
        }),
        !keep && attempt >= CHEAP_REROLLS ==> generated_ok(final(prog)@, complexity, None),
{
    if let Some(px) = preview {
        if !is_degenerate(px) {
            return true;
        }
    }
    reroll_program(prog, attempt, complexity);
    false
}

/// Whether a compound mutation whose render came out flat is replaced by a
/// fresh random compound: at most `limit` times per card.
pub fn retry_compound(compound: bool, degenerate: bool, retries: usize, limit: usize) -> (r: bool)
    ensures
        r == (compound && degenerate && retries < limit),
{
    compound && degenerate && retries < limit
}

} // verus!

use artxl::edit::{
    collect_node_paths, collect_offsets, collect_set_values, collect_thresholds, count_all_nodes,
    count_conditions, count_predictors, is_path_ancestor, swap_subtrees_at, tweak_all_offsets,
};
use artxl::mutations::{
    is_degenerate, non_degenerate_step, random_compounds, random_program, relative_delta,
    retry_compound, Complexity, Mutation, CHEAP_REROLLS, RETRY_LIMIT,
};
use artxl::prune::simplify_degenerate;
use artxl::tree::{Condition, ImageProgram, Node, Op, Predictor, Var};
use std::collections::HashMap;

const RCT_POOL: [u32; 8] = [0, 2, 6, 10, 13, 16, 20, 27];

/// Seeds of several shapes: headers, splines, exotic leaves, frames.
const SEEDS: [&str; 5] = [
    "Bitdepth 8\nRCT 1\n\nif y > 150\n  if c > 0\n    - N 0\n    if x > 500\n      - W - 40\n      - Set 255\n  - AvgN+NW + 3\n",
    "Bitdepth 8\nDeltaPalette\nUpsample 4\n\nif W > 0\n  - Gradient + 5\n  if NE > -10\n    - Weighted - 2\n    - Set 17\n",
    "Bitdepth 8\nWidth 300\nHeight 200\nSpline\n0 0 0\nEndSpline\n\nif WGH > 5\n  - AvgN+NE 0\n  - AvgW+NW - 9\n",
    "Bitdepth 8\nNotLast\n\nif x > 10\n  - Set 0\n  - Set 200\n\nFramePos 10 20\n\n- N 0\n",
    "Bitdepth 8\n\n- Select + 1\n",
];

fn single_if(threshold: i64) -> ImageProgram {
    ImageProgram::from_text(&format!("if x > {}\n - Set 10\n - N + 4\n", threshold)).unwrap()
}

fn check_readable(p: &ImageProgram, what: &str) {
    let text = p.to_text();
    let back = ImageProgram::from_text(&text).unwrap_or_else(|e| panic!("{}: re-parse: {}\n{}", what, e, text));
    assert_eq!(&back, p, "{}: round-trip differs\n{}", what, text);
}

#[test]
fn complexity_from_byte() {
    assert_eq!(Complexity::from_u8(0), Complexity::Simple);
    assert_eq!(Complexity::from_u8(1), Complexity::Normal);
    assert_eq!(Complexity::from_u8(2), Complexity::Complex);
    assert_eq!(Complexity::from_u8(3), Complexity::Normal);
    assert_eq!(Complexity::from_u8(255), Complexity::Normal);
}

#[test]
fn degenerate_images_are_flat_ones() {
    assert!(is_degenerate(&[]));
    assert!(is_degenerate(&[1, 2, 3]));
    assert!(is_degenerate(&[10, 10, 10, 255]));
    assert!(is_degenerate(&[0, 0, 0, 255, 9, 0, 0, 0]));
    assert!(!is_degenerate(&[0, 0, 0, 255, 10, 0, 0, 255]));
    assert!(!is_degenerate(&[0, 0, 0, 0, 3, 4, 3, 0]));
    assert!(is_degenerate(&[0, 0, 0, 0, 3, 3, 3, 0]));
}

#[test]
fn relative_delta_values() {
    assert_eq!(relative_delta(200, &vec![], 15), 30);
    assert_eq!(relative_delta(-200, &vec![], -15), -30);
    assert_eq!(relative_delta(0, &vec![0, 4, -8], 25), 2);
    assert_eq!(relative_delta(0, &vec![], 40), 4);
    assert_eq!(relative_delta(0, &vec![0, 0], -40), -4);
    assert_eq!(relative_delta(3, &vec![], 10), 1);
    assert_eq!(relative_delta(5, &vec![], -10), -1);
    assert_eq!(relative_delta(0, &vec![0, 1, 2], 50), 1);
    assert_eq!(relative_delta(30, &vec![], 15), 5);
}

#[test]
fn showcase_lists_the_cards() {
    let s = Mutation::showcase();
    assert_eq!(s.len(), 33);
    assert_eq!(s[0].label(), "Threshold +15%");
    assert_eq!(s[1].label(), "Threshold -15%");
    assert_eq!(s[4].label(), "Negate threshold");
    assert_eq!(s[17].label(), "All offsets +25%");
    assert_eq!(s[23].label(), "Cycle upsample");
    assert_eq!(s[24].label(), "Threshold +20% → Swap predictor");
    assert_eq!(s[28].label(), "Add branch → Swap cond var → Threshold +20%");
    for (i, m) in s.iter().enumerate() {
        assert_eq!(m.is_compound(), i >= 24, "card {}", i);
    }
}

#[test]
fn random_compounds_are_chains_of_two_to_four() {
    let cs = random_compounds(40);
    assert_eq!(cs.len(), 40);
    for c in &cs {
        match c {
            Mutation::Chain(steps) => {
                assert!((2..=4).contains(&steps.len()));
                for s in steps {
                    assert!(!s.is_compound());
                }
            }
            other => panic!("not a chain: {:?}", other),
        }
    }
    assert!(random_compounds(0).is_empty());
}

#[test]
fn threshold_mutations_on_a_single_condition() {
    let p = single_if(200);
    let first = |q: &ImageProgram| collect_thresholds(&q.root)[0];
    assert_eq!(first(&Mutation::TweakThreshold { percent: 15 }.apply(&p)), 230);
    assert_eq!(first(&Mutation::TweakThreshold { percent: -15 }.apply(&p)), 170);
    assert_eq!(first(&Mutation::NegateThreshold.apply(&p)), -200);
    let twice = Mutation::Chain(vec![Mutation::NegateThreshold, Mutation::NegateThreshold]);
    assert_eq!(twice.apply(&p), p);
    assert_eq!(twice.label(), "Negate threshold → Negate threshold");
}

#[test]
fn branch_mutations_on_a_single_condition() {
    let p = single_if(7);
    let swapped = Mutation::SwapBranches.apply(&p);
    assert_eq!(swapped.to_text(), "Bitdepth 8\n\nif x > 7\n  - N + 4\n  - Set 10\n");
    assert_eq!(Mutation::RemoveBranch.apply(&p).root, Node::Predict(Predictor::N(4)));
    assert_eq!(Mutation::PromoteTrueBranch.apply(&p).root, Node::Predict(Predictor::SetValue(10)));
    assert_eq!(Mutation::RemoveBranchAt.apply(&p).root, Node::Predict(Predictor::N(4)));
    assert_eq!(Mutation::PromoteTrueAt.apply(&p).root, Node::Predict(Predictor::SetValue(10)));
    let leaf = ImageProgram::from_text("- Set 3\n").unwrap();
    assert_eq!(Mutation::RemoveBranch.apply(&leaf), leaf);
    assert_eq!(Mutation::NegateThreshold.apply(&leaf), leaf);
}

#[test]
fn value_mutations() {
    let p = single_if(7);
    assert_eq!(collect_set_values(&Mutation::TweakSetValue { percent: 20 }.apply(&p).root), vec![12]);
    assert_eq!(collect_set_values(&Mutation::TweakSetValue { percent: -20 }.apply(&p).root), vec![8]);
    let q = ImageProgram::from_text("if x > 1\n - N + 4\n - W - 8\n").unwrap();
    let up = Mutation::TweakAllOffsets { percent: 25 }.apply(&q);
    assert_eq!(collect_offsets(&up.root), vec![6, -6]);
    let down = Mutation::TweakAllOffsets { percent: -25 }.apply(&q);
    assert_eq!(collect_offsets(&down.root), vec![2, -10]);
}

#[test]
fn add_branch_wraps_the_old_tree() {
    let p = single_if(7);
    for _ in 0..20 {
        let q = Mutation::AddBranch.apply(&p);
        match &q.root {
            Node::If { condition, on_true, on_false } => {
                assert!((0..=255).contains(&condition.threshold));
                if condition.var == Var::X && condition.threshold <= 7 {
                    // Below `x <= t <= 7`, the old `x > 7` is always false.
                    assert_eq!(**on_false, Node::Predict(Predictor::N(4)));
                } else {
                    assert_eq!(**on_false, p.root);
                }
                match **on_true {
                    Node::Predict(Predictor::SetValue(v)) => assert!((0..=255).contains(&v)),
                    ref other => panic!("unexpected true side {:?}", other),
                }
            }
            other => panic!("root is not an if: {:?}", other),
        }
    }
}

#[test]
fn insert_if_at_leaf_adds_one_condition_and_leaf() {
    let p = single_if(7);
    for _ in 0..20 {
        let q = Mutation::InsertIfAtLeaf.apply(&p);
        // The new condition is dropped again when `x > 7` above decides it.
        let c = count_conditions(&q.root);
        assert!(c == 1 || c == 2);
        assert_eq!(count_predictors(&q.root), c + 1);
        assert!(assert_no_dead(&q.root, &mut HashMap::new()).is_ok());
    }
}

#[test]
fn upsample_cycles_none_two_four() {
    let none = single_if(1);
    let two = Mutation::CycleUpsample.apply(&none);
    assert_eq!(two.extra_headers, vec!["Upsample 2".to_string()]);
    let four = Mutation::CycleUpsample.apply(&two);
    assert_eq!(four.extra_headers, vec!["Upsample 4".to_string()]);
    let back = Mutation::CycleUpsample.apply(&four);
    assert_eq!(back.extra_headers, vec!["Upsample 2".to_string()]);
    let eight = ImageProgram::from_text("Upsample 8\n- Set 0\n").unwrap();
    assert_eq!(Mutation::CycleUpsample.apply(&eight).extra_headers, vec!["Upsample 2".to_string()]);
    let odd = ImageProgram::from_text("Upsample x\n- Set 0\n").unwrap();
    assert_eq!(Mutation::CycleUpsample.apply(&odd).extra_headers, vec!["Upsample 4".to_string()]);
}

#[test]
fn cycle_rct_always_changes_the_preset() {
    let p = ImageProgram::from_text("RCT 6\n- Set 0\n").unwrap();
    for _ in 0..30 {
        let q = Mutation::CycleRct.apply(&p);
        let r = q.rct.expect("an RCT is set");
        assert!(RCT_POOL.contains(&r));
        assert_ne!(r, 6);
        assert_eq!(q.root, p.root);
    }
    let unset = ImageProgram::from_text("- Set 0\n").unwrap();
    for _ in 0..30 {
        assert_ne!(Mutation::CycleRct.apply(&unset).rct, Some(0));
    }
}

#[test]
fn toggle_header_flips_one_flag() {
    let p = ImageProgram::from_text("XYB\n- Set 0\n").unwrap();
    for _ in 0..30 {
        let q = Mutation::ToggleHeader.apply(&p);
        let added = q.extra_headers.len() == 2;
        let removed = q.extra_headers.is_empty();
        assert!(added || removed, "{:?}", q.extra_headers);
        if added {
            assert_eq!(q.extra_headers[0], "XYB");
            assert!(["Gaborish", "DeltaPalette", "Squeeze"].contains(&q.extra_headers[1].as_str()));
        }
    }
}

#[test]
fn showcase_mutations_keep_programs_readable() {
    for seed in SEEDS {
        let base = ImageProgram::from_text(seed).unwrap();
        check_readable(&base, "seed");
        for m in Mutation::showcase() {
            for _ in 0..10 {
                let q = m.apply(&base);
                check_readable(&q, &m.label());
            }
        }
    }
}

#[test]
fn random_compounds_keep_programs_readable() {
    for seed in SEEDS {
        let base = ImageProgram::from_text(seed).unwrap();
        for m in random_compounds(30) {
            check_readable(&m.apply(&base), &m.label());
        }
    }
}

#[test]
fn random_programs_read_back_to_themselves() {
    for c in [Complexity::Simple, Complexity::Normal, Complexity::Complex] {
        for _ in 0..30 {
            let p = random_program(c, None);
            check_readable(&p, "random program");
            assert!(p.rct.is_some());
        }
    }
}

#[test]
fn non_degenerate_search_steps() {
    let mut p = single_if(7);
    let before = p.clone();
    let lively: Vec<u8> = vec![0, 0, 0, 255, 200, 100, 50, 255];
    assert!(non_degenerate_step(&mut p, 0, Some(&lively), Complexity::Normal));
    assert_eq!(p, before);
    let flat: Vec<u8> = vec![5, 5, 5, 255, 5, 5, 5, 255];
    assert!(!non_degenerate_step(&mut p, 0, Some(&flat), Complexity::Normal));
    assert_eq!(p.root, before.root);
    assert!(RCT_POOL.contains(&p.rct.unwrap()));
    assert!(!non_degenerate_step(&mut p, CHEAP_REROLLS - 1, None, Complexity::Normal));
    assert_eq!(p.root, before.root);
    assert!(!non_degenerate_step(&mut p, CHEAP_REROLLS, None, Complexity::Simple));
    check_readable(&p, "redrawn program");
    assert_eq!(RETRY_LIMIT, 10);
}

#[test]
fn compound_retry_rule() {
    assert!(retry_compound(true, true, 0, 5));
    assert!(retry_compound(true, true, 4, 5));
    assert!(!retry_compound(true, true, 5, 5));
    assert!(!retry_compound(false, true, 0, 5));
    assert!(!retry_compound(true, false, 0, 5));
}

#[test]
fn tree_walks_in_preorder() {
    let p = ImageProgram::from_text(SEEDS[0]).unwrap();
    assert_eq!(collect_thresholds(&p.root), vec![150, 0, 500]);
    assert_eq!(collect_set_values(&p.root), vec![255]);
    assert_eq!(collect_offsets(&p.root), vec![0, -40, 3]);
    assert_eq!(count_conditions(&p.root), 3);
    assert_eq!(count_predictors(&p.root), 4);
    assert_eq!(count_all_nodes(&p.root), Some(7));
    let mut root = p.root.clone();
    tweak_all_offsets(&mut root, 10);
    assert_eq!(collect_offsets(&root), vec![10, -30, 13]);
}

#[test]
fn node_paths_and_subtree_swaps() {
    let p = single_if(7);
    let mut paths: Vec<Vec<bool>> = Vec::new();
    collect_node_paths(&p.root, &mut Vec::new(), &mut paths);
    assert_eq!(paths, vec![vec![], vec![true], vec![false]]);
    assert!(is_path_ancestor(&vec![], &vec![true]));
    assert!(!is_path_ancestor(&vec![true], &vec![true]));
    assert!(!is_path_ancestor(&vec![true], &vec![false, true]));
    assert!(is_path_ancestor(&vec![false], &vec![false, true]));
    let mut root = p.root.clone();
    swap_subtrees_at(&mut root, &vec![true], &vec![false]);
    let expected = Node::If {
        condition: Condition { var: Var::X, op: Op::Gt, threshold: 7 },
        on_true: Box::new(Node::Predict(Predictor::N(4))),
        on_false: Box::new(Node::Predict(Predictor::SetValue(10))),
    };
    assert_eq!(root, expected);
}

/// Walk the tree tracking each variable's [low, high] bound from the
/// conditions above on the same variable; a condition that is always true
/// or always false there is dead.
fn assert_no_dead(node: &Node, bounds: &mut HashMap<String, (i64, i64)>) -> Result<(), String> {
    if let Node::If { condition, on_true, on_false } = node {
        let key = condition.var.label().to_string();
        let t = condition.threshold;
        let orig = bounds.get(&key).copied();
        let (low, high) = orig.unwrap_or((i64::MIN, i64::MAX));
        if low > t {
            return Err(format!("always-true `{} > {}` (low={})", key, t, low));
        }
        if high <= t {
            return Err(format!("always-false `{} > {}` (high={})", key, t, high));
        }
        bounds.insert(key.clone(), (low.max(t.saturating_add(1)), high));
        assert_no_dead(on_true, bounds)?;
        bounds.insert(key.clone(), (low, high.min(t)));
        assert_no_dead(on_false, bounds)?;
        match orig {
            Some(v) => {
                bounds.insert(key, v);
            }
            None => {
                bounds.remove(&key);
            }
        }
    }
    Ok(())
}

#[test]
fn no_dead_conditions_after_generation_or_mutation() {
    let mut failures = Vec::new();
    for complexity in [Complexity::Simple, Complexity::Normal, Complexity::Complex] {
        for dims in [None, Some((1024, 576)), Some((576, 1024))] {
            for trial in 0..60 {
                let prog = random_program(complexity, dims);
                if let Err(e) = assert_no_dead(&prog.root, &mut HashMap::new()) {
                    failures.push(format!(
                        "gen {:?} dims={:?} trial {}: {}\n{}",
                        complexity,
                        dims,
                        trial,
                        e,
                        prog.to_text()
                    ));
                }
            }
        }
    }
    let mut seeds: Vec<&str> = SEEDS.to_vec();
    seeds.push(DEAD_SEED);
    let mut muts = Mutation::showcase();
    muts.extend(random_compounds(20));
    for m in &muts {
        for seed in &seeds {
            let baseline = ImageProgram::from_text(seed).unwrap();
            let out = m.apply(&baseline);
            if let Err(e) = assert_no_dead(&out.root, &mut HashMap::new()) {
                failures.push(format!("mut {} on {:?}: {}", m.label(), seed, e));
            }
        }
    }
    assert!(failures.is_empty(), "dead conditions found ({}):\n{}", failures.len(), failures.join("\n"));
}

/// A seed whose inner conditions on `x` are decided by the outer one.
const DEAD_SEED: &str = "if x > 100\n  if x > 50\n    - Set 1\n    - Set 2\n  if x > 200\n    - Set 3\n    - N 0\n";

#[test]
fn dead_conditions_are_pruned_to_the_side_they_take() {
    let p = ImageProgram::from_text(DEAD_SEED).unwrap();
    let q = ImageProgram::from_text("if x > 100\n  - Set 1\n  - N 0\n").unwrap();
    assert_eq!(simplify_degenerate(p.root.clone()), q.root);
    assert_eq!(simplify_degenerate(q.root.clone()), q.root);
    let up = Mutation::CycleUpsample.apply(&p);
    assert_eq!(up.root, q.root);
    let clean = ImageProgram::from_text(SEEDS[0]).unwrap();
    assert_eq!(Mutation::CycleRct.apply(&clean).root, clean.root);
}

#[test]
fn asked_for_canvas_sizes_are_kept() {
    for dims in [(1024, 576), (576, 1024), (300, 200)] {
        for _ in 0..20 {
            let p = random_program(Complexity::Normal, Some(dims));
            assert_eq!((p.width, p.height, p.bitdepth), (dims.0, dims.1, 8));
            assert!(p.extra_headers.iter().all(|h| ["Gaborish", "XYB", "DeltaPalette", "Squeeze"]
                .contains(&h.as_str())));
            check_readable(&p, "sized random program");
        }
    }
    for _ in 0..40 {
        let p = random_program(Complexity::Simple, None);
        assert!(
            (p.width, p.height, p.bitdepth) == (1024, 1024, 8)
                || ([64, 96, 128, 256].contains(&p.width) && p.height == p.width)
        );
    }
}

use artxl::tree::{Condition, Frame, ImageProgram, Node, Op, Predictor, Var};

const SAMPLE: &str = "Bitdepth 8\nWidth 256\nHeight 128\nRCT 1\nDeltaPalette\n\nif c > 0\n  if W > -5\n    - N + 3\n    - AvgW+N - 7\n  - Set -12\n";

fn leaf(p: Predictor) -> Node {
    Node::Predict(p)
}

fn branch(var: Var, threshold: i64, t: Node, f: Node) -> Node {
    Node::If {
        condition: Condition { var, op: Op::Gt, threshold },
        on_true: Box::new(t),
        on_false: Box::new(f),
    }
}

#[test]
fn sample_program_parses_into_its_fields() {
    let p = ImageProgram::from_text(SAMPLE).expect("sample parses");
    assert_eq!(p.width, 256);
    assert_eq!(p.height, 128);
    assert_eq!(p.bitdepth, 8);
    assert_eq!(p.channels, 3);
    assert_eq!(p.orientation, None);
    assert_eq!(p.rct, Some(1));
    assert_eq!(p.extra_headers, vec!["DeltaPalette".to_string()]);
    assert!(p.splines.is_empty());
    assert!(p.extra_frames.is_empty());
    let expected = branch(
        Var::C,
        0,
        branch(
            Var::W,
            -5,
            leaf(Predictor::N(3)),
            leaf(Predictor::Other { name: "AvgW+N".to_string(), offset: "- 7".to_string() }),
        ),
        leaf(Predictor::SetValue(-12)),
    );
    assert_eq!(p.root, expected);
}

#[test]
fn sample_program_prints_in_canonical_order() {
    let p = ImageProgram::from_text(SAMPLE).unwrap();
    assert_eq!(
        p.to_text(),
        "Bitdepth 8\nRCT 1\nWidth 256\nHeight 128\nDeltaPalette\n\nif c > 0\n  if W > -5\n    - N + 3\n    - AvgW+N - 7\n  - Set -12\n"
    );
}

#[test]
fn printed_program_reads_back_to_itself() {
    let p = ImageProgram::from_text(SAMPLE).unwrap();
    let again = ImageProgram::from_text(&p.to_text()).unwrap();
    assert_eq!(again, p);
    assert_eq!(again.to_text(), p.to_text());
}

#[test]
fn default_size_and_channels_are_not_printed() {
    let p = ImageProgram::from_text("Bitdepth 10\n- Set 0\n").unwrap();
    assert_eq!((p.width, p.height, p.channels), (1024, 1024, 3));
    assert_eq!(p.to_text(), "Bitdepth 10\n\n- Set 0\n");
    let q = ImageProgram::from_text("Channels 1\nOrientation 5\nHeight 1024\n- W 0\n").unwrap();
    assert_eq!(q.to_text(), "Bitdepth 8\nOrientation 5\nChannels 1\n\n- W 0\n");
}

#[test]
fn block_comments_are_stripped() {
    let p = ImageProgram::from_text("/* a comment */Bitdepth 8\nif x > 3 /* why */\n - Set 1\n - Set 2\n").unwrap();
    assert_eq!(p.root, branch(Var::X, 3, leaf(Predictor::SetValue(1)), leaf(Predictor::SetValue(2))));
}

#[test]
fn splines_are_kept_verbatim() {
    let p = ImageProgram::from_text("Spline\n0 0 0\nEndSpline\n\n- Set 0\n").unwrap();
    assert_eq!(p.splines, vec!["Spline\n0 0 0\nEndSpline".to_string()]);
    assert_eq!(p.to_text(), "Bitdepth 8\n\nSpline\n0 0 0\nEndSpline\n\n- Set 0\n");
}

#[test]
fn not_last_frames_are_read_and_printed() {
    let text = "Bitdepth 8\nNotLast\n\n- Set 0\n\nFramePos 10 20\n\n- N 0\n";
    let p = ImageProgram::from_text(text).unwrap();
    assert_eq!(
        p.extra_frames,
        vec![Frame {
            extra_headers: vec!["FramePos 10 20".to_string()],
            splines: vec![],
            root: leaf(Predictor::N(0)),
        }]
    );
    assert_eq!(p.to_text(), text);
}

#[test]
fn text_after_the_last_frame_is_ignored() {
    let p = ImageProgram::from_text("Bitdepth 8\n- Set 0\nif W > 73\n").unwrap();
    assert_eq!(p.root, leaf(Predictor::SetValue(0)));
    assert!(p.extra_frames.is_empty());
}

#[test]
fn offsets_in_every_spelling() {
    let p = ImageProgram::from_text(
        "if x > 1\n if y > 2\n  - W 0\n  - N +137\n if c > 3\n  - Weighted -195\n  - Gradient + 5\n",
    )
    .unwrap();
    let expected = branch(
        Var::X,
        1,
        branch(Var::Y, 2, leaf(Predictor::W(0)), leaf(Predictor::N(137))),
        branch(
            Var::C,
            3,
            leaf(Predictor::Weighted(-195)),
            leaf(Predictor::Other { name: "Gradient".to_string(), offset: "+ 5".to_string() }),
        ),
    );
    assert_eq!(p.root, expected);
}

#[test]
fn parse_errors_name_the_fault() {
    let cases: [(&str, &str); 10] = [
        ("Foo 3\n- Set 0\n", "unknown directive 'Foo' in header"),
        ("Bitdepth 8\n", "program has no tree body"),
        ("if x > abc\n - Set 0\n - Set 1\n", "bad threshold: 'abc'"),
        ("if x > 1\n zap\n", "expected 'if' or '-', got 'zap'"),
        ("if x > 1\n - Set 0\n", "unexpected end of input while parsing node"),
        ("NotLast\n- Set 0\n", "NotLast frame is missing its following frame"),
        ("Bitdepth zz\n- Set 0\n", "bad Bitdepth: zz"),
        ("Width\n- Set 0\n", "expected value after 'Width'"),
        ("- N ?\n", "expected '0', '+', '-', or signed int for offset, got '?'"),
        ("- Set\n", "expected value after 'Set'"),
    ];
    for (text, msg) in cases {
        assert_eq!(ImageProgram::from_text(text), Err(msg.to_string()), "input {:?}", text);
    }
}

#[test]
fn labels_of_variables_conditions_and_predictors() {
    assert_eq!(Var::X.label(), "x");
    assert_eq!(Var::WGH.label(), "WGH");
    assert_eq!(Var::Other("W+N-NW".to_string()).label(), "W+N-NW");
    let c = Condition { var: Var::Y, op: Op::Gt, threshold: -3 };
    assert_eq!(c.label(), "y > -3");
    assert_eq!(Predictor::SetValue(7).label(), "Set 7");
    assert_eq!(Predictor::N(0).label(), "N 0");
    assert_eq!(Predictor::W(5).label(), "W + 5");
    assert_eq!(Predictor::AvgNNW(-4).label(), "AvgN+NW - 4");
    assert_eq!(Predictor::AvgNNE(1).label(), "AvgN+NE + 1");
    assert_eq!(Predictor::AvgWNW(0).label(), "AvgW+NW 0");
    assert_eq!(Predictor::Weighted(-1).label(), "Weighted - 1");
    assert_eq!(
        Predictor::Other { name: "Select".to_string(), offset: "- 12".to_string() }.label(),
        "Select - 12"
    );
}

#[test]
fn a_spline_line_ending_in_two_carriage_returns_loses_one_when_read_back() {
    let p1 = ImageProgram::from_text("Spline\n0 0 0\r\r\nEndSpline\n- Set 0\n").unwrap();
    assert_eq!(p1.splines, vec!["Spline\n0 0 0\r\nEndSpline".to_string()]);
    let text2 = p1.to_text();
    let p2 = ImageProgram::from_text(&text2).unwrap();
    assert_eq!(p2.splines, vec!["Spline\n0 0 0\nEndSpline".to_string()]);
    assert_ne!(p2.to_text(), text2);
}

#[test]
fn an_unpaired_comment_opener_in_a_header_reads_back() {
    let p1 = ImageProgram::from_text("XYB /*\n- Set 0\n").unwrap();
    assert_eq!(p1.extra_headers, vec!["XYB /*".to_string()]);
    let text2 = p1.to_text();
    let p2 = ImageProgram::from_text(&text2).unwrap();
    assert_eq!(p2, p1);
    assert_eq!(p2.to_text(), text2);
}

#[test]
fn an_unpaired_comment_opener_in_a_spline_gains_a_space_each_round() {
    let p1 = ImageProgram::from_text("Spline\nx /*\nEndSpline\n- Set 0\n").unwrap();
    assert_eq!(p1.splines, vec!["Spline\nx  /*\nEndSpline".to_string()]);
    let p2 = ImageProgram::from_text(&p1.to_text()).unwrap();
    assert_eq!(p2.splines, vec!["Spline\nx   /*\nEndSpline".to_string()]);
    assert_ne!(p2, p1);
}

#[test]
fn a_comment_opener_that_printing_moves_before_a_closer_breaks_the_text() {
    let p1 = ImageProgram::from_text("Spline\nx */\nEndSpline\nXYB /*\n- Set 0\n").unwrap();
    assert_eq!(p1.extra_headers, vec!["XYB /*".to_string()]);
    assert_eq!(p1.splines, vec!["Spline\nx */\nEndSpline".to_string()]);
    assert_eq!(
        ImageProgram::from_text(&p1.to_text()),
        Err("unknown directive 'EndSpline' in header".to_string())
    );
}

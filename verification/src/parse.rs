//! Reading the jxl-art text format back into an [`ImageProgram`].
//!
//! Every step has a spec function that states what it computes; the
//! executable parser is proved to return exactly `parse_program` of its
//! input, errors included.

use vstd::prelude::*;

use crate::text::{
    all_digits, chars_to_string, lemma_views_push, lines, parse_i64, parse_i64_chars, parse_u32, parse_u32_chars,
    push_str, split_lines, str_chars, strip_block_comments, strip_comments, tokenize, tokens,
    views,
};
use crate::tree::{
    Condition, CondV, Frame, FrameV, ImageProgram, Node, NodeV, Op, PredV, Predictor, ProgramV,
    Var, VarV, string_views,
};

verus! {

// ── Words ─────────────────────────────────────────────────────────────────────

/// `tokens` joined by the separator `sep`.
pub open spec fn join_with(ws: Seq<Seq<char>>, sep: char) -> Seq<char>
    decreases ws.len(),
{
    if ws.len() == 0 {
        seq![]
    } else if ws.len() == 1 {
        ws[0]
    } else {
        join_with(ws.drop_last(), sep) + seq![sep] + ws.last()
    }
}

/// The header directives passed through verbatim.
pub open spec fn is_extra_key(k: Seq<char>) -> bool {
    ||| k == "Squeeze"@
    ||| k == "DeltaPalette"@
    ||| k == "Gaborish"@
    ||| k == "XYB"@
    ||| k == "XYBFactors"@
    ||| k == "Alpha"@
    ||| k == "NotLast"@
    ||| k == "EPF"@
    ||| k == "Upsample"@
    ||| k == "HiddenChannel"@
    ||| k == "Rec2100"@
    ||| k == "Noise"@
    ||| k == "FramePos"@
    ||| k == "SplineQuantizationAdjustment"@
    ||| k == "CbYCr"@
    ||| k == "PQ"@
    ||| k == "GroupShift"@
    ||| k == "FloatExpBits"@
}

/// Every header directive the format knows.
pub open spec fn is_recognised_key(k: Seq<char>) -> bool {
    ||| k == "Bitdepth"@
    ||| k == "Width"@
    ||| k == "Height"@
    ||| k == "Channels"@
    ||| k == "Orientation"@
    ||| k == "RCT"@
    ||| is_extra_key(k)
}

/// Whether the line's first word is `w`.
pub open spec fn starts_with_word(l: Seq<char>, w: Seq<char>) -> bool {
    tokens(l).len() > 0 && tokens(l)[0] == w
}

/// A frame is followed by another iff one of its header lines is `NotLast`.
pub open spec fn has_notlast(hs: Seq<Seq<char>>) -> bool
    decreases hs.len(),
{
    if hs.len() == 0 {
        false
    } else {
        has_notlast(hs.drop_last()) || starts_with_word(hs.last(), "NotLast"@)
    }
}

/// Index just past the line that ends a spline block whose body starts at
/// line `j` (the first line holding the word `EndSpline`), or the end.
pub open spec fn spline_end(ls: Seq<Seq<char>>, j: int) -> int
    decreases ls.len() - j,
{
    if j >= ls.len() {
        j
    } else if tokens(ls[j]).contains("EndSpline"@) {
        j + 1
    } else {
        spline_end(ls, j + 1)
    }
}

pub proof fn lemma_spline_end(ls: Seq<Seq<char>>, j: int)
    requires
        0 <= j <= ls.len(),
    ensures
        j <= spline_end(ls, j) <= ls.len(),
    decreases ls.len() - j,
{
    if j < ls.len() && !tokens(ls[j]).contains("EndSpline"@) {
        lemma_spline_end(ls, j + 1);
    }
}

// ── Messages ──────────────────────────────────────────────────────────────────

pub open spec fn quoted(pre: Seq<char>, w: Seq<char>, post: Seq<char>) -> Seq<char> {
    pre + w + post
}

fn msg(pre: &str, w: &Vec<char>, post: &str) -> (r: Vec<char>)
    ensures
        r@ == quoted(pre@, w@, post@),
{
    let mut r = prefixed(pre, w);
    push_str(&mut r, post);
    r
}

fn prefixed(pre: &str, w: &Vec<char>) -> (r: Vec<char>)
    ensures
        r@ == pre@ + w@,
{
    let mut r: Vec<char> = Vec::new();
    push_str(&mut r, pre);
    append_chars(&mut r, w);
    r
}

fn lit(s: &str) -> (r: Vec<char>)
    ensures
        r@ == s@,
{
    str_chars(s)
}

/// Whether `tok` spells `w`.
pub(crate) fn is_word(tok: &Vec<char>, w: &str) -> (r: bool)
    ensures
        r == (tok@ == w@),
{
    let wc = str_chars(w);
    if tok.len() != wc.len() {
        return false;
    }
    let mut k: usize = 0;
    while k < tok.len()
        invariant
            k <= tok@.len(),
            tok@.len() == wc@.len(),
            wc@ == w@,
            forall|j: int| 0 <= j < k ==> tok@[j] == wc@[j],
        decreases tok@.len() - k,
    {
        if tok[k] != wc[k] {
            return false;
        }
        k = k + 1;
    }
    assert(tok@ =~= wc@);
    true
}

fn is_extra_key_exec(k: &Vec<char>) -> (r: bool)
    ensures
        r == is_extra_key(k@),
{
    is_word(k, "Squeeze") || is_word(k, "DeltaPalette") || is_word(k, "Gaborish") || is_word(
        k,
        "XYB",
    ) || is_word(k, "XYBFactors") || is_word(k, "Alpha") || is_word(k, "NotLast") || is_word(
        k,
        "EPF",
    ) || is_word(k, "Upsample") || is_word(k, "HiddenChannel") || is_word(k, "Rec2100")
        || is_word(k, "Noise") || is_word(k, "FramePos") || is_word(
        k,
        "SplineQuantizationAdjustment",
    ) || is_word(k, "CbYCr") || is_word(k, "PQ") || is_word(k, "GroupShift") || is_word(
        k,
        "FloatExpBits",
    )
}

fn is_recognised_key_exec(k: &Vec<char>) -> (r: bool)
    ensures
        r == is_recognised_key(k@),
{
    is_word(k, "Bitdepth") || is_word(k, "Width") || is_word(k, "Height") || is_word(k, "Channels")
        || is_word(k, "Orientation") || is_word(k, "RCT") || is_extra_key_exec(k)
}

fn copy_chars(w: &Vec<char>) -> (r: Vec<char>)
    ensures
        r@ == w@,
{
    let mut r: Vec<char> = Vec::new();
    let mut j: usize = 0;
    while j < w.len()
        invariant
            j <= w@.len(),
            r@ == w@.take(j as int),
        decreases w@.len() - j,
    {
        r.push(w[j]);
        j = j + 1;
        assert(r@ =~= w@.take(j as int));
    }
    assert(w@.take(w@.len() as int) =~= w@);
    r
}

fn append_chars(r: &mut Vec<char>, w: &Vec<char>)
    ensures
        final(r)@ == old(r)@ + w@,
{
    let ghost start = r@;
    let mut j: usize = 0;
    while j < w.len()
        invariant
            j <= w@.len(),
            r@ == start + w@.take(j as int),
        decreases w@.len() - j,
    {
        r.push(w[j]);
        j = j + 1;
        assert(r@ =~= start + w@.take(j as int));
    }
    assert(w@.take(w@.len() as int) =~= w@);
}

/// `ws[from..to]` joined by `sep`.
fn join_range(ws: &Vec<Vec<char>>, from: usize, to: usize, sep: char) -> (r: Vec<char>)
    requires
        from <= to <= ws@.len(),
    ensures
        r@ == join_with(views(ws@).subrange(from as int, to as int), sep),
{
    let ghost all = views(ws@).subrange(from as int, to as int);
    let mut r: Vec<char> = Vec::new();
    let mut k: usize = from;
    while k < to
        invariant
            from <= k <= to,
            to <= ws@.len(),
            all == views(ws@).subrange(from as int, to as int),
            r@ == join_with(all.take(k - from), sep),
        decreases to - k,
    {
        if k > from {
            r.push(sep);
        }
        append_chars(&mut r, &ws[k]);
        assert(all.take(k - from + 1).drop_last() =~= all.take(k - from));
        assert(all.take(k - from + 1).last() == ws@[k as int]@);
        k = k + 1;
        assert(r@ =~= join_with(all.take(k - from), sep));
    }
    assert(all.take(to - from) =~= all);
    r
}

// ── Trees ─────────────────────────────────────────────────────────────────────

/// A condition variable from its word; unknown words are kept verbatim.
pub open spec fn parse_var(s: Seq<char>) -> VarV {
    if s == "x"@ {
        VarV::X
    } else if s == "y"@ {
        VarV::Y
    } else if s == "c"@ {
        VarV::C
    } else if s == "W"@ {
        VarV::W
    } else if s == "N"@ {
        VarV::N
    } else if s == "WGH"@ {
        VarV::WGH
    } else {
        VarV::Other(s)
    }
}

/// `"42"`, `"+137"`, `"-195"`: an optional sign and at least one digit.
pub open spec fn is_signed_int(s: Seq<char>) -> bool {
    s.len() > 0 && {
        let rest = if s[0] == '+' || s[0] == '-' {
            s.drop_first()
        } else {
            s
        };
        rest.len() > 0 && all_digits(rest)
    }
}

/// `-n` as a release build computes it (`i64::MIN` stays put).
pub open spec fn wrapping_neg(n: i64) -> i64 {
    if n == i64::MIN {
        n
    } else {
        (-n) as i64
    }
}

/// The offset after a predictor name at `pos`: its value, its source text
/// and the position after it.
pub open spec fn parse_offset(name: Seq<char>, toks: Seq<Seq<char>>, pos: int) -> Result<
    (i64, Seq<char>, int),
    Seq<char>,
> {
    if pos < 0 || pos >= toks.len() {
        Err(quoted("expected offset after '"@, name, "'"@))
    } else {
        let so = toks[pos];
        if so == "0"@ {
            Ok((0, "0"@, pos + 1))
        } else if so == "+"@ || so == "-"@ {
            if pos + 1 >= toks.len() {
                Err(if so == "+"@ {
                    "expected magnitude after '+'"@
                } else {
                    "expected magnitude after '-'"@
                })
            } else {
                let mag = toks[pos + 1];
                match parse_i64(mag) {
                    None => Err(quoted("bad magnitude: '"@, mag, "'"@)),
                    Some(n) => if so == "+"@ {
                        Ok((n, "+ "@ + mag, pos + 2))
                    } else {
                        Ok((wrapping_neg(n), "- "@ + mag, pos + 2))
                    },
                }
            }
        } else if is_signed_int(so) {
            match parse_i64(so) {
                None => Err(quoted("bad offset: '"@, so, "'"@)),
                Some(n) => Ok((n, so, pos + 1)),
            }
        } else {
            Err(quoted("expected '0', '+', '-', or signed int for offset, got '"@, so, "'"@))
        }
    }
}

/// A predictor leaf whose name has been read, its arguments starting at `pos`.
pub open spec fn parse_pred(name: Seq<char>, toks: Seq<Seq<char>>, pos: int) -> Result<
    (PredV, int),
    Seq<char>,
> {
    if name == "Set"@ {
        if pos < 0 || pos >= toks.len() {
            Err("expected value after 'Set'"@)
        } else {
            let first = toks[pos];
            if first == "-"@ || first == "+"@ {
                if pos + 1 >= toks.len() {
                    Err(quoted("expected magnitude after Set sign '"@, first, "'"@))
                } else {
                    let mag = toks[pos + 1];
                    match parse_i64(mag) {
                        None => Err(quoted("bad Set magnitude: '"@, mag, "'"@)),
                        Some(m) => Ok(
                            (
                                PredV::SetValue(
                                    if first == "-"@ {
                                        wrapping_neg(m)
                                    } else {
                                        m
                                    },
                                ),
                                pos + 2,
                            ),
                        ),
                    }
                }
            } else {
                match parse_i64(first) {
                    None => Err(quoted("bad Set value: '"@, first, "'"@)),
                    Some(v) => Ok((PredV::SetValue(v), pos + 1)),
                }
            }
        }
    } else {
        match parse_offset(name, toks, pos) {
            Err(e) => Err(e),
            Ok((o, raw, p)) => Ok(
                (
                    if name == "N"@ {
                        PredV::N(o)
                    } else if name == "W"@ {
                        PredV::W(o)
                    } else if name == "AvgN+NW"@ {
                        PredV::AvgNNW(o)
                    } else if name == "AvgN+NE"@ {
                        PredV::AvgNNE(o)
                    } else if name == "AvgW+NW"@ {
                        PredV::AvgWNW(o)
                    } else if name == "Weighted"@ {
                        PredV::Weighted(o)
                    } else {
                        PredV::Other(name, raw)
                    },
                    p,
                ),
            ),
        }
    }
}

/// One node (an `if` branch or a `-` leaf) read from the words at `pos`,
/// with the position after it.
pub open spec fn parse_node(toks: Seq<Seq<char>>, pos: int) -> Result<(NodeV, int), Seq<char>>
    decreases toks.len() - pos,
{
    if pos < 0 || pos >= toks.len() {
        Err("unexpected end of input while parsing node"@)
    } else {
        let tok = toks[pos];
        let p = pos + 1;
        if tok == "if"@ {
            if p >= toks.len() {
                Err("expected variable name after 'if'"@)
            } else if p + 1 >= toks.len() {
                Err("expected operator after variable"@)
            } else if p + 2 >= toks.len() {
                Err("expected threshold value"@)
            } else {
                let var_str = toks[p];
                let op_str = toks[p + 1];
                let thr_str = toks[p + 2];
                if op_str != ">"@ {
                    Err(quoted("only '>' operator is supported, got '"@, op_str, "'"@))
                } else {
                    match parse_i64(thr_str) {
                        None => Err(quoted("bad threshold: '"@, thr_str, "'"@)),
                        Some(t) => match parse_node(toks, p + 3) {
                            Err(e) => Err(e),
                            Ok((tn, p1)) => if pos < p1 <= toks.len() {
                                match parse_node(toks, p1) {
                                    Err(e) => Err(e),
                                    Ok((fnode, p2)) => Ok(
                                        (
                                            NodeV::If(
                                                CondV { var: parse_var(var_str), threshold: t },
                                                Box::new(tn),
                                                Box::new(fnode),
                                            ),
                                            p2,
                                        ),
                                    ),
                                }
                            } else {
                                Err(seq![])
                            },
                        },
                    }
                }
            }
        } else if tok == "-"@ {
            if p >= toks.len() {
                Err("expected predictor name after '-'"@)
            } else {
                match parse_pred(toks[p], toks, p + 1) {
                    Err(e) => Err(e),
                    Ok((pr, p2)) => Ok((NodeV::Leaf(pr), p2)),
                }
            }
        } else {
            Err(quoted("expected 'if' or '-', got '"@, tok, "'"@))
        }
    }
}

/// A `Set` leaf written with its sign as a word of its own, `- Set - N` or
/// `- Set + N`, reads as the value `N` negated exactly when the sign word is
/// `-` (`i64::MIN` negates to itself), and takes four words.
pub proof fn set_sign_word_law(toks: Seq<Seq<char>>, pos: int, n: i64)
    requires
        0 <= pos,
        pos + 4 <= toks.len(),
        toks[pos] == "-"@,
        toks[pos + 1] == "Set"@,
        toks[pos + 2] == "-"@ || toks[pos + 2] == "+"@,
        parse_i64(toks[pos + 3]) == Some(n),
    ensures
        parse_node(toks, pos) matches Ok((NodeV::Leaf(PredV::SetValue(v)), q)) && q == pos + 4 && (
        toks[pos + 2] == "+"@ ==> v == n) && (toks[pos + 2] == "-"@ && n != i64::MIN ==> v == -n)
            && (toks[pos + 2] == "-"@ && n == i64::MIN ==> v == n),
{
    reveal_strlit("-");
    reveal_strlit("+");
    reveal_strlit("Set");
    reveal_strlit("if");
    assert("-"@ != "+"@);
    assert(toks[pos] != "if"@);
}

/// A neighbour-based leaf written with its offset's sign as a word of its
/// own, such as `- N - 30` or `- Weighted + 10`, reads as that predictor with
/// the magnitude as offset, negated exactly when the sign word is `-`
/// (`i64::MIN` negates to itself), and takes four words.
pub proof fn offset_sign_word_law(toks: Seq<Seq<char>>, pos: int, n: i64)
    requires
        0 <= pos,
        pos + 4 <= toks.len(),
        toks[pos] == "-"@,
        toks[pos + 1] == "N"@ || toks[pos + 1] == "W"@ || toks[pos + 1] == "AvgN+NW"@ || toks[pos + 1]
            == "AvgN+NE"@ || toks[pos + 1] == "AvgW+NW"@ || toks[pos + 1] == "Weighted"@,
        toks[pos + 2] == "-"@ || toks[pos + 2] == "+"@,
        parse_i64(toks[pos + 3]) == Some(n),
    ensures
        ({
            let name = toks[pos + 1];
            let v: i64 = if toks[pos + 2] == "-"@ && n != i64::MIN {
                (-n) as i64
            } else {
                n
            };
            parse_node(toks, pos) == Ok::<(NodeV, int), Seq<char>>(
                (
                    NodeV::Leaf(
                        if name == "N"@ {
                            PredV::N(v)
                        } else if name == "W"@ {
                            PredV::W(v)
                        } else if name == "AvgN+NW"@ {
                            PredV::AvgNNW(v)
                        } else if name == "AvgN+NE"@ {
                            PredV::AvgNNE(v)
                        } else if name == "AvgW+NW"@ {
                            PredV::AvgWNW(v)
                        } else {
                            PredV::Weighted(v)
                        },
                    ),
                    pos + 4,
                ),
            )
        }),
{
    reveal_strlit("-");
    reveal_strlit("+");
    reveal_strlit("0");
    reveal_strlit("Set");
    reveal_strlit("if");
    reveal_strlit("N");
    reveal_strlit("W");
    reveal_strlit("AvgN+NW");
    reveal_strlit("AvgN+NE");
    reveal_strlit("AvgW+NW");
    reveal_strlit("Weighted");
    assert("-"@ != "+"@);
    assert(toks[pos] != "if"@);
    assert(toks[pos + 1] != "Set"@) by {
        assert("Set"@.len() == 3);
        assert("Set"@[0] == 'S');
        assert("AvgN+NW"@[0] == 'A' && "AvgN+NE"@[0] == 'A' && "AvgW+NW"@[0] == 'A');
    }
    assert(toks[pos + 2] != "0"@) by {
        assert("0"@[0] == '0');
    }
}

fn parse_var_exec(s: &Vec<char>) -> (v: Var)
    ensures
        v@ == parse_var(s@),
{
    if is_word(s, "x") {
        Var::X
    } else if is_word(s, "y") {
        Var::Y
    } else if is_word(s, "c") {
        Var::C
    } else if is_word(s, "W") {
        Var::W
    } else if is_word(s, "N") {
        Var::N
    } else if is_word(s, "WGH") {
        Var::WGH
    } else {
        Var::Other(chars_to_string(s))
    }
}

fn all_digits_from(s: &Vec<char>, from: usize) -> (r: bool)
    requires
        from <= s@.len(),
    ensures
        r == all_digits(s@.skip(from as int)),
{
    let n = s.len();
    let mut k = from;
    while k < n
        invariant
            from <= k <= n,
            n == s@.len(),
            forall|j: int| from <= j < k ==> crate::text::is_digit(#[trigger] s@[j]),
        decreases n - k,
    {
        if !('0' <= s[k] && s[k] <= '9') {
            assert(s@.skip(from as int)[k - from] == s@[k as int]);
            return false;
        }
        k = k + 1;
    }
    assert forall|j: int| 0 <= j < s@.skip(from as int).len() implies crate::text::is_digit(
        #[trigger] s@.skip(from as int)[j],
    ) by {
        assert(s@.skip(from as int)[j] == s@[j + from]);
    }
    true
}

fn is_signed_int_exec(s: &Vec<char>) -> (r: bool)
    ensures
        r == is_signed_int(s@),
{
    let n = s.len();
    if n == 0 {
        return false;
    }
    assert(s@.drop_first() =~= s@.skip(1));
    assert(s@ =~= s@.skip(0));
    let from: usize = if s[0] == '+' || s[0] == '-' {
        1
    } else {
        0
    };
    if from >= n {
        return false;
    }
    all_digits_from(s, from)
}

pub fn wrapping_neg_exec(n: i64) -> (r: i64)
    ensures
        r == wrapping_neg(n),
{
    if n == i64::MIN {
        n
    } else {
        -n
    }
}

fn parse_offset_exec(name: &Vec<char>, toks: &Vec<Vec<char>>, pos: usize) -> (r: Result<
    (i64, Vec<char>, usize),
    Vec<char>,
>)
    ensures
        match r {
            Ok((o, raw, p)) => parse_offset(name@, views(toks@), pos as int) == Ok::<_, Seq<char>>(
                (o, raw@, p as int),
            ) && pos < p <= toks@.len(),
            Err(e) => parse_offset(name@, views(toks@), pos as int) == Err::<(i64, Seq<char>, int), _>(e@),
        },
{
    let ghost tv = views(toks@);
    if pos >= toks.len() {
        return Err(msg("expected offset after '", name, "'"));
    }
    let so = &toks[pos];
    assert(tv[pos as int] == so@);
    if is_word(so, "0") {
        Ok((0, lit("0"), pos + 1))
    } else if is_word(so, "+") || is_word(so, "-") {
        let plus = is_word(so, "+");
        if pos + 1 >= toks.len() {
            if plus {
                return Err(lit("expected magnitude after '+'"));
            } else {
                return Err(lit("expected magnitude after '-'"));
            }
        }
        let mag = &toks[pos + 1];
        assert(tv[pos + 1] == mag@);
        match parse_i64_chars(mag) {
            None => Err(msg("bad magnitude: '", mag, "'")),
            Some(n) => {
                if plus {
                    let raw = prefixed("+ ", mag);
                    Ok((n, raw, pos + 2))
                } else {
                    let raw = prefixed("- ", mag);
                    Ok((wrapping_neg_exec(n), raw, pos + 2))
                }
            },
        }
    } else if is_signed_int_exec(so) {
        match parse_i64_chars(so) {
            None => Err(msg("bad offset: '", so, "'")),
            Some(n) => {
                let raw = copy_chars(so);
                Ok((n, raw, pos + 1))
            },
        }
    } else {
        Err(msg("expected '0', '+', '-', or signed int for offset, got '", so, "'"))
    }
}

fn parse_pred_exec(name: &Vec<char>, toks: &Vec<Vec<char>>, pos: usize) -> (r: Result<
    (Predictor, usize),
    Vec<char>,
>)
    ensures
        match r {
            Ok((pr, p)) => parse_pred(name@, views(toks@), pos as int) == Ok::<_, Seq<char>>(
                (pr@, p as int),
            ) && pos < p <= toks@.len(),
            Err(e) => parse_pred(name@, views(toks@), pos as int) == Err::<(PredV, int), _>(e@),
        },
{
    let ghost tv = views(toks@);
    if is_word(name, "Set") {
        if pos >= toks.len() {
            return Err(lit("expected value after 'Set'"));
        }
        let first = &toks[pos];
        assert(tv[pos as int] == first@);
        if is_word(first, "-") || is_word(first, "+") {
            if pos + 1 >= toks.len() {
                return Err(msg("expected magnitude after Set sign '", first, "'"));
            }
            let mag = &toks[pos + 1];
            assert(tv[pos + 1] == mag@);
            match parse_i64_chars(mag) {
                None => Err(msg("bad Set magnitude: '", mag, "'")),
                Some(m) => {
                    let v = if is_word(first, "-") {
                        wrapping_neg_exec(m)
                    } else {
                        m
                    };
                    Ok((Predictor::SetValue(v), pos + 2))
                },
            }
        } else {
            match parse_i64_chars(first) {
                None => Err(msg("bad Set value: '", first, "'")),
                Some(v) => Ok((Predictor::SetValue(v), pos + 1)),
            }
        }
    } else {
        match parse_offset_exec(name, toks, pos) {
            Err(e) => Err(e),
            Ok((o, raw, p)) => {
                let pr = if is_word(name, "N") {
                    Predictor::N(o)
                } else if is_word(name, "W") {
                    Predictor::W(o)
                } else if is_word(name, "AvgN+NW") {
                    Predictor::AvgNNW(o)
                } else if is_word(name, "AvgN+NE") {
                    Predictor::AvgNNE(o)
                } else if is_word(name, "AvgW+NW") {
                    Predictor::AvgWNW(o)
                } else if is_word(name, "Weighted") {
                    Predictor::Weighted(o)
                } else {
                    Predictor::Other { name: chars_to_string(name), offset: chars_to_string(&raw) }
                };
                Ok((pr, p))
            },
        }
    }
}

fn parse_node_exec(toks: &Vec<Vec<char>>, pos: usize) -> (r: Result<(Node, usize), Vec<char>>)
    ensures
        match r {
            Ok((n, p)) => parse_node(views(toks@), pos as int) == Ok::<_, Seq<char>>(
                (n@, p as int),
            ) && pos < p <= toks@.len(),
            Err(e) => parse_node(views(toks@), pos as int) == Err::<(NodeV, int), _>(e@),
        },
    decreases toks@.len() - pos,
{
    let ghost tv = views(toks@);
    if pos >= toks.len() {
        return Err(lit("unexpected end of input while parsing node"));
    }
    let tok = &toks[pos];
    assert(tv[pos as int] == tok@);
    let p = pos + 1;
    if is_word(tok, "if") {
        if p >= toks.len() {
            return Err(lit("expected variable name after 'if'"));
        }
        if p + 1 >= toks.len() {
            return Err(lit("expected operator after variable"));
        }
        if p + 2 >= toks.len() {
            return Err(lit("expected threshold value"));
        }
        let var_str = &toks[p];
        let op_str = &toks[p + 1];
        let thr_str = &toks[p + 2];
        assert(tv[p as int] == var_str@ && tv[p + 1] == op_str@ && tv[p + 2] == thr_str@);
        if !is_word(op_str, ">") {
            return Err(msg("only '>' operator is supported, got '", op_str, "'"));
        }
        let var = parse_var_exec(var_str);
        let threshold = match parse_i64_chars(thr_str) {
            None => {
                return Err(msg("bad threshold: '", thr_str, "'"));
            },
            Some(t) => t,
        };
        let condition = Condition { var, op: Op::Gt, threshold };
        let (on_true, p1) = match parse_node_exec(toks, p + 3) {
            Err(e) => {
                return Err(e);
            },
            Ok(x) => x,
        };
        let (on_false, p2) = match parse_node_exec(toks, p1) {
            Err(e) => {
                return Err(e);
            },
            Ok(x) => x,
        };
        let n = Node::If { condition, on_true: Box::new(on_true), on_false: Box::new(on_false) };
        Ok((n, p2))
    } else if is_word(tok, "-") {
        if p >= toks.len() {
            return Err(lit("expected predictor name after '-'"));
        }
        let name = &toks[p];
        assert(tv[p as int] == name@);
        match parse_pred_exec(name, toks, p + 1) {
            Err(e) => Err(e),
            Ok((pr, p2)) => Ok((Node::Predict(pr), p2)),
        }
    } else {
        Err(msg("expected 'if' or '-', got '", tok, "'"))
    }
}


// ── Token stream ──────────────────────────────────────────────────────────────

/// The words of lines `i..`, in order.
pub open spec fn stream_toks(ls: Seq<Seq<char>>, i: int) -> Seq<Seq<char>>
    decreases ls.len() - i,
{
    if i < 0 || i >= ls.len() {
        seq![]
    } else {
        tokens(ls[i]) + stream_toks(ls, i + 1)
    }
}

/// The line of each word of `stream_toks(ls, i)`.
pub open spec fn stream_lines(ls: Seq<Seq<char>>, i: int) -> Seq<int>
    decreases ls.len() - i,
{
    if i < 0 || i >= ls.len() {
        seq![]
    } else {
        Seq::new(tokens(ls[i]).len(), |k: int| i) + stream_lines(ls, i + 1)
    }
}

pub proof fn lemma_stream(ls: Seq<Seq<char>>, i: int)
    requires
        0 <= i <= ls.len(),
    ensures
        stream_lines(ls, i).len() == stream_toks(ls, i).len(),
        forall|k: int|
            0 <= k < stream_lines(ls, i).len() ==> i <= #[trigger] stream_lines(ls, i)[k] < ls.len(),
    decreases ls.len() - i,
{
    if i < ls.len() {
        lemma_stream(ls, i + 1);
        let a = Seq::new(tokens(ls[i]).len(), |k: int| i);
        let b = stream_lines(ls, i + 1);
        assert forall|k: int| 0 <= k < (a + b).len() implies i <= #[trigger] (a + b)[k] < ls.len() by {
            if k >= a.len() {
                assert((a + b)[k] == b[k - a.len()]);
            }
        }
    }
}

/// One tree read from the words of lines `i..`, with the line of the first
/// word after it (or the end).
pub open spec fn parse_tree_at(ls: Seq<Seq<char>>, i: int) -> Result<(NodeV, int), Seq<char>> {
    let toks = stream_toks(ls, i);
    if toks.len() == 0 {
        Err("program has no tree body"@)
    } else {
        match parse_node(toks, 0) {
            Err(e) => Err(e),
            Ok((n, pos)) => Ok(
                (
                    n,
                    if pos < toks.len() {
                        stream_lines(ls, i)[pos]
                    } else {
                        ls.len() as int
                    },
                ),
            ),
        }
    }
}

// ── Headers ───────────────────────────────────────────────────────────────────

/// The first frame's header as read so far.
pub struct HeaderV {
    pub bitdepth: u32,
    pub width: u32,
    pub height: u32,
    pub channels: u32,
    pub orientation: Option<u32>,
    pub rct: Option<u32>,
    pub headers: Seq<Seq<char>>,
    pub splines: Seq<Seq<char>>,
}

/// The values a program has when its header does not set them.
pub open spec fn default_header() -> HeaderV {
    HeaderV {
        bitdepth: 8,
        width: 1024,
        height: 1024,
        channels: 3,
        orientation: None,
        rct: None,
        headers: seq![],
        splines: seq![],
    }
}

/// The number after a structured directive.
pub open spec fn u32_arg(rest: Seq<Seq<char>>, key: Seq<char>) -> Result<u32, Seq<char>> {
    if rest.len() == 0 {
        Err(quoted("expected value after '"@, key, "'"@))
    } else {
        match parse_u32(rest[0]) {
            Some(v) => Ok(v),
            None => Err("bad "@ + key + ": "@ + rest[0]),
        }
    }
}

/// The effect of one directive line (words `t`, the first not `if`, `-` or
/// `Spline`) on the first frame's header.
pub open spec fn directive(h: HeaderV, t: Seq<Seq<char>>) -> Result<HeaderV, Seq<char>> {
    let key = t[0];
    let rest = t.drop_first();
    if key == "Bitdepth"@ {
        match u32_arg(rest, "Bitdepth"@) {
            Ok(v) => Ok(HeaderV { bitdepth: v, ..h }),
            Err(e) => Err(e),
        }
    } else if key == "Width"@ {
        match u32_arg(rest, "Width"@) {
            Ok(v) => Ok(HeaderV { width: v, ..h }),
            Err(e) => Err(e),
        }
    } else if key == "Height"@ {
        match u32_arg(rest, "Height"@) {
            Ok(v) => Ok(HeaderV { height: v, ..h }),
            Err(e) => Err(e),
        }
    } else if key == "Channels"@ {
        match u32_arg(rest, "Channels"@) {
            Ok(v) => Ok(HeaderV { channels: v, ..h }),
            Err(e) => Err(e),
        }
    } else if key == "Orientation"@ {
        match u32_arg(rest, "Orientation"@) {
            Ok(v) => Ok(HeaderV { orientation: Some(v), ..h }),
            Err(e) => Err(e),
        }
    } else if key == "RCT"@ {
        match u32_arg(rest, "RCT"@) {
            Ok(v) => Ok(HeaderV { rct: Some(v), ..h }),
            Err(e) => Err(e),
        }
    } else if is_extra_key(key) {
        Ok(HeaderV { headers: h.headers.push(join_with(t, ' ')), ..h })
    } else {
        Err(quoted("unknown directive '"@, key, "' in header"@))
    }
}

/// The first frame's header from line `i` up to the first line starting
/// with `if` or `-`: blank lines are skipped and `Spline … EndSpline`
/// blocks collected verbatim.
pub open spec fn parse_header0(ls: Seq<Seq<char>>, i: int, h: HeaderV) -> Result<
    (HeaderV, int),
    Seq<char>,
>
    decreases ls.len() - i,
{
    if i < 0 || i >= ls.len() {
        Ok((h, i))
    } else {
        let t = tokens(ls[i]);
        if t.len() == 0 {
            parse_header0(ls, i + 1, h)
        } else if t[0] == "if"@ || t[0] == "-"@ {
            Ok((h, i))
        } else if t[0] == "Spline"@ {
            let e = spline_end(ls, i + 1);
            proof {
                lemma_spline_end(ls, i + 1);
            }
            parse_header0(
                ls,
                e,
                HeaderV { splines: h.splines.push(join_with(ls.subrange(i, e), '\n')), ..h },
            )
        } else {
            match directive(h, t) {
                Ok(h2) => parse_header0(ls, i + 1, h2),
                Err(e) => Err(e),
            }
        }
    }
}

/// A later frame's header from line `i`: every recognised directive line is
/// kept (its words joined by single spaces), splines collected verbatim.
pub open spec fn parse_frame_header(
    ls: Seq<Seq<char>>,
    i: int,
    hs: Seq<Seq<char>>,
    ss: Seq<Seq<char>>,
) -> Result<(Seq<Seq<char>>, Seq<Seq<char>>, int), Seq<char>>
    decreases ls.len() - i,
{
    if i < 0 || i >= ls.len() {
        Ok((hs, ss, i))
    } else {
        let t = tokens(ls[i]);
        if t.len() == 0 {
            parse_frame_header(ls, i + 1, hs, ss)
        } else if t[0] == "if"@ || t[0] == "-"@ {
            Ok((hs, ss, i))
        } else if t[0] == "Spline"@ {
            let e = spline_end(ls, i + 1);
            proof {
                lemma_spline_end(ls, i + 1);
            }
            parse_frame_header(ls, e, hs, ss.push(join_with(ls.subrange(i, e), '\n')))
        } else if !is_recognised_key(t[0]) {
            Err(quoted("unknown directive '"@, t[0], "' in frame header"@))
        } else {
            parse_frame_header(ls, i + 1, hs.push(join_with(t, ' ')), ss)
        }
    }
}

/// The first line from `i` on that holds a word.
pub open spec fn skip_blank(ls: Seq<Seq<char>>, i: int) -> int
    decreases ls.len() - i,
{
    if 0 <= i < ls.len() && tokens(ls[i]).len() == 0 {
        skip_blank(ls, i + 1)
    } else {
        i
    }
}

/// The frames after the first: while the previous frame's header holds
/// `NotLast` (`more`), one more frame must follow.
pub open spec fn parse_frames(ls: Seq<Seq<char>>, i: int, more: bool) -> Result<
    Seq<FrameV>,
    Seq<char>,
>
    decreases ls.len() - i,
{
    if !more {
        Ok(seq![])
    } else {
        let i1 = skip_blank(ls, i);
        if i1 >= ls.len() {
            Err("NotLast frame is missing its following frame"@)
        } else {
            match parse_frame_header(ls, i1, seq![], seq![]) {
                Err(e) => Err(e),
                Ok((fh, fs, i2)) => if i2 >= ls.len() {
                    Err("frame header with no tree body"@)
                } else {
                    match parse_tree_at(ls, i2) {
                        Err(e) => Err(e),
                        Ok((root, i3)) => {
                            let f = FrameV { headers: fh, splines: fs, root };
                            if !has_notlast(fh) {
                                Ok(seq![f])
                            } else if i < i3 <= ls.len() {
                                match parse_frames(ls, i3, true) {
                                    Ok(rest) => Ok(seq![f] + rest),
                                    Err(e) => Err(e),
                                }
                            } else {
                                Err(seq![])
                            }
                        },
                    }
                },
            }
        }
    }
}

/// What reading a jxl-art program yields: block comments are removed, the
/// text is split into lines, the first frame's header and tree are read,
/// then one more frame for each `NotLast`; anything after the last frame is
/// ignored.
pub open spec fn parse_program(s: Seq<char>) -> Result<ProgramV, Seq<char>> {
    let ls = lines(strip_comments(s));
    match parse_header0(ls, 0, default_header()) {
        Err(e) => Err(e),
        Ok((h, i)) => match parse_tree_at(ls, i) {
            Err(e) => Err(e),
            Ok((root, i1)) => match parse_frames(ls, i1, has_notlast(h.headers)) {
                Err(e) => Err(e),
                Ok(frames) => Ok(
                    ProgramV {
                        width: h.width,
                        height: h.height,
                        bitdepth: h.bitdepth,
                        channels: h.channels,
                        orientation: h.orientation,
                        rct: h.rct,
                        headers: h.headers,
                        splines: h.splines,
                        root,
                        frames,
                    },
                ),
            },
        },
    }
}


// ── Executable header and frame reading ───────────────────────────────────────

/// The line list `ls` with each line's words in `tl`.
pub open spec fn words_of(ls: Seq<Vec<char>>, tl: Seq<Vec<Vec<char>>>) -> bool {
    &&& tl.len() == ls.len()
    &&& forall|k: int| 0 <= k < ls.len() ==> views(#[trigger] tl[k]@) == tokens(ls[k]@)
}

fn holds_end_spline(t: &Vec<Vec<char>>) -> (r: bool)
    ensures
        r == views(t@).contains("EndSpline"@),
{
    let mut k: usize = 0;
    while k < t.len()
        invariant
            k <= t@.len(),
            forall|j: int| 0 <= j < k ==> views(t@)[j] != "EndSpline"@,
        decreases t@.len() - k,
    {
        if is_word(&t[k], "EndSpline") {
            assert(views(t@)[k as int] == "EndSpline"@);
            return true;
        }
        k = k + 1;
    }
    false
}

fn spline_end_exec(ls: &Vec<Vec<char>>, tl: &Vec<Vec<Vec<char>>>, j: usize) -> (e: usize)
    requires
        words_of(ls@, tl@),
        j <= ls@.len(),
    ensures
        e as int == spline_end(views(ls@), j as int),
{
    let ghost lv = views(ls@);
    let mut k = j;
    while k < ls.len()
        invariant
            j <= k <= ls@.len(),
            words_of(ls@, tl@),
            lv == views(ls@),
            spline_end(lv, j as int) == spline_end(lv, k as int),
        decreases ls@.len() - k,
    {
        assert(views(tl@[k as int]@) == tokens(lv[k as int]));
        if holds_end_spline(&tl[k]) {
            return k + 1;
        }
        k = k + 1;
    }
    k
}

/// The first frame's header, being read.
struct Header0 {
    bitdepth: u32,
    width: u32,
    height: u32,
    channels: u32,
    orientation: Option<u32>,
    rct: Option<u32>,
    headers: Vec<String>,
    splines: Vec<String>,
}

impl View for Header0 {
    type V = HeaderV;

    closed spec fn view(&self) -> HeaderV {
        HeaderV {
            bitdepth: self.bitdepth,
            width: self.width,
            height: self.height,
            channels: self.channels,
            orientation: self.orientation,
            rct: self.rct,
            headers: string_views(self.headers@),
            splines: string_views(self.splines@),
        }
    }
}

fn u32_arg_exec(t: &Vec<Vec<char>>, key: &str) -> (r: Result<u32, Vec<char>>)
    requires
        t@.len() > 0,
    ensures
        match r {
            Ok(v) => u32_arg(views(t@).drop_first(), key@) == Ok::<u32, Seq<char>>(v),
            Err(e) => u32_arg(views(t@).drop_first(), key@) == Err::<u32, Seq<char>>(e@),
        },
{
    let ghost rest = views(t@).drop_first();
    if t.len() < 2 {
        let k = str_chars(key);
        return Err(msg("expected value after '", &k, "'"));
    }
    assert(rest[0] == t@[1]@);
    match parse_u32_chars(&t[1]) {
        Some(v) => Ok(v),
        None => {
            let mut e: Vec<char> = Vec::new();
            push_str(&mut e, "bad ");
            push_str(&mut e, key);
            push_str(&mut e, ": ");
            append_chars(&mut e, &t[1]);
            Err(e)
        },
    }
}

fn push_string(v: &mut Vec<String>, s: String)
    ensures
        string_views(final(v)@) == string_views(old(v)@).push(s@),
{
    let ghost pre = v@;
    v.push(s);
    assert(string_views(v@) =~= string_views(pre).push(s@));
}

fn directive_exec(h: &mut Header0, t: &Vec<Vec<char>>) -> (r: Result<(), Vec<char>>)
    requires
        t@.len() > 0,
    ensures
        match r {
            Ok(_) => directive(old(h)@, views(t@)) == Ok::<HeaderV, Seq<char>>(final(h)@),
            Err(e) => directive(old(h)@, views(t@)) == Err::<HeaderV, Seq<char>>(e@),
        },
{
    let key = &t[0];
    assert(views(t@)[0] == key@);
    if is_word(key, "Bitdepth") {
        h.bitdepth = u32_arg_exec(t, "Bitdepth")?;
    } else if is_word(key, "Width") {
        h.width = u32_arg_exec(t, "Width")?;
    } else if is_word(key, "Height") {
        h.height = u32_arg_exec(t, "Height")?;
    } else if is_word(key, "Channels") {
        h.channels = u32_arg_exec(t, "Channels")?;
    } else if is_word(key, "Orientation") {
        h.orientation = Some(u32_arg_exec(t, "Orientation")?);
    } else if is_word(key, "RCT") {
        h.rct = Some(u32_arg_exec(t, "RCT")?);
    } else if is_extra_key_exec(key) {
        let line = join_range(t, 0, t.len(), ' ');
        assert(views(t@).subrange(0, t@.len() as int) =~= views(t@));
        push_string(&mut h.headers, chars_to_string(&line));
    } else {
        return Err(msg("unknown directive '", key, "' in header"));
    }
    Ok(())
}

fn parse_header0_exec(ls: &Vec<Vec<char>>, tl: &Vec<Vec<Vec<char>>>) -> (r: Result<
    (Header0, usize),
    Vec<char>,
>)
    requires
        words_of(ls@, tl@),
    ensures
        match r {
            Ok((h, i)) => parse_header0(views(ls@), 0, default_header()) == Ok::<_, Seq<char>>(
                (h@, i as int),
            ) && i <= ls@.len(),
            Err(e) => parse_header0(views(ls@), 0, default_header()) == Err::<(HeaderV, int), _>(
                e@,
            ),
        },
{
    let ghost lv = views(ls@);
    let mut h = Header0 {
        bitdepth: 8,
        width: 1024,
        height: 1024,
        channels: 3,
        orientation: None,
        rct: None,
        headers: Vec::new(),
        splines: Vec::new(),
    };
    assert(string_views(h.headers@) =~= Seq::<Seq<char>>::empty());
    assert(string_views(h.splines@) =~= Seq::<Seq<char>>::empty());
    assert(h@ == default_header());
    let mut i: usize = 0;
    while i < ls.len()
        invariant
            i <= ls@.len(),
            words_of(ls@, tl@),
            lv == views(ls@),
            parse_header0(lv, 0, default_header()) == parse_header0(lv, i as int, h@),
        decreases ls@.len() - i,
    {
        let t = &tl[i];
        assert(views(t@) == tokens(lv[i as int]));
        if t.len() == 0 {
            i = i + 1;
        } else {
            assert(views(t@)[0] == t@[0]@);
            if is_word(&t[0], "if") || is_word(&t[0], "-") {
                return Ok((h, i));
            } else if is_word(&t[0], "Spline") {
                let e = spline_end_exec(ls, tl, i + 1);
                proof {
                    lemma_spline_end(lv, i + 1);
                }
                let block = join_range(ls, i, e, '\n');
                push_string(&mut h.splines, chars_to_string(&block));
                i = e;
            } else {
                let ghost before = h@;
                match directive_exec(&mut h, t) {
                    Ok(_) => {},
                    Err(e) => {
                        return Err(e);
                    },
                }
                i = i + 1;
            }
        }
    }
    Ok((h, i))
}

fn parse_frame_header_exec(ls: &Vec<Vec<char>>, tl: &Vec<Vec<Vec<char>>>, i0: usize) -> (r: Result<
    (Vec<String>, Vec<String>, usize),
    Vec<char>,
>)
    requires
        words_of(ls@, tl@),
        i0 <= ls@.len(),
    ensures
        match r {
            Ok((hs, ss, i)) => parse_frame_header(views(ls@), i0 as int, seq![], seq![]) == Ok::<
                _,
                Seq<char>,
            >((string_views(hs@), string_views(ss@), i as int)) && i0 <= i <= ls@.len() && (hs@.len()
                > 0 ==> i0 < i),
            Err(e) => parse_frame_header(views(ls@), i0 as int, seq![], seq![]) == Err::<
                (Seq<Seq<char>>, Seq<Seq<char>>, int),
                _,
            >(e@),
        },
{
    let ghost lv = views(ls@);
    let mut hs: Vec<String> = Vec::new();
    let mut ss: Vec<String> = Vec::new();
    assert(string_views(hs@) =~= Seq::<Seq<char>>::empty());
    assert(string_views(ss@) =~= Seq::<Seq<char>>::empty());
    let mut i: usize = i0;
    while i < ls.len()
        invariant
            i0 <= i <= ls@.len(),
            words_of(ls@, tl@),
            lv == views(ls@),
            hs@.len() > 0 ==> i0 < i,
            parse_frame_header(lv, i0 as int, seq![], seq![]) == parse_frame_header(
                lv,
                i as int,
                string_views(hs@),
                string_views(ss@),
            ),
        decreases ls@.len() - i,
    {
        let t = &tl[i];
        assert(views(t@) == tokens(lv[i as int]));
        if t.len() == 0 {
            i = i + 1;
        } else {
            assert(views(t@)[0] == t@[0]@);
            if is_word(&t[0], "if") || is_word(&t[0], "-") {
                return Ok((hs, ss, i));
            } else if is_word(&t[0], "Spline") {
                let e = spline_end_exec(ls, tl, i + 1);
                proof {
                    lemma_spline_end(lv, i + 1);
                }
                let block = join_range(ls, i, e, '\n');
                push_string(&mut ss, chars_to_string(&block));
                i = e;
            } else if !is_recognised_key_exec(&t[0]) {
                return Err(msg("unknown directive '", &t[0], "' in frame header"));
            } else {
                let line = join_range(t, 0, t.len(), ' ');
                assert(views(t@).subrange(0, t@.len() as int) =~= views(t@));
                push_string(&mut hs, chars_to_string(&line));
                i = i + 1;
            }
        }
    }
    Ok((hs, ss, i))
}


/// The line numbers of a word stream, as integers.
pub open spec fn ints(v: Seq<usize>) -> Seq<int> {
    v.map_values(|x: usize| x as int)
}

#[verifier::rlimit(30)]
fn word_stream(ls: &Vec<Vec<char>>, tl: &Vec<Vec<Vec<char>>>, i: usize) -> (r: (
    Vec<Vec<char>>,
    Vec<usize>,
))
    requires
        words_of(ls@, tl@),
        i <= ls@.len(),
    ensures
        views(r.0@) == stream_toks(views(ls@), i as int),
        ints(r.1@) == stream_lines(views(ls@), i as int),
{
    let ghost lv = views(ls@);
    let mut toks: Vec<Vec<char>> = Vec::new();
    let mut lns: Vec<usize> = Vec::new();
    let mut k = i;
    assert(views(toks@) =~= Seq::<Seq<char>>::empty());
    assert(ints(lns@) =~= Seq::<int>::empty());
    while k < ls.len()
        invariant
            i <= k <= ls@.len(),
            words_of(ls@, tl@),
            lv == views(ls@),
            stream_toks(lv, i as int) == views(toks@) + stream_toks(lv, k as int),
            stream_lines(lv, i as int) == ints(lns@) + stream_lines(lv, k as int),
        decreases ls@.len() - k,
    {
        let t = &tl[k];
        assert(views(t@) == tokens(lv[k as int]));
        let ghost tv0 = views(toks@);
        let ghost lv0 = ints(lns@);
        let mut j: usize = 0;
        while j < t.len()
            invariant
                j <= t@.len(),
                k < ls@.len(),
                views(toks@) == tv0 + views(t@).take(j as int),
                ints(lns@) == lv0 + Seq::new(j as nat, |q: int| k as int),
            decreases t@.len() - j,
        {
            let w = copy_chars(&t[j]);
            proof {
                lemma_views_push(toks@, w);
            }
            toks.push(w);
            let ghost pre = lns@;
            lns.push(k);
            assert(ints(lns@) =~= ints(pre).push(k as int));
            j = j + 1;
            assert(views(toks@) =~= tv0 + views(t@).take(j as int));
            assert(ints(lns@) =~= lv0 + Seq::new(j as nat, |q: int| k as int));
        }
        assert(views(t@).take(t@.len() as int) =~= views(t@));
        assert(views(toks@) == tv0 + tokens(lv[k as int]));
        assert(stream_toks(lv, k as int) == tokens(lv[k as int]) + stream_toks(lv, k + 1));
        assert(stream_lines(lv, k as int) == Seq::new(tokens(lv[k as int]).len(), |q: int| k as int)
            + stream_lines(lv, k + 1));
        assert(Seq::new(j as nat, |q: int| k as int) =~= Seq::new(
            tokens(lv[k as int]).len(),
            |q: int| k as int,
        ));
        assert(views(toks@) + stream_toks(lv, k + 1) =~= tv0 + stream_toks(lv, k as int));
        assert(ints(lns@) + stream_lines(lv, k + 1) =~= lv0 + stream_lines(lv, k as int));
        k = k + 1;
    }
    assert(stream_toks(lv, k as int) =~= Seq::<Seq<char>>::empty());
    assert(stream_lines(lv, k as int) =~= Seq::<int>::empty());
    assert(views(toks@) =~= stream_toks(lv, i as int));
    assert(ints(lns@) =~= stream_lines(lv, i as int));
    (toks, lns)
}

fn parse_tree_at_exec(ls: &Vec<Vec<char>>, tl: &Vec<Vec<Vec<char>>>, i: usize) -> (r: Result<
    (Node, usize),
    Vec<char>,
>)
    requires
        words_of(ls@, tl@),
        i <= ls@.len(),
    ensures
        match r {
            Ok((n, j)) => parse_tree_at(views(ls@), i as int) == Ok::<_, Seq<char>>(
                (n@, j as int),
            ) && i <= j <= ls@.len(),
            Err(e) => parse_tree_at(views(ls@), i as int) == Err::<(NodeV, int), _>(e@),
        },
{
    let (toks, lns) = word_stream(ls, tl, i);
    proof {
        lemma_stream(views(ls@), i as int);
    }
    if toks.len() == 0 {
        return Err(lit("program has no tree body"));
    }
    match parse_node_exec(&toks, 0) {
        Err(e) => Err(e),
        Ok((n, pos)) => {
            if pos < toks.len() {
                assert(ints(lns@)[pos as int] == lns@[pos as int] as int);
                let j = lns[pos];
                Ok((n, j))
            } else {
                Ok((n, ls.len()))
            }
        },
    }
}

fn skip_blank_exec(ls: &Vec<Vec<char>>, tl: &Vec<Vec<Vec<char>>>, i: usize) -> (j: usize)
    requires
        words_of(ls@, tl@),
        i <= ls@.len(),
    ensures
        j as int == skip_blank(views(ls@), i as int),
        i <= j <= ls@.len(),
{
    let ghost lv = views(ls@);
    let mut k = i;
    while k < ls.len() && tl[k].len() == 0
        invariant
            i <= k <= ls@.len(),
            words_of(ls@, tl@),
            lv == views(ls@),
            skip_blank(lv, i as int) == skip_blank(lv, k as int),
        decreases ls@.len() - k,
    {
        assert(views(tl@[k as int]@) == tokens(lv[k as int]));
        k = k + 1;
    }
    if k < ls.len() {
        assert(views(tl@[k as int]@) == tokens(lv[k as int]));
    }
    k
}

fn has_notlast_exec(hs: &Vec<String>) -> (r: bool)
    ensures
        r == has_notlast(string_views(hs@)),
{
    let mut k: usize = 0;
    let mut found = false;
    while k < hs.len()
        invariant
            k <= hs@.len(),
            found == has_notlast(string_views(hs@).take(k as int)),
        decreases hs@.len() - k,
    {
        let cs = str_chars(hs[k].as_str());
        let t = tokenize(&cs);
        let here = t.len() > 0 && is_word(&t[0], "NotLast");
        proof {
            if t@.len() > 0 {
                assert(views(t@)[0] == t@[0]@);
            }
        }
        assert(string_views(hs@).take(k + 1).drop_last() =~= string_views(hs@).take(k as int));
        found = found || here;
        k = k + 1;
    }
    assert(string_views(hs@).take(hs@.len() as int) =~= string_views(hs@));
    found
}

/// The views of a list of frames.
pub open spec fn frame_views(fs: Seq<Frame>) -> Seq<FrameV> {
    fs.map_values(|f: Frame| f@)
}

fn parse_frames_exec(ls: &Vec<Vec<char>>, tl: &Vec<Vec<Vec<char>>>, i: usize, more: bool) -> (r: Result<
    Vec<Frame>,
    Vec<char>,
>)
    requires
        words_of(ls@, tl@),
        i <= ls@.len(),
    ensures
        match r {
            Ok(fs) => parse_frames(views(ls@), i as int, more) == Ok::<_, Seq<char>>(
                frame_views(fs@),
            ),
            Err(e) => parse_frames(views(ls@), i as int, more) == Err::<Seq<FrameV>, _>(e@),
        },
    decreases ls@.len() - i,
{
    if !more {
        let v: Vec<Frame> = Vec::new();
        assert(frame_views(v@) =~= Seq::<FrameV>::empty());
        return Ok(v);
    }
    let i1 = skip_blank_exec(ls, tl, i);
    if i1 >= ls.len() {
        return Err(lit("NotLast frame is missing its following frame"));
    }
    let (fh, fs, i2) = parse_frame_header_exec(ls, tl, i1)?;
    if i2 >= ls.len() {
        return Err(lit("frame header with no tree body"));
    }
    let (root, i3) = parse_tree_at_exec(ls, tl, i2)?;
    let next = has_notlast_exec(&fh);
    let f = Frame { extra_headers: fh, splines: fs, root };
    if !next {
        let mut v: Vec<Frame> = Vec::new();
        v.push(f);
        assert(frame_views(v@) =~= seq![f@]);
        Ok(v)
    } else {
        assert(string_views(f.extra_headers@).len() > 0);
        let mut rest = parse_frames_exec(ls, tl, i3, true)?;
        let ghost rv = frame_views(rest@);
        rest.insert(0, f);
        assert(frame_views(rest@) =~= seq![f@] + rv);
        Ok(rest)
    }
}

impl ImageProgram {
    /// Parse a jxl-art text program.
    ///
    /// Accepts what the encoder does: unknown header directives of the known
    /// kinds are kept in `extra_headers`, `Spline … EndSpline` blocks in
    /// `splines`, and unknown condition variables / predictor names become
    /// `Var::Other` / `Predictor::Other`, so they print back unchanged.
    pub fn from_text(s: &str) -> (r: Result<Self, String>)
        ensures
            match r {
                Ok(p) => parse_program(s@) == Ok::<ProgramV, Seq<char>>(p@),
                Err(e) => parse_program(s@) == Err::<ProgramV, Seq<char>>(e@),
            },
    {
        let cs = str_chars(s);
        let stripped = strip_block_comments(&cs);
        let ls = split_lines(&stripped);
        let ghost lv = views(ls@);
        let mut tl: Vec<Vec<Vec<char>>> = Vec::new();
        let mut k: usize = 0;
        while k < ls.len()
            invariant
                k <= ls@.len(),
                tl@.len() == k,
                forall|j: int| 0 <= j < k ==> views(#[trigger] tl@[j]@) == tokens(ls@[j]@),
            decreases ls@.len() - k,
        {
            tl.push(tokenize(&ls[k]));
            k = k + 1;
        }
        assert(lv == lines(strip_comments(s@)));
        let (h, i) = match parse_header0_exec(&ls, &tl) {
            Ok(x) => x,
            Err(e) => {
                return Err(chars_to_string(&e));
            },
        };
        let (root, i1) = match parse_tree_at_exec(&ls, &tl, i) {
            Ok(x) => x,
            Err(e) => {
                return Err(chars_to_string(&e));
            },
        };
        let more = has_notlast_exec(&h.headers);
        let frames = match parse_frames_exec(&ls, &tl, i1, more) {
            Ok(x) => x,
            Err(e) => {
                return Err(chars_to_string(&e));
            },
        };
        let p = ImageProgram {
            width: h.width,
            height: h.height,
            bitdepth: h.bitdepth,
            channels: h.channels,
            orientation: h.orientation,
            rct: h.rct,
            extra_headers: h.headers,
            splines: h.splines,
            root,
            extra_frames: frames,
        };
        Ok(p)
    }
}

} // verus!

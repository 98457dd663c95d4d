//! Printing and reading agree: a well-formed program reads back from its
//! text as itself, what the reader returns is well-formed (up to comment
//! markers and stray carriage returns in verbatim text), and the mutations
//! keep programs well-formed.

use vstd::prelude::*;

use crate::text::{
    all_digits, dec_int, dec_nat, digit_char, digits_val, digit_val, emit, is_digit, is_ws,
    lines, lns, parse_i64, parse_int, parse_u32, strip_comments, strip_cr, tokens, toks,
};
use crate::parse::{
    default_header, directive, parse_frame_header, parse_frames, parse_header0, parse_program,
    parse_tree_at, skip_blank, spline_end, stream_lines, stream_toks, u32_arg, HeaderV,
    has_notlast, is_extra_key, is_recognised_key, is_signed_int, join_with, parse_node,
    parse_offset, parse_pred, parse_var, wrapping_neg, starts_with_word,
};
use crate::tree::{
    channels_text, cond_label, fields_text, frame_text, frames_text, header_text, indent,
    lines_text, nl, node_text, offset_text, opt_line, pred_label, pred_with, program_text,
    size_text, spline_text, splines_text, var_label, wrapping_abs, CondV, FrameV, NodeV, PredV,
    ProgramV, VarV,
};

verus! {

// ── Words ─────────────────────────────────────────────────────────────────────

/// No whitespace in `w`.
pub open spec fn ws_free(w: Seq<char>) -> bool {
    forall|i: int| 0 <= i < w.len() ==> !is_ws(#[trigger] w[i])
}

/// A word: non-empty and free of whitespace.
pub open spec fn word(w: Seq<char>) -> bool {
    w.len() > 0 && ws_free(w)
}

pub open spec fn all_words(ws: Seq<Seq<char>>) -> bool {
    forall|i: int| 0 <= i < ws.len() ==> word(#[trigger] ws[i])
}

pub proof fn lemma_toks_word(w: Seq<char>, s: Seq<char>, cur: Seq<char>)
    requires
        ws_free(w),
    ensures
        toks(w + s, cur) == toks(s, cur + w),
    decreases w.len(),
{
    if w.len() == 0 {
        assert(w + s =~= s);
        assert(cur + w =~= cur);
    } else {
        assert((w + s)[0] == w[0]);
        assert((w + s).drop_first() =~= w.drop_first() + s);
        lemma_toks_word(w.drop_first(), s, cur.push(w[0]));
        assert(cur.push(w[0]) + w.drop_first() =~= cur + w);
    }
}

pub proof fn lemma_tokens_word(w: Seq<char>)
    requires
        word(w),
    ensures
        tokens(w) == seq![w],
{
    lemma_toks_word(w, seq![], seq![]);
    assert(w + Seq::<char>::empty() =~= w);
    assert(Seq::<char>::empty() + w =~= w);
}

/// A word after a space adds itself to the words.
pub proof fn lemma_toks_then_word(x: Seq<char>, w: Seq<char>, cur: Seq<char>)
    requires
        word(w),
    ensures
        toks(x + seq![' '] + w, cur) == toks(x, cur) + seq![w],
    decreases x.len(),
{
    if x.len() == 0 {
        let s = x + seq![' '] + w;
        assert(s[0] == ' ');
        assert(s.drop_first() =~= w);
        lemma_tokens_word(w);
    } else {
        let s = x + seq![' '] + w;
        assert(s[0] == x[0]);
        assert(s.drop_first() =~= x.drop_first() + seq![' '] + w);
        if is_ws(x[0]) {
            lemma_toks_then_word(x.drop_first(), w, seq![]);
        } else {
            lemma_toks_then_word(x.drop_first(), w, cur.push(x[0]));
        }
    }
}

/// Leading spaces do not change the words.
pub proof fn lemma_toks_spaces(n: nat, s: Seq<char>)
    ensures
        toks(Seq::new(n, |i: int| ' ') + s, seq![]) == toks(s, seq![]),
    decreases n,
{
    if n > 0 {
        let sp = Seq::new(n, |i: int| ' ');
        let t = sp + s;
        assert(t[0] == ' ');
        assert(t.drop_first() =~= Seq::new((n - 1) as nat, |i: int| ' ') + s);
        lemma_toks_spaces((n - 1) as nat, s);
    } else {
        assert(Seq::new(n, |i: int| ' ') + s =~= s);
    }
}

/// Words joined by spaces read back as those words.
pub proof fn lemma_tokens_join(ws: Seq<Seq<char>>)
    requires
        all_words(ws),
    ensures
        tokens(join_with(ws, ' ')) == ws,
    decreases ws.len(),
{
    if ws.len() == 0 {
        assert(tokens(seq![]) =~= ws);
    } else if ws.len() == 1 {
        lemma_tokens_word(ws[0]);
        assert(seq![ws[0]] =~= ws);
    } else {
        lemma_tokens_join(ws.drop_last());
        lemma_toks_then_word(join_with(ws.drop_last(), ' '), ws.last(), seq![]);
        assert(ws.drop_last() + seq![ws.last()] =~= ws);
    }
}

/// An indented line of words reads back as those words.
pub proof fn lemma_tokens_indented(depth: nat, ws: Seq<Seq<char>>)
    requires
        all_words(ws),
    ensures
        tokens(indent(depth) + join_with(ws, ' ')) == ws,
{
    lemma_toks_spaces(2 * depth, join_with(ws, ' '));
    lemma_tokens_join(ws);
}

/// The words of any text are words.
pub proof fn lemma_toks_words(s: Seq<char>, cur: Seq<char>)
    requires
        ws_free(cur),
    ensures
        all_words(toks(s, cur)),
    decreases s.len(),
{
    if s.len() > 0 {
        if is_ws(s[0]) {
            lemma_toks_words(s.drop_first(), seq![]);
            let e = emit(cur);
            let r = toks(s.drop_first(), seq![]);
            assert forall|i: int| 0 <= i < (e + r).len() implies word(#[trigger] (e + r)[i]) by {
                if i >= e.len() {
                    assert((e + r)[i] == r[i - e.len()]);
                }
            }
        } else {
            lemma_toks_words(s.drop_first(), cur.push(s[0]));
        }
    }
}

// ── Decimal numbers ───────────────────────────────────────────────────────────

pub proof fn lemma_dec_nat(n: nat)
    ensures
        dec_nat(n).len() > 0,
        all_digits(dec_nat(n)),
        digits_val(dec_nat(n)) == n,
    decreases n,
{
    let r = (n % 10) as nat;
    assert(digit_val(digit_char(r)) == r);
    assert(is_digit(digit_char(r)));
    if n < 10 {
        assert(r == n);
        let s = seq![digit_char(n)];
        assert(s.drop_last() =~= Seq::<char>::empty());
        assert(dec_nat(n) == s);
        assert(digits_val(s) == digits_val(s.drop_last()) * 10 + digit_val(s.last()));
        assert(digits_val(Seq::<char>::empty()) == 0);
    } else {
        lemma_dec_nat(n / 10);
        let d = dec_nat(n / 10);
        let s = d.push(digit_char(r));
        assert(s.drop_last() =~= d);
        assert(n == (n / 10) * 10 + r);
        assert(dec_nat(n) == s);
        assert(digits_val(s) == digits_val(s.drop_last()) * 10 + digit_val(s.last()));
        assert forall|i: int| 0 <= i < s.len() implies is_digit(#[trigger] s[i]) by {
            if i < d.len() {
                assert(s[i] == d[i]);
            }
        }
    }
}

/// A number prints as a word of digits and a minus sign.
pub proof fn lemma_dec_int_word(n: int)
    ensures
        word(dec_int(n)),
        forall|i: int|
            0 <= i < dec_int(n).len() ==> is_digit(#[trigger] dec_int(n)[i]) || dec_int(n)[i]
                == '-',
{
    if n < 0 {
        lemma_dec_nat((-n) as nat);
        let d = dec_nat((-n) as nat);
        assert forall|i: int| 0 <= i < dec_int(n).len() implies is_digit(#[trigger] dec_int(n)[i])
            || dec_int(n)[i] == '-' by {
            if i > 0 {
                assert(dec_int(n)[i] == d[i - 1]);
            }
        }
    } else {
        lemma_dec_nat(n as nat);
    }
}

pub proof fn lemma_parse_dec_i64(n: i64)
    ensures
        parse_i64(dec_int(n as int)) == Some(n),
{
    lemma_dec_int_word(n as int);
    if n < 0 {
        let d = dec_nat((-n) as nat);
        lemma_dec_nat((-n) as nat);
        assert(dec_int(n as int).drop_first() =~= d);
    } else {
        lemma_dec_nat(n as nat);
    }
}

pub proof fn lemma_parse_dec_u32(n: u32)
    ensures
        parse_u32(dec_int(n as int)) == Some(n),
{
    lemma_dec_nat(n as nat);
}

// ── Lines ─────────────────────────────────────────────────────────────────────

/// No line break in `l`.
pub open spec fn nl_free(l: Seq<char>) -> bool {
    forall|i: int| 0 <= i < l.len() ==> #[trigger] l[i] != '\n'
}

/// A line that reads back as itself: no line break, no trailing `\r`.
pub open spec fn plain_line(l: Seq<char>) -> bool {
    nl_free(l) && !(l.len() > 0 && l.last() == '\r')
}

pub open spec fn plain_lines(ls: Seq<Seq<char>>) -> bool {
    forall|i: int| 0 <= i < ls.len() ==> plain_line(#[trigger] ls[i])
}

pub proof fn lemma_lns_line(l: Seq<char>, s: Seq<char>, cur: Seq<char>)
    requires
        nl_free(l),
    ensures
        lns(l + s, cur) == lns(s, cur + l),
    decreases l.len(),
{
    if l.len() == 0 {
        assert(l + s =~= s);
        assert(cur + l =~= cur);
    } else {
        assert((l + s)[0] == l[0]);
        assert((l + s).drop_first() =~= l.drop_first() + s);
        lemma_lns_line(l.drop_first(), s, cur.push(l[0]));
        assert(cur.push(l[0]) + l.drop_first() =~= cur + l);
    }
}

pub proof fn lemma_lines_text_cons(l: Seq<char>, ls: Seq<Seq<char>>)
    ensures
        lines_text(seq![l] + ls) == l + nl() + lines_text(ls),
    decreases ls.len(),
{
    if ls.len() == 0 {
        assert(seq![l] + ls =~= seq![l]);
        assert(seq![l].drop_last() =~= Seq::<Seq<char>>::empty());
        assert(l + nl() + lines_text(ls) =~= lines_text(Seq::<Seq<char>>::empty()) + l + nl());
    } else {
        let all = seq![l] + ls;
        assert(all.drop_last() =~= seq![l] + ls.drop_last());
        lemma_lines_text_cons(l, ls.drop_last());
        assert(lines_text(all) =~= l + nl() + lines_text(ls));
    }
}

pub proof fn lemma_lines_text_one(l: Seq<char>)
    ensures
        lines_text(seq![l]) == l + nl(),
{
    assert(seq![l].drop_last() =~= Seq::<Seq<char>>::empty());
    assert(lines_text(Seq::<Seq<char>>::empty()) == Seq::<char>::empty());
    assert(lines_text(seq![l]) =~= l + nl());
}

pub proof fn lemma_lines_text_concat(a: Seq<Seq<char>>, b: Seq<Seq<char>>)
    ensures
        lines_text(a + b) == lines_text(a) + lines_text(b),
    decreases b.len(),
{
    if b.len() == 0 {
        assert(a + b =~= a);
        assert(lines_text(a) + lines_text(b) =~= lines_text(a));
    } else {
        assert((a + b).drop_last() =~= a + b.drop_last());
        lemma_lines_text_concat(a, b.drop_last());
        assert(lines_text(a + b) =~= lines_text(a) + lines_text(b));
    }
}

/// Plain lines, each ended by a line break, split back into themselves.
pub proof fn lemma_lines_of_text(ls: Seq<Seq<char>>)
    requires
        plain_lines(ls),
    ensures
        lines(lines_text(ls)) == ls,
    decreases ls.len(),
{
    if ls.len() == 0 {
        assert(lines_text(ls) =~= Seq::<char>::empty());
        assert(lines(Seq::<char>::empty()) =~= ls);
    } else {
        let l = ls[0];
        let rest = ls.drop_first();
        assert(seq![l] + rest =~= ls);
        lemma_lines_text_cons(l, rest);
        assert(plain_line(l));
        let t = nl() + lines_text(rest);
        assert(l + nl() + lines_text(rest) =~= l + t);
        lemma_lns_line(l, t, seq![]);
        assert(Seq::<char>::empty() + l =~= l);
        assert(t[0] == '\n');
        assert(t.drop_first() =~= lines_text(rest));
        assert(lns(t, l) == seq![strip_cr(l)] + lns(lines_text(rest), seq![]));
        assert(strip_cr(l) == l);
        assert forall|i: int| 0 <= i < rest.len() implies plain_line(#[trigger] rest[i]) by {
            assert(rest[i] == ls[i + 1]);
        }
        lemma_lines_of_text(rest);
        assert(lines(lines_text(ls)) =~= seq![l] + rest);
    }
}

/// The lines of any text are free of line breaks.
pub proof fn lemma_lns_nl_free(s: Seq<char>, cur: Seq<char>)
    requires
        nl_free(cur),
    ensures
        forall|i: int| 0 <= i < lns(s, cur).len() ==> nl_free(#[trigger] lns(s, cur)[i]),
    decreases s.len(),
{
    if s.len() == 0 {
        assert(lns(s, cur) == emit(cur));
    } else {
        if s[0] == '\n' {
            lemma_lns_nl_free(s.drop_first(), seq![]);
            let c = strip_cr(cur);
            assert(nl_free(c));
            let r = lns(s.drop_first(), seq![]);
            assert(lns(s, cur) == seq![c] + r);
            assert forall|i: int| 0 <= i < (seq![c] + r).len() implies nl_free(
                #[trigger] (seq![c] + r)[i],
            ) by {
                if i > 0 {
                    assert((seq![c] + r)[i] == r[i - 1]);
                }
            }
        } else {
            assert(nl_free(cur.push(s[0])));
            lemma_lns_nl_free(s.drop_first(), cur.push(s[0]));
            assert(lns(s, cur) == lns(s.drop_first(), cur.push(s[0])));
        }
    }
}

// ── Comment markers ───────────────────────────────────────────────────────────

/// No `/*` in `s`.
pub open spec fn no_open(s: Seq<char>) -> bool {
    forall|i: int| 0 <= i < s.len() - 1 ==> !(#[trigger] s[i] == '/' && s[i + 1] == '*')
}

/// Text without `/*` passes comment removal unchanged.
pub proof fn lemma_strip_plain(s: Seq<char>)
    requires
        no_open(s),
    ensures
        strip_comments(s) == s,
    decreases s.len(),
{
    if s.len() >= 2 {
        assert(!(s[0] == '/' && s[1] == '*'));
        assert forall|i: int| 0 <= i < s.drop_first().len() - 1 implies !(
        #[trigger] s.drop_first()[i] == '/' && s.drop_first()[i + 1] == '*') by {
            assert(s.drop_first()[i] == s[i + 1]);
            assert(s.drop_first()[i + 1] == s[i + 2]);
        }
        lemma_strip_plain(s.drop_first());
        assert(seq![s[0]] + s.drop_first() =~= s);
    }
}

/// Two texts without `/*` make none where a `/` does not meet a `*`.
pub proof fn lemma_no_open_concat(a: Seq<char>, b: Seq<char>)
    requires
        no_open(a),
        no_open(b),
        a.len() == 0 || b.len() == 0 || a.last() != '/' || b[0] != '*',
    ensures
        no_open(a + b),
{
    let s = a + b;
    assert forall|i: int| 0 <= i < s.len() - 1 implies !(#[trigger] s[i] == '/' && s[i + 1]
        == '*') by {
        if i + 1 < a.len() {
            assert(s[i] == a[i] && s[i + 1] == a[i + 1]);
        } else if i >= a.len() {
            assert(s[i] == b[i - a.len()] && s[i + 1] == b[i + 1 - a.len()]);
        } else {
            assert(s[i] == a.last());
            assert(s[i + 1] == b[0]);
        }
    }
}

/// Lines without `/*`, each followed by a line break, hold none.
pub proof fn lemma_no_open_lines(ls: Seq<Seq<char>>)
    requires
        forall|i: int| 0 <= i < ls.len() ==> no_open(#[trigger] ls[i]),
    ensures
        no_open(lines_text(ls)),
    decreases ls.len(),
{
    if ls.len() > 0 {
        lemma_no_open_lines(ls.drop_last());
        let a = lines_text(ls.drop_last());
        let l = ls.last();
        lemma_no_open_concat(a, l);
        assert(no_open(nl()));
        lemma_no_open_concat(a + l, nl());
    }
}


// ── Joining words ─────────────────────────────────────────────────────────────

pub proof fn lemma_join2(a: Seq<char>, b: Seq<char>)
    ensures
        join_with(seq![a, b], ' ') == a + seq![' '] + b,
{
    let ws = seq![a, b];
    assert(ws.drop_last() =~= seq![a]);
    assert(join_with(seq![a], ' ') == a);
    assert(ws.last() == b);
}

pub proof fn lemma_join3(a: Seq<char>, b: Seq<char>, c: Seq<char>)
    ensures
        join_with(seq![a, b, c], ' ') == a + seq![' '] + b + seq![' '] + c,
{
    let ws = seq![a, b, c];
    assert(ws.drop_last() =~= seq![a, b]);
    lemma_join2(a, b);
    assert(ws.last() == c);
}

pub proof fn lemma_join4(a: Seq<char>, b: Seq<char>, c: Seq<char>, d: Seq<char>)
    ensures
        join_with(seq![a, b, c, d], ' ') == a + seq![' '] + b + seq![' '] + c + seq![' '] + d,
{
    let ws = seq![a, b, c, d];
    assert(ws.drop_last() =~= seq![a, b, c]);
    lemma_join3(a, b, c);
    assert(ws.last() == d);
}

// ── Trees as lines and words ──────────────────────────────────────────────────

/// The words of a condition line.
pub open spec fn cond_words(c: CondV) -> Seq<Seq<char>> {
    seq!["if"@, var_label(c.var), ">"@, dec_int(c.threshold as int)]
}

/// The words of a neighbour predictor's offset.
pub open spec fn offset_words(o: i64) -> Seq<Seq<char>> {
    if o == 0 {
        seq!["0"@]
    } else if o >= 0 {
        seq!["+"@, dec_int(o as int)]
    } else {
        seq!["-"@, dec_int(wrapping_abs(o) as int)]
    }
}

/// The words of a predictor.
pub open spec fn pred_words(p: PredV) -> Seq<Seq<char>> {
    match p {
        PredV::SetValue(v) => seq!["Set"@, dec_int(v as int)],
        PredV::N(o) => seq!["N"@] + offset_words(o),
        PredV::W(o) => seq!["W"@] + offset_words(o),
        PredV::AvgNNW(o) => seq!["AvgN+NW"@] + offset_words(o),
        PredV::AvgNNE(o) => seq!["AvgN+NE"@] + offset_words(o),
        PredV::AvgWNW(o) => seq!["AvgW+NW"@] + offset_words(o),
        PredV::Weighted(o) => seq!["Weighted"@] + offset_words(o),
        PredV::Other(name, raw) => seq![name] + tokens(raw),
    }
}

/// The words of a leaf line.
pub open spec fn leaf_words(p: PredV) -> Seq<Seq<char>> {
    seq!["-"@] + pred_words(p)
}

/// The lines a tree prints as, indented from `depth`.
pub open spec fn node_lines(n: NodeV, depth: nat) -> Seq<Seq<char>>
    decreases n,
{
    match n {
        NodeV::If(c, t, f) => seq![indent(depth) + join_with(cond_words(c), ' ')] + node_lines(
            *t,
            depth + 1,
        ) + node_lines(*f, depth + 1),
        NodeV::Leaf(p) => seq![indent(depth) + join_with(leaf_words(p), ' ')],
    }
}

/// The words of a tree, in reading order.
pub open spec fn node_toks(n: NodeV) -> Seq<Seq<char>>
    decreases n,
{
    match n {
        NodeV::If(c, t, f) => cond_words(c) + node_toks(*t) + node_toks(*f),
        NodeV::Leaf(p) => leaf_words(p),
    }
}

/// The words of a list of lines.
pub open spec fn line_toks(ls: Seq<Seq<char>>) -> Seq<Seq<char>>
    decreases ls.len(),
{
    if ls.len() == 0 {
        seq![]
    } else {
        tokens(ls[0]) + line_toks(ls.drop_first())
    }
}

pub proof fn lemma_line_toks_concat(a: Seq<Seq<char>>, b: Seq<Seq<char>>)
    ensures
        line_toks(a + b) == line_toks(a) + line_toks(b),
    decreases a.len(),
{
    if a.len() == 0 {
        assert(a + b =~= b);
        assert(line_toks(a) + line_toks(b) =~= line_toks(b));
    } else {
        assert((a + b)[0] == a[0]);
        assert((a + b).drop_first() =~= a.drop_first() + b);
        lemma_line_toks_concat(a.drop_first(), b);
        assert(line_toks(a + b) =~= line_toks(a) + line_toks(b));
    }
}

/// The variable names the reader turns into the basic variables.
pub open spec fn reserved_var(s: Seq<char>) -> bool {
    s == "x"@ || s == "y"@ || s == "c"@ || s == "W"@ || s == "N"@ || s == "WGH"@
}

/// The predictor names the reader turns into structured predictors.
pub open spec fn reserved_pred(s: Seq<char>) -> bool {
    ||| s == "Set"@
    ||| s == "N"@
    ||| s == "W"@
    ||| s == "AvgN+NW"@
    ||| s == "AvgN+NE"@
    ||| s == "AvgW+NW"@
    ||| s == "Weighted"@
}

/// A variable that prints as one word and reads back as itself.
pub open spec fn var_ok(v: VarV) -> bool {
    match v {
        VarV::Other(s) => word(s) && no_open(s) && !reserved_var(s),
        _ => true,
    }
}

/// An offset text the reader produces: `0`, a signed integer, or `+`/`-`
/// and a magnitude, separated by one space.
pub open spec fn raw_offset_ok(raw: Seq<char>) -> bool {
    let t = tokens(raw);
    &&& raw == join_with(t, ' ')
    &&& {
        ||| t.len() == 1 && (t[0] == "0"@ || (is_signed_int(t[0]) && parse_i64(t[0]) is Some))
        ||| t.len() == 2 && (t[0] == "+"@ || t[0] == "-"@) && parse_i64(t[1]) is Some
    }
}

/// A predictor that prints as words and reads back as itself.
pub open spec fn pred_ok(p: PredV) -> bool {
    match p {
        PredV::Other(name, raw) => word(name) && no_open(name) && !reserved_pred(name)
            && raw_offset_ok(raw),
        _ => true,
    }
}

/// Every variable and predictor of the tree reads back as itself.
pub open spec fn tree_ok(n: NodeV) -> bool
    decreases n,
{
    match n {
        NodeV::If(c, t, f) => var_ok(c.var) && tree_ok(*t) && tree_ok(*f),
        NodeV::Leaf(p) => pred_ok(p),
    }
}

proof fn reveal_tree_literals()
    ensures
        "if"@ == seq!['i', 'f'],
        ">"@ == seq!['>'],
        "-"@ == seq!['-'],
        "+"@ == seq!['+'],
        "0"@ == seq!['0'],
        "Set"@ == seq!['S', 'e', 't'],
        "N"@ == seq!['N'],
        "W"@ == seq!['W'],
        "AvgN+NW"@ == seq!['A', 'v', 'g', 'N', '+', 'N', 'W'],
        "AvgN+NE"@ == seq!['A', 'v', 'g', 'N', '+', 'N', 'E'],
        "AvgW+NW"@ == seq!['A', 'v', 'g', 'W', '+', 'N', 'W'],
        "Weighted"@ == seq!['W', 'e', 'i', 'g', 'h', 't', 'e', 'd'],
        "x"@ == seq!['x'],
        "y"@ == seq!['y'],
        "c"@ == seq!['c'],
        "WGH"@ == seq!['W', 'G', 'H'],
        " > "@ == seq![' ', '>', ' '],
        "if "@ == seq!['i', 'f', ' '],
        "- "@ == seq!['-', ' '],
        " 0"@ == seq![' ', '0'],
        " "@ == seq![' '],
        "+ "@ == seq!['+', ' '],
        "Set "@ == seq!['S', 'e', 't', ' '],
{
    reveal_strlit("if");
    reveal_strlit(">");
    reveal_strlit("-");
    reveal_strlit("+");
    reveal_strlit("0");
    reveal_strlit("Set");
    reveal_strlit("N");
    reveal_strlit("W");
    reveal_strlit("AvgN+NW");
    reveal_strlit("AvgN+NE");
    reveal_strlit("AvgW+NW");
    reveal_strlit("Weighted");
    reveal_strlit("x");
    reveal_strlit("y");
    reveal_strlit("c");
    reveal_strlit("WGH");
    reveal_strlit(" > ");
    reveal_strlit("if ");
    reveal_strlit("- ");
    reveal_strlit(" 0");
    reveal_strlit(" ");
    reveal_strlit("+ ");
    reveal_strlit("Set ");
}


proof fn lemma_pred_with_line(nm: Seq<char>, o: i64)
    ensures
        "- "@ + pred_with(nm, o) == join_with(seq!["-"@, nm] + offset_words(o), ' '),
{
    reveal_tree_literals();
    if o == 0 {
        assert(seq!["-"@, nm] + offset_words(o) =~= seq!["-"@, nm, "0"@]);
        lemma_join3("-"@, nm, "0"@);
        assert("- "@ + pred_with(nm, o) =~= "-"@ + seq![' '] + nm + seq![' '] + "0"@);
    } else if o >= 0 {
        let d = dec_int(o as int);
        assert(seq!["-"@, nm] + offset_words(o) =~= seq!["-"@, nm, "+"@, d]);
        lemma_join4("-"@, nm, "+"@, d);
        assert("- "@ + pred_with(nm, o) =~= "-"@ + seq![' '] + nm + seq![' '] + "+"@ + seq![' '] + d);
    } else {
        let d = dec_int(wrapping_abs(o) as int);
        assert(seq!["-"@, nm] + offset_words(o) =~= seq!["-"@, nm, "-"@, d]);
        lemma_join4("-"@, nm, "-"@, d);
        assert("- "@ + pred_with(nm, o) =~= "-"@ + seq![' '] + nm + seq![' '] + "-"@ + seq![' '] + d);
    }
}

/// A leaf line is its words joined by spaces.
pub proof fn lemma_leaf_line(p: PredV)
    requires
        pred_ok(p),
    ensures
        "- "@ + pred_label(p) == join_with(leaf_words(p), ' '),
{
    reveal_tree_literals();
    match p {
        PredV::SetValue(v) => {
            let d = dec_int(v as int);
            assert(leaf_words(p) =~= seq!["-"@, "Set"@, d]);
            lemma_join3("-"@, "Set"@, d);
            assert("- "@ + pred_label(p) =~= "-"@ + seq![' '] + "Set"@ + seq![' '] + d);
        },
        PredV::N(o) => {
            lemma_pred_with_line("N"@, o);
            assert(leaf_words(p) =~= seq!["-"@, "N"@] + offset_words(o));
        },
        PredV::W(o) => {
            lemma_pred_with_line("W"@, o);
            assert(leaf_words(p) =~= seq!["-"@, "W"@] + offset_words(o));
        },
        PredV::AvgNNW(o) => {
            lemma_pred_with_line("AvgN+NW"@, o);
            assert(leaf_words(p) =~= seq!["-"@, "AvgN+NW"@] + offset_words(o));
        },
        PredV::AvgNNE(o) => {
            lemma_pred_with_line("AvgN+NE"@, o);
            assert(leaf_words(p) =~= seq!["-"@, "AvgN+NE"@] + offset_words(o));
        },
        PredV::AvgWNW(o) => {
            lemma_pred_with_line("AvgW+NW"@, o);
            assert(leaf_words(p) =~= seq!["-"@, "AvgW+NW"@] + offset_words(o));
        },
        PredV::Weighted(o) => {
            lemma_pred_with_line("Weighted"@, o);
            assert(leaf_words(p) =~= seq!["-"@, "Weighted"@] + offset_words(o));
        },
        PredV::Other(name, raw) => {
            let t = tokens(raw);
            if t.len() == 1 {
                assert(join_with(t, ' ') == t[0]);
                assert(leaf_words(p) =~= seq!["-"@, name, t[0]]);
                lemma_join3("-"@, name, t[0]);
                assert("- "@ + pred_label(p) =~= "-"@ + seq![' '] + name + seq![' '] + t[0]);
            } else {
                lemma_join2(t[0], t[1]);
                assert(t =~= seq![t[0], t[1]]);
                assert(leaf_words(p) =~= seq!["-"@, name, t[0], t[1]]);
                lemma_join4("-"@, name, t[0], t[1]);
                assert("- "@ + pred_label(p) =~= "-"@ + seq![' '] + name + seq![' '] + t[0] + seq![' ']
                    + t[1]);
            }
        },
    }
}

/// A tree's text is its lines, each ended by a line break.
pub proof fn lemma_node_text(n: NodeV, depth: nat)
    requires
        tree_ok(n),
    ensures
        node_text(n, depth) == lines_text(node_lines(n, depth)),
    decreases n,
{
    reveal_tree_literals();
    match n {
        NodeV::If(c, t, f) => {
            lemma_node_text(*t, depth + 1);
            lemma_node_text(*f, depth + 1);
            let d = dec_int(c.threshold as int);
            lemma_join4("if"@, var_label(c.var), ">"@, d);
            let line = indent(depth) + join_with(cond_words(c), ' ');
            assert(line =~= indent(depth) + "if "@ + cond_label(c));
            lemma_lines_text_one(line);
            lemma_lines_text_concat(seq![line], node_lines(*t, depth + 1));
            lemma_lines_text_concat(seq![line] + node_lines(*t, depth + 1), node_lines(*f, depth + 1));
            assert(node_text(n, depth) =~= lines_text(node_lines(n, depth)));
        },
        NodeV::Leaf(p) => {
            lemma_leaf_line(p);
            let line = indent(depth) + join_with(leaf_words(p), ' ');
            lemma_lines_text_one(line);
            assert(node_text(n, depth) =~= lines_text(node_lines(n, depth)));
        },
    }
}


pub proof fn lemma_line_toks_one(l: Seq<char>)
    ensures
        line_toks(seq![l]) == tokens(l),
{
    assert(seq![l].drop_first() =~= Seq::<Seq<char>>::empty());
    assert(line_toks(Seq::<Seq<char>>::empty()) == Seq::<Seq<char>>::empty());
    assert(line_toks(seq![l]) =~= tokens(l));
}

proof fn lemma_var_word(v: VarV)
    requires
        var_ok(v),
    ensures
        word(var_label(v)),
        parse_var(var_label(v)) == v,
{
    reveal_tree_literals();
    let x = "x"@;
    let y = "y"@;
    let c = "c"@;
    let w = "W"@;
    let n = "N"@;
    let g = "WGH"@;
    assert(y != x) by {
        assert(y[0] != x[0]);
    }
    assert(c != x && c != y) by {
        assert(c[0] != x[0] && c[0] != y[0]);
    }
    assert(w != x && w != y && w != c) by {
        assert(w[0] != x[0] && w[0] != y[0] && w[0] != c[0]);
    }
    assert(n != x && n != y && n != c && n != w) by {
        assert(n[0] != x[0] && n[0] != y[0] && n[0] != c[0] && n[0] != w[0]);
    }
    assert(g != x && g != y && g != c && g != w && g != n) by {
        assert(g.len() != x.len());
    }
}

proof fn lemma_offset_words(o: i64)
    ensures
        all_words(offset_words(o)),
{
    reveal_tree_literals();
    if o != 0 {
        if o >= 0 {
            lemma_dec_int_word(o as int);
        } else {
            lemma_dec_int_word(wrapping_abs(o) as int);
        }
    }
}

proof fn lemma_leaf_words(p: PredV)
    requires
        pred_ok(p),
    ensures
        all_words(leaf_words(p)),
{
    reveal_tree_literals();
    let ws = leaf_words(p);
    match p {
        PredV::SetValue(v) => {
            lemma_dec_int_word(v as int);
        },
        PredV::Other(name, raw) => {
            lemma_toks_words(raw, seq![]);
            assert forall|i: int| 0 <= i < ws.len() implies word(#[trigger] ws[i]) by {
                if i >= 2 {
                    assert(ws[i] == tokens(raw)[i - 2]);
                }
            }
        },
        _ => {
            let o = match p {
                PredV::N(o) => o,
                PredV::W(o) => o,
                PredV::AvgNNW(o) => o,
                PredV::AvgNNE(o) => o,
                PredV::AvgWNW(o) => o,
                PredV::Weighted(o) => o,
                _ => 0,
            };
            lemma_offset_words(o);
            assert forall|i: int| 0 <= i < ws.len() implies word(#[trigger] ws[i]) by {
                if i >= 2 {
                    assert(ws[i] == offset_words(o)[i - 2]);
                }
            }
        },
    }
}

/// The lines of a tree hold its words.
pub proof fn lemma_node_words(n: NodeV, depth: nat)
    requires
        tree_ok(n),
    ensures
        line_toks(node_lines(n, depth)) == node_toks(n),
    decreases n,
{
    reveal_tree_literals();
    match n {
        NodeV::If(c, t, f) => {
            lemma_node_words(*t, depth + 1);
            lemma_node_words(*f, depth + 1);
            lemma_var_word(c.var);
            lemma_dec_int_word(c.threshold as int);
            let line = indent(depth) + join_with(cond_words(c), ' ');
            lemma_tokens_indented(depth, cond_words(c));
            lemma_line_toks_one(line);
            lemma_line_toks_concat(seq![line], node_lines(*t, depth + 1));
            lemma_line_toks_concat(seq![line] + node_lines(*t, depth + 1), node_lines(*f, depth + 1));
        },
        NodeV::Leaf(p) => {
            lemma_leaf_words(p);
            let line = indent(depth) + join_with(leaf_words(p), ' ');
            lemma_tokens_indented(depth, leaf_words(p));
            lemma_line_toks_one(line);
        },
    }
}

proof fn lemma_dec_not_sign(n: int)
    ensures
        dec_int(n) != "-"@,
        dec_int(n) != "+"@,
{
    reveal_tree_literals();
    lemma_dec_int_word(n);
    if n < 0 {
        lemma_dec_nat((-n) as nat);
        assert(dec_int(n).len() >= 2);
    } else {
        lemma_dec_nat(n as nat);
        assert(is_digit(dec_int(n)[0]));
    }
}

proof fn lemma_pred_names_distinct()
    ensures
        "N"@ != "Set"@,
        "W"@ != "Set"@ && "W"@ != "N"@,
        "AvgN+NW"@ != "Set"@ && "AvgN+NW"@ != "N"@ && "AvgN+NW"@ != "W"@,
        "AvgN+NE"@ != "Set"@ && "AvgN+NE"@ != "N"@ && "AvgN+NE"@ != "W"@ && "AvgN+NE"@
            != "AvgN+NW"@,
        "AvgW+NW"@ != "Set"@ && "AvgW+NW"@ != "N"@ && "AvgW+NW"@ != "W"@ && "AvgW+NW"@
            != "AvgN+NW"@ && "AvgW+NW"@ != "AvgN+NE"@,
        "Weighted"@ != "Set"@ && "Weighted"@ != "N"@ && "Weighted"@ != "W"@ && "Weighted"@
            != "AvgN+NW"@ && "Weighted"@ != "AvgN+NE"@ && "Weighted"@ != "AvgW+NW"@,
{
    reveal_tree_literals();
    assert("W"@[0] != "N"@[0]);
    assert("Weighted"@.len() == 8);
    assert("Set"@.len() == 3);
    assert("N"@.len() == 1);
    assert("W"@.len() == 1);
    assert("AvgN+NW"@.len() == 7);
    assert("AvgN+NE"@.len() == 7);
    assert("AvgW+NW"@.len() == 7);
    assert("AvgN+NE"@[6] != "AvgN+NW"@[6]);
    assert("AvgW+NW"@[3] != "AvgN+NW"@[3]);
    assert("AvgW+NW"@[3] != "AvgN+NE"@[3]);
}

/// Reading an offset's words gives the offset back.
proof fn lemma_parse_offset_words(name: Seq<char>, toks: Seq<Seq<char>>, pos: int, o: i64)
    requires
        0 <= pos,
        pos + offset_words(o).len() <= toks.len(),
        toks.subrange(pos, pos + offset_words(o).len()) == offset_words(o),
    ensures
        parse_offset(name, toks, pos) matches Ok((v, _, q)) && v == o && q == pos + offset_words(
            o,
        ).len(),
{
    reveal_tree_literals();
    let w = offset_words(o);
    assert(toks[pos] == w[0]);
    if o == 0 {
    } else if o >= 0 {
        assert(toks[pos + 1] == w[1]);
        lemma_parse_dec_i64(o);
    } else {
        assert(toks[pos + 1] == w[1]);
        lemma_parse_dec_i64(wrapping_abs(o));
    }
}

/// Reading a tree's words from `pos` gives the tree and the position just
/// after its words.
pub proof fn lemma_parse_node_words(n: NodeV, toks: Seq<Seq<char>>, pos: int)
    requires
        tree_ok(n),
        0 <= pos,
        pos + node_toks(n).len() <= toks.len(),
        toks.subrange(pos, pos + node_toks(n).len()) == node_toks(n),
    ensures
        parse_node(toks, pos) == Ok::<(NodeV, int), Seq<char>>((n, pos + node_toks(n).len())),
    decreases n,
{
    reveal_tree_literals();
    let nt = node_toks(n);
    match n {
        NodeV::If(c, t, f) => {
            let tt = node_toks(*t);
            let ft = node_toks(*f);
            assert(nt == cond_words(c) + tt + ft);
            assert(toks[pos] == nt[0]);
            assert(toks[pos + 1] == nt[1]);
            assert(toks[pos + 2] == nt[2]);
            assert(toks[pos + 3] == nt[3]);
            lemma_var_word(c.var);
            lemma_parse_dec_i64(c.threshold);
            assert(toks.subrange(pos + 4, pos + 4 + tt.len()) =~= tt) by {
                assert forall|i: int| 0 <= i < tt.len() implies toks.subrange(pos + 4, pos + 4 + tt.len())[i] == tt[i] by {
                    assert(toks.subrange(pos, pos + nt.len())[4 + i] == nt[4 + i]);
                }
            }
            lemma_parse_node_words(*t, toks, pos + 4);
            let p1 = pos + 4 + tt.len();
            assert(toks.subrange(p1, p1 + ft.len()) =~= ft) by {
                assert forall|i: int| 0 <= i < ft.len() implies toks.subrange(p1, p1 + ft.len())[i] == ft[i] by {
                    assert(toks.subrange(pos, pos + nt.len())[4 + tt.len() + i] == nt[4 + tt.len() + i]);
                }
            }
            lemma_parse_node_words(*f, toks, p1);
            assert(toks[pos] == "if"@);
            assert(toks[pos + 2] == ">"@);
            assert(parse_i64(toks[pos + 3]) == Some(c.threshold));
            assert(parse_var(toks[pos + 1]) == c.var);
            assert(pos < p1 <= toks.len());
            assert(CondV { var: c.var, threshold: c.threshold } == c);
            assert(p1 + ft.len() == pos + nt.len());
            let p2 = p1 + ft.len();
            assert(parse_node(toks, pos + 4) == Ok::<(NodeV, int), Seq<char>>((*t, p1)));
            assert(parse_node(toks, p1) == Ok::<(NodeV, int), Seq<char>>((*f, p2)));
            assert(n == NodeV::If(CondV { var: parse_var(toks[pos + 1]), threshold: c.threshold }, Box::new(*t), Box::new(*f)));
            let cv = CondV { var: parse_var(toks[pos + 1]), threshold: c.threshold };
            assert(pos + 3 < toks.len());
            assert(parse_node(toks, pos) == (match parse_node(toks, pos + 4) {
                Err(e) => Err(e),
                Ok((tn, q1)) => if pos < q1 <= toks.len() {
                    match parse_node(toks, q1) {
                        Err(e) => Err(e),
                        Ok((fnode, q2)) => Ok((NodeV::If(cv, Box::new(tn), Box::new(fnode)), q2)),
                    }
                } else {
                    Err(seq![])
                },
            }));
            assert(parse_node(toks, pos) == Ok::<(NodeV, int), Seq<char>>((NodeV::If(cv, Box::new(*t), Box::new(*f)), p2)));
            assert(parse_node(toks, pos) == Ok::<(NodeV, int), Seq<char>>((n, p2)));
            assert(p2 == pos + node_toks(n).len());
        },
        NodeV::Leaf(p) => {
            lemma_pred_names_distinct();
            assert(toks[pos] == nt[0]);
            assert(toks[pos + 1] == nt[1]);
            match p {
                PredV::SetValue(v) => {
                    assert(toks[pos + 2] == nt[2]);
                    lemma_dec_not_sign(v as int);
                    lemma_parse_dec_i64(v);
                },
                PredV::Other(name, raw) => {
                    let rt = tokens(raw);
                    assert(toks[pos + 2] == nt[2]);
                    assert(nt[2] == rt[0]);
                    if rt.len() == 2 {
                        assert(toks[pos + 3] == nt[3]);
                        assert(nt[3] == rt[1]);
                        lemma_join2(rt[0], rt[1]);
                        assert(rt =~= seq![rt[0], rt[1]]);
                        assert(raw == rt[0] + seq![' '] + rt[1]);
                        if rt[0] == "+"@ {
                            assert("+ "@ + rt[1] =~= raw);
                        } else {
                            assert("- "@ + rt[1] =~= raw);
                        }
                        assert(rt[0] != "0"@);
                    } else {
                        assert(join_with(rt, ' ') == rt[0]);
                        assert(raw == rt[0]);
                        if rt[0] != "0"@ {
                            assert(is_signed_int(rt[0]));
                            assert(rt[0] != "+"@ && rt[0] != "-"@) by {
                                if rt[0] == "+"@ || rt[0] == "-"@ {
                                    assert(rt[0].drop_first().len() == 0);
                                }
                            }
                        }
                    }
                },
                _ => {
                    let o = match p {
                        PredV::N(o) => o,
                        PredV::W(o) => o,
                        PredV::AvgNNW(o) => o,
                        PredV::AvgNNE(o) => o,
                        PredV::AvgWNW(o) => o,
                        PredV::Weighted(o) => o,
                        _ => 0,
                    };
                    let ow = offset_words(o);
                    assert(toks.subrange(pos + 2, pos + 2 + ow.len()) =~= ow) by {
                        assert forall|i: int| 0 <= i < ow.len() implies toks.subrange(pos + 2, pos + 2 + ow.len())[i] == ow[i] by {
                            assert(toks.subrange(pos, pos + nt.len())[2 + i] == nt[2 + i]);
                        }
                    }
                    lemma_parse_offset_words(toks[pos + 1], toks, pos + 2, o);
                },
            }
        },
    }
}


// ── Programs as lines ─────────────────────────────────────────────────────────

/// A header line kept verbatim: its words joined by single spaces, the
/// first a directive (one passed through verbatim when `extra`, any the
/// format knows otherwise).
pub open spec fn directive_line(h: Seq<char>, extra: bool) -> bool {
    let t = tokens(h);
    &&& t.len() > 0
    &&& if extra {
        is_extra_key(t[0])
    } else {
        is_recognised_key(t[0])
    }
    &&& h == join_with(t, ' ')
    &&& no_open(h)
}

/// The lines of a spline block as the reader collects it: a first line
/// starting with `Spline`, then lines up to the first one (after the
/// first) holding the word `EndSpline`.
pub open spec fn spline_block(ls: Seq<Seq<char>>) -> bool {
    &&& ls.len() >= 2
    &&& plain_lines(ls)
    &&& forall|i: int| 0 <= i < ls.len() ==> no_open(#[trigger] ls[i])
    &&& tokens(ls[0]).len() > 0 && tokens(ls[0])[0] == "Spline"@
    &&& tokens(ls.last()).contains("EndSpline"@)
    &&& forall|j: int| 1 <= j < ls.len() - 1 ==> !(#[trigger] tokens(ls[j])).contains("EndSpline"@)
}

/// A spline text that reads back as itself.
pub open spec fn spline_ok(s: Seq<char>) -> bool {
    exists|ls: Seq<Seq<char>>| spline_block(ls) && s == join_with(ls, '\n')
}

/// The lines of a well-formed spline text.
pub open spec fn spline_lines(s: Seq<char>) -> Seq<Seq<char>> {
    choose|ls: Seq<Seq<char>>| spline_block(ls) && s == join_with(ls, '\n')
}

/// Each spline's lines, then a blank line.
pub open spec fn splines_lines(ss: Seq<Seq<char>>) -> Seq<Seq<char>>
    decreases ss.len(),
{
    if ss.len() == 0 {
        seq![]
    } else {
        spline_lines(ss[0]) + seq![Seq::<char>::empty()] + splines_lines(ss.drop_first())
    }
}

pub open spec fn frame_ok(f: FrameV) -> bool {
    &&& forall|i: int| 0 <= i < f.headers.len() ==> directive_line(#[trigger] f.headers[i], false)
    &&& forall|i: int| 0 <= i < f.splines.len() ==> spline_ok(#[trigger] f.splines[i])
    &&& tree_ok(f.root)
}

/// A later frame's lines.
pub open spec fn frame_lines(f: FrameV) -> Seq<Seq<char>> {
    seq![Seq::<char>::empty()] + f.headers + seq![Seq::<char>::empty()] + splines_lines(f.splines)
        + node_lines(f.root, 0)
}

pub open spec fn frames_lines(fs: Seq<FrameV>) -> Seq<Seq<char>>
    decreases fs.len(),
{
    if fs.len() == 0 {
        seq![]
    } else {
        frame_lines(fs[0]) + frames_lines(fs.drop_first())
    }
}

/// The structured header lines.
pub open spec fn field_lines(p: ProgramV) -> Seq<Seq<char>> {
    seq!["Bitdepth "@ + dec_int(p.bitdepth as int)] + match p.orientation {
        Some(o) => seq!["Orientation "@ + dec_int(o as int)],
        None => seq![],
    } + match p.rct {
        Some(r) => seq!["RCT "@ + dec_int(r as int)],
        None => seq![],
    } + if p.channels != 3 {
        seq!["Channels "@ + dec_int(p.channels as int)]
    } else {
        seq![]
    } + if p.width != 1024 || p.height != 1024 {
        seq!["Width "@ + dec_int(p.width as int), "Height "@ + dec_int(p.height as int)]
    } else {
        seq![]
    }
}

/// The lines a program prints as.
pub open spec fn program_lines(p: ProgramV) -> Seq<Seq<char>> {
    field_lines(p) + p.headers + seq![Seq::<char>::empty()] + splines_lines(p.splines) + node_lines(
        p.root,
        0,
    ) + frames_lines(p.frames)
}

/// The frames follow the `NotLast` flags: there are frames after the first
/// exactly when its header has `NotLast`, and every frame but the last has
/// it.
pub open spec fn frames_chained(p: ProgramV) -> bool {
    &&& (p.frames.len() > 0) == has_notlast(p.headers)
    &&& forall|k: int|
        0 <= k < p.frames.len() ==> has_notlast(#[trigger] p.frames[k].headers) == (k
            < p.frames.len() - 1)
}

/// A program whose text reads back as itself.
pub open spec fn program_ok(p: ProgramV) -> bool {
    &&& forall|i: int| 0 <= i < p.headers.len() ==> directive_line(#[trigger] p.headers[i], true)
    &&& forall|i: int| 0 <= i < p.splines.len() ==> spline_ok(#[trigger] p.splines[i])
    &&& tree_ok(p.root)
    &&& forall|k: int| 0 <= k < p.frames.len() ==> frame_ok(#[trigger] p.frames[k])
    &&& frames_chained(p)
}


// ── The text is the lines ─────────────────────────────────────────────────────

pub proof fn lemma_lines_text_join(ls: Seq<Seq<char>>)
    requires
        ls.len() > 0,
    ensures
        lines_text(ls) == join_with(ls, '\n') + nl(),
    decreases ls.len(),
{
    if ls.len() == 1 {
        lemma_lines_text_one(ls[0]);
        assert(seq![ls[0]] =~= ls);
    } else {
        lemma_lines_text_join(ls.drop_last());
        assert(lines_text(ls) =~= join_with(ls, '\n') + nl());
    }
}

proof fn lemma_spline_lines(s: Seq<char>)
    requires
        spline_ok(s),
    ensures
        spline_block(spline_lines(s)),
        s == join_with(spline_lines(s), '\n'),
        spline_text(s) == lines_text(spline_lines(s) + seq![Seq::<char>::empty()]),
{
    let ls = spline_lines(s);
    let l = ls.last();
    assert(l.len() > 0) by {
        if l.len() == 0 {
            assert(tokens(l) =~= Seq::<Seq<char>>::empty());
        }
    }
    assert(plain_line(l));
    assert(ls.drop_last().len() >= 1);
    assert(s == join_with(ls.drop_last(), '\n') + seq!['\n'] + l);
    assert(s.last() == l.last());
    lemma_lines_text_join(ls);
    lemma_lines_text_concat(ls, seq![Seq::<char>::empty()]);
    lemma_lines_text_one(Seq::<char>::empty());
    assert(spline_text(s) =~= lines_text(ls + seq![Seq::<char>::empty()]));
}

proof fn lemma_splines_text_cons(s: Seq<char>, rest: Seq<Seq<char>>)
    ensures
        splines_text(seq![s] + rest) == spline_text(s) + splines_text(rest),
    decreases rest.len(),
{
    if rest.len() == 0 {
        assert(seq![s] + rest =~= seq![s]);
        assert(seq![s].drop_last() =~= Seq::<Seq<char>>::empty());
        assert(splines_text(Seq::<Seq<char>>::empty()) == Seq::<char>::empty());
        assert(splines_text(rest) == Seq::<char>::empty());
        assert(splines_text(seq![s]) =~= spline_text(s) + splines_text(rest));
    } else {
        let all = seq![s] + rest;
        assert(all.drop_last() =~= seq![s] + rest.drop_last());
        lemma_splines_text_cons(s, rest.drop_last());
        assert(splines_text(all) =~= spline_text(s) + splines_text(rest));
    }
}

pub proof fn lemma_splines_text(ss: Seq<Seq<char>>)
    requires
        forall|i: int| 0 <= i < ss.len() ==> spline_ok(#[trigger] ss[i]),
    ensures
        splines_text(ss) == lines_text(splines_lines(ss)),
    decreases ss.len(),
{
    if ss.len() == 0 {
        assert(lines_text(Seq::<Seq<char>>::empty()) == Seq::<char>::empty());
    } else {
        let rest = ss.drop_first();
        assert(seq![ss[0]] + rest =~= ss);
        lemma_splines_text_cons(ss[0], rest);
        assert forall|i: int| 0 <= i < rest.len() implies spline_ok(#[trigger] rest[i]) by {
            assert(rest[i] == ss[i + 1]);
        }
        lemma_splines_text(rest);
        assert(spline_ok(ss[0]));
        lemma_spline_lines(ss[0]);
        lemma_lines_text_concat(
            spline_lines(ss[0]) + seq![Seq::<char>::empty()],
            splines_lines(rest),
        );
    }
}

proof fn lemma_frames_text_cons(f: FrameV, rest: Seq<FrameV>)
    ensures
        frames_text(seq![f] + rest) == frame_text(f) + frames_text(rest),
    decreases rest.len(),
{
    if rest.len() == 0 {
        assert(seq![f] + rest =~= seq![f]);
        assert(seq![f].drop_last() =~= Seq::<FrameV>::empty());
        assert(frames_text(Seq::<FrameV>::empty()) == Seq::<char>::empty());
        assert(frames_text(rest) == Seq::<char>::empty());
        assert(frames_text(seq![f]) =~= frame_text(f) + frames_text(rest));
    } else {
        let all = seq![f] + rest;
        assert(all.drop_last() =~= seq![f] + rest.drop_last());
        lemma_frames_text_cons(f, rest.drop_last());
        assert(frames_text(all) =~= frame_text(f) + frames_text(rest));
    }
}

proof fn lemma_frame_text(f: FrameV)
    requires
        frame_ok(f),
    ensures
        frame_text(f) == lines_text(frame_lines(f)),
{
    let e = seq![Seq::<char>::empty()];
    lemma_lines_text_one(Seq::<char>::empty());
    lemma_splines_text(f.splines);
    lemma_node_text(f.root, 0);
    lemma_lines_text_concat(e, f.headers);
    lemma_lines_text_concat(e + f.headers, e);
    lemma_lines_text_concat(e + f.headers + e, splines_lines(f.splines));
    lemma_lines_text_concat(e + f.headers + e + splines_lines(f.splines), node_lines(f.root, 0));
    assert(frame_text(f) =~= lines_text(frame_lines(f)));
}

pub proof fn lemma_frames_text(fs: Seq<FrameV>)
    requires
        forall|k: int| 0 <= k < fs.len() ==> frame_ok(#[trigger] fs[k]),
    ensures
        frames_text(fs) == lines_text(frames_lines(fs)),
    decreases fs.len(),
{
    if fs.len() == 0 {
        assert(lines_text(Seq::<Seq<char>>::empty()) == Seq::<char>::empty());
    } else {
        let rest = fs.drop_first();
        assert(seq![fs[0]] + rest =~= fs);
        lemma_frames_text_cons(fs[0], rest);
        assert forall|k: int| 0 <= k < rest.len() implies frame_ok(#[trigger] rest[k]) by {
            assert(rest[k] == fs[k + 1]);
        }
        lemma_frames_text(rest);
        assert(frame_ok(fs[0]));
        lemma_frame_text(fs[0]);
        lemma_lines_text_concat(frame_lines(fs[0]), frames_lines(rest));
    }
}

proof fn lemma_fields_text(p: ProgramV)
    ensures
        fields_text(p) == lines_text(field_lines(p)),
{
    let b = seq!["Bitdepth "@ + dec_int(p.bitdepth as int)];
    let o = match p.orientation {
        Some(x) => seq!["Orientation "@ + dec_int(x as int)],
        None => Seq::<Seq<char>>::empty(),
    };
    let r = match p.rct {
        Some(x) => seq!["RCT "@ + dec_int(x as int)],
        None => Seq::<Seq<char>>::empty(),
    };
    let c = if p.channels != 3 {
        seq!["Channels "@ + dec_int(p.channels as int)]
    } else {
        Seq::<Seq<char>>::empty()
    };
    let z = if p.width != 1024 || p.height != 1024 {
        seq!["Width "@ + dec_int(p.width as int), "Height "@ + dec_int(p.height as int)]
    } else {
        Seq::<Seq<char>>::empty()
    };
    assert(field_lines(p) == b + o + r + c + z);
    assert(lines_text(Seq::<Seq<char>>::empty()) == Seq::<char>::empty());
    lemma_lines_text_one(b[0]);
    if let Some(x) = p.orientation {
        lemma_lines_text_one(o[0]);
    }
    if let Some(x) = p.rct {
        lemma_lines_text_one(r[0]);
    }
    if p.channels != 3 {
        lemma_lines_text_one(c[0]);
    }
    if p.width != 1024 || p.height != 1024 {
        lemma_lines_text_cons(z[0], seq![z[1]]);
        lemma_lines_text_one(z[1]);
        assert(seq![z[0]] + seq![z[1]] =~= z);
    }
    lemma_lines_text_concat(b, o);
    lemma_lines_text_concat(b + o, r);
    lemma_lines_text_concat(b + o + r, c);
    lemma_lines_text_concat(b + o + r + c, z);
    assert(fields_text(p) =~= lines_text(field_lines(p)));
}

/// A well-formed program's text is its lines, each ended by a line break.
pub proof fn lemma_program_text(p: ProgramV)
    requires
        program_ok(p),
    ensures
        program_text(p) == lines_text(program_lines(p)),
{
    let e = seq![Seq::<char>::empty()];
    lemma_fields_text(p);
    lemma_lines_text_one(Seq::<char>::empty());
    lemma_splines_text(p.splines);
    lemma_node_text(p.root, 0);
    lemma_frames_text(p.frames);
    let f = field_lines(p);
    lemma_lines_text_concat(f, p.headers);
    lemma_lines_text_concat(f + p.headers, e);
    lemma_lines_text_concat(f + p.headers + e, splines_lines(p.splines));
    lemma_lines_text_concat(f + p.headers + e + splines_lines(p.splines), node_lines(p.root, 0));
    lemma_lines_text_concat(
        f + p.headers + e + splines_lines(p.splines) + node_lines(p.root, 0),
        frames_lines(p.frames),
    );
    assert(program_text(p) =~= lines_text(program_lines(p)));
}


// ── The lines are plain ───────────────────────────────────────────────────────

/// Lines that split back as themselves and hold no comment marker.
pub open spec fn good_lines(ls: Seq<Seq<char>>) -> bool {
    forall|i: int| 0 <= i < ls.len() ==> plain_line(#[trigger] ls[i]) && no_open(ls[i])
}

pub proof fn lemma_good_concat(a: Seq<Seq<char>>, b: Seq<Seq<char>>)
    requires
        good_lines(a),
        good_lines(b),
    ensures
        good_lines(a + b),
{
    assert forall|i: int| 0 <= i < (a + b).len() implies plain_line(#[trigger] (a + b)[i]) && no_open(
        (a + b)[i],
    ) by {
        if i < a.len() {
            assert((a + b)[i] == a[i]);
        } else {
            assert((a + b)[i] == b[i - a.len()]);
        }
    }
}

/// No `/` at all.
pub open spec fn slash_free(s: Seq<char>) -> bool {
    forall|i: int| 0 <= i < s.len() ==> #[trigger] s[i] != '/'
}

/// Spaces and non-whitespace characters only, ending in the latter.
pub open spec fn spaced(s: Seq<char>) -> bool {
    &&& forall|i: int| 0 <= i < s.len() ==> #[trigger] s[i] == ' ' || !is_ws(s[i])
    &&& s.len() > 0 ==> !is_ws(s.last())
}

proof fn lemma_spaced_plain(s: Seq<char>)
    requires
        spaced(s),
    ensures
        plain_line(s),
{
    assert(is_ws('\n') && is_ws('\r'));
    assert forall|i: int| 0 <= i < s.len() implies #[trigger] s[i] != '\n' by {
        assert(s[i] == ' ' || !is_ws(s[i]));
    }
}

/// Words joined by spaces, after an indentation: a plain line without
/// comment markers when the words have none.
pub proof fn lemma_word_line(depth: nat, ws: Seq<Seq<char>>)
    requires
        ws.len() > 0,
        all_words(ws),
        forall|i: int| 0 <= i < ws.len() ==> no_open(#[trigger] ws[i]),
    ensures
        plain_line(indent(depth) + join_with(ws, ' ')),
        no_open(indent(depth) + join_with(ws, ' ')),
        spaced(join_with(ws, ' ')),
        no_open(join_with(ws, ' ')),
    decreases ws.len(),
{
    let j = join_with(ws, ' ');
    if ws.len() == 1 {
        assert(word(ws[0]));
        assert(no_open(ws[0]));
        assert(spaced(j));
    } else {
        let ws0 = ws.drop_last();
        assert forall|i: int| 0 <= i < ws0.len() implies no_open(#[trigger] ws0[i]) && word(ws0[i]) by {
            assert(ws0[i] == ws[i]);
        }
        lemma_word_line(depth, ws0);
        let j0 = join_with(ws0, ' ');
        let w = ws.last();
        assert(word(w) && no_open(w)) by {
            assert(w == ws[ws.len() - 1]);
        }
        assert(j == j0 + seq![' '] + w);
        assert(spaced(j)) by {
            assert forall|i: int| 0 <= i < j.len() implies #[trigger] j[i] == ' ' || !is_ws(j[i]) by {
                if i < j0.len() {
                    assert(j[i] == j0[i]);
                } else if i > j0.len() {
                    assert(j[i] == w[i - j0.len() - 1]);
                }
            }
            assert(j.last() == w.last());
        }
        assert(no_open(j)) by {
            assert(no_open(seq![' ']));
            lemma_no_open_concat(j0, seq![' ']);
            lemma_no_open_concat(j0 + seq![' '], w);
        }
    }
    let sp = indent(depth);
    assert(no_open(sp));
    assert(spaced(sp + j)) by {
        assert forall|i: int| 0 <= i < (sp + j).len() implies #[trigger] (sp + j)[i] == ' ' || !is_ws(
            (sp + j)[i],
        ) by {
            if i >= sp.len() {
                assert((sp + j)[i] == j[i - sp.len()]);
            }
        }
        assert((sp + j).last() == j.last());
    }
    lemma_spaced_plain(sp + j);
    lemma_no_open_concat(sp, j);
}

proof fn lemma_slash_free_no_open(s: Seq<char>)
    requires
        slash_free(s),
    ensures
        no_open(s),
{
    assert forall|i: int| 0 <= i < s.len() - 1 implies !(#[trigger] s[i] == '/' && s[i + 1] == '*') by {
        assert(s[i] != '/');
    }
}

proof fn lemma_dec_clean(n: int)
    ensures
        slash_free(dec_int(n)),
        no_open(dec_int(n)),
{
    lemma_dec_int_word(n);
    assert forall|i: int| 0 <= i < dec_int(n).len() implies #[trigger] dec_int(n)[i] != '/' by {
        assert(is_digit(dec_int(n)[i]) || dec_int(n)[i] == '-');
    }
    lemma_slash_free_no_open(dec_int(n));
}

/// A number the reader accepts holds only digits and a sign.
proof fn lemma_parse_i64_clean(s: Seq<char>)
    requires
        parse_i64(s) is Some,
    ensures
        slash_free(s),
        no_open(s),
{
    assert forall|i: int| 0 <= i < s.len() implies #[trigger] s[i] != '/' by {
        if i > 0 && (s[0] == '+' || s[0] == '-') {
            assert(s[i] == s.drop_first()[i - 1]);
            assert(is_digit(s.drop_first()[i - 1]));
        } else if !(s[0] == '+' || s[0] == '-') {
            assert(is_digit(s[i]));
        }
    }
    lemma_slash_free_no_open(s);
}


proof fn lemma_words_no_open(ws: Seq<Seq<char>>)
    requires
        forall|i: int| 0 <= i < ws.len() ==> slash_free(#[trigger] ws[i]),
    ensures
        forall|i: int| 0 <= i < ws.len() ==> no_open(#[trigger] ws[i]),
{
    assert forall|i: int| 0 <= i < ws.len() implies no_open(#[trigger] ws[i]) by {
        lemma_slash_free_no_open(ws[i]);
    }
}

proof fn lemma_tree_literals_clean()
    ensures
        slash_free("if"@),
        slash_free(">"@),
        slash_free("-"@),
        slash_free("+"@),
        slash_free("0"@),
        slash_free("Set"@),
        slash_free("N"@),
        slash_free("W"@),
        slash_free("AvgN+NW"@),
        slash_free("AvgN+NE"@),
        slash_free("AvgW+NW"@),
        slash_free("Weighted"@),
        slash_free("x"@),
        slash_free("y"@),
        slash_free("c"@),
        slash_free("WGH"@),
{
    reveal_tree_literals();
}

proof fn lemma_cond_words_clean(c: CondV)
    requires
        var_ok(c.var),
    ensures
        forall|i: int| 0 <= i < cond_words(c).len() ==> no_open(#[trigger] cond_words(c)[i]),
{
    lemma_tree_literals_clean();
    lemma_dec_clean(c.threshold as int);
    let ws = cond_words(c);
    assert forall|i: int| 0 <= i < ws.len() implies no_open(#[trigger] ws[i]) by {
        if i == 1 {
            match c.var {
                VarV::Other(s) => {},
                _ => lemma_slash_free_no_open(ws[1]),
            }
        } else if i == 3 {
        } else {
            lemma_slash_free_no_open(ws[i]);
        }
    }
}

proof fn lemma_leaf_words_clean(p: PredV)
    requires
        pred_ok(p),
    ensures
        forall|i: int| 0 <= i < leaf_words(p).len() ==> no_open(#[trigger] leaf_words(p)[i]),
{
    lemma_tree_literals_clean();
    let ws = leaf_words(p);
    match p {
        PredV::SetValue(v) => {
            lemma_dec_clean(v as int);
            lemma_words_no_open(ws);
        },
        PredV::Other(name, raw) => {
            let t = tokens(raw);
            assert forall|i: int| 0 <= i < ws.len() implies no_open(#[trigger] ws[i]) by {
                if i == 0 {
                    lemma_slash_free_no_open(ws[0]);
                } else if i >= 2 {
                    assert(ws[i] == t[i - 2]);
                    if t[i - 2] == "0"@ || t[i - 2] == "+"@ || t[i - 2] == "-"@ {
                        lemma_slash_free_no_open(t[i - 2]);
                    } else {
                        lemma_parse_i64_clean(t[i - 2]);
                    }
                }
            }
        },
        _ => {
            let o = match p {
                PredV::N(o) => o,
                PredV::W(o) => o,
                PredV::AvgNNW(o) => o,
                PredV::AvgNNE(o) => o,
                PredV::AvgWNW(o) => o,
                PredV::Weighted(o) => o,
                _ => 0,
            };
            lemma_dec_clean(o as int);
            lemma_dec_clean(wrapping_abs(o) as int);
            lemma_words_no_open(ws);
        },
    }
}

pub proof fn lemma_node_good(n: NodeV, depth: nat)
    requires
        tree_ok(n),
    ensures
        good_lines(node_lines(n, depth)),
    decreases n,
{
    match n {
        NodeV::If(c, t, f) => {
            lemma_node_good(*t, depth + 1);
            lemma_node_good(*f, depth + 1);
            lemma_var_word(c.var);
            lemma_dec_int_word(c.threshold as int);
            reveal_tree_literals();
            lemma_cond_words_clean(c);
            lemma_word_line(depth, cond_words(c));
            let line = indent(depth) + join_with(cond_words(c), ' ');
            assert(good_lines(seq![line]));
            lemma_good_concat(seq![line], node_lines(*t, depth + 1));
            lemma_good_concat(seq![line] + node_lines(*t, depth + 1), node_lines(*f, depth + 1));
        },
        NodeV::Leaf(p) => {
            lemma_leaf_words(p);
            lemma_leaf_words_clean(p);
            lemma_word_line(depth, leaf_words(p));
            let line = indent(depth) + join_with(leaf_words(p), ' ');
            assert(good_lines(seq![line]));
        },
    }
}


proof fn lemma_field_line(key: Seq<char>, n: int)
    requires
        slash_free(key),
        forall|i: int| 0 <= i < key.len() ==> key[i] == ' ' || !is_ws(#[trigger] key[i]),
    ensures
        plain_line(key + dec_int(n)),
        no_open(key + dec_int(n)),
{
    let d = dec_int(n);
    lemma_dec_int_word(n);
    lemma_dec_clean(n);
    let l = key + d;
    assert(spaced(l)) by {
        assert forall|i: int| 0 <= i < l.len() implies #[trigger] l[i] == ' ' || !is_ws(l[i]) by {
            if i < key.len() {
                assert(l[i] == key[i]);
            } else {
                assert(l[i] == d[i - key.len()]);
            }
        }
        assert(l.last() == d.last());
    }
    lemma_spaced_plain(l);
    assert(slash_free(l)) by {
        assert forall|i: int| 0 <= i < l.len() implies #[trigger] l[i] != '/' by {
            if i < key.len() {
                assert(l[i] == key[i]);
            } else {
                assert(l[i] == d[i - key.len()]);
            }
        }
    }
    lemma_slash_free_no_open(l);
}

proof fn lemma_field_keys()
    ensures
        "Bitdepth "@ == seq!['B', 'i', 't', 'd', 'e', 'p', 't', 'h', ' '],
        "Orientation "@ == seq!['O', 'r', 'i', 'e', 'n', 't', 'a', 't', 'i', 'o', 'n', ' '],
        "RCT "@ == seq!['R', 'C', 'T', ' '],
        "Channels "@ == seq!['C', 'h', 'a', 'n', 'n', 'e', 'l', 's', ' '],
        "Width "@ == seq!['W', 'i', 'd', 't', 'h', ' '],
        "Height "@ == seq!['H', 'e', 'i', 'g', 'h', 't', ' '],
        "Bitdepth"@ == seq!['B', 'i', 't', 'd', 'e', 'p', 't', 'h'],
        "Orientation"@ == seq!['O', 'r', 'i', 'e', 'n', 't', 'a', 't', 'i', 'o', 'n'],
        "RCT"@ == seq!['R', 'C', 'T'],
        "Channels"@ == seq!['C', 'h', 'a', 'n', 'n', 'e', 'l', 's'],
        "Width"@ == seq!['W', 'i', 'd', 't', 'h'],
        "Height"@ == seq!['H', 'e', 'i', 'g', 'h', 't'],
        "Spline"@ == seq!['S', 'p', 'l', 'i', 'n', 'e'],
        "EndSpline"@ == seq!['E', 'n', 'd', 'S', 'p', 'l', 'i', 'n', 'e'],
{
    reveal_strlit("Bitdepth ");
    reveal_strlit("Orientation ");
    reveal_strlit("RCT ");
    reveal_strlit("Channels ");
    reveal_strlit("Width ");
    reveal_strlit("Height ");
    reveal_strlit("Bitdepth");
    reveal_strlit("Orientation");
    reveal_strlit("RCT");
    reveal_strlit("Channels");
    reveal_strlit("Width");
    reveal_strlit("Height");
    reveal_strlit("Spline");
    reveal_strlit("EndSpline");
}

pub proof fn lemma_fields_good(p: ProgramV)
    ensures
        good_lines(field_lines(p)),
{
    lemma_field_keys();
    let keys = seq!["Bitdepth "@, "Orientation "@, "RCT "@, "Channels "@, "Width "@, "Height "@];
    assert forall|k: int| 0 <= k < keys.len() implies slash_free(#[trigger] keys[k]) && (forall|i: int|
        0 <= i < keys[k].len() ==> keys[k][i] == ' ' || !is_ws(#[trigger] keys[k][i])) by {}
    lemma_field_line(keys[0], p.bitdepth as int);
    lemma_field_line(keys[1], 0);
    if let Some(o) = p.orientation {
        lemma_field_line(keys[1], o as int);
    }
    if let Some(r) = p.rct {
        lemma_field_line(keys[2], r as int);
    }
    lemma_field_line(keys[3], p.channels as int);
    lemma_field_line(keys[4], p.width as int);
    lemma_field_line(keys[5], p.height as int);
    let fl = field_lines(p);
    assert forall|i: int| 0 <= i < fl.len() implies plain_line(#[trigger] fl[i]) && no_open(fl[i]) by {
        let b = seq!["Bitdepth "@ + dec_int(p.bitdepth as int)];
        let o = match p.orientation {
            Some(x) => seq!["Orientation "@ + dec_int(x as int)],
            None => Seq::<Seq<char>>::empty(),
        };
        let r = match p.rct {
            Some(x) => seq!["RCT "@ + dec_int(x as int)],
            None => Seq::<Seq<char>>::empty(),
        };
        let c = if p.channels != 3 {
            seq!["Channels "@ + dec_int(p.channels as int)]
        } else {
            Seq::<Seq<char>>::empty()
        };
        let z = if p.width != 1024 || p.height != 1024 {
            seq!["Width "@ + dec_int(p.width as int), "Height "@ + dec_int(p.height as int)]
        } else {
            Seq::<Seq<char>>::empty()
        };
        assert(fl == b + o + r + c + z);
        if i < 1 {
            assert(fl[i] == b[0]);
        } else if i < 1 + o.len() {
            assert(fl[i] == o[i - 1]);
        } else if i < 1 + o.len() + r.len() {
            assert(fl[i] == r[i - 1 - o.len()]);
        } else if i < 1 + o.len() + r.len() + c.len() {
            assert(fl[i] == c[i - 1 - o.len() - r.len()]);
        } else {
            assert(fl[i] == z[i - 1 - o.len() - r.len() - c.len()]);
        }
    }
}

proof fn lemma_no_open_parts(a: Seq<char>, b: Seq<char>)
    requires
        no_open(a + b),
    ensures
        no_open(a),
        no_open(b),
{
    assert forall|i: int| 0 <= i < a.len() - 1 implies !(#[trigger] a[i] == '/' && a[i + 1] == '*') by {
        assert((a + b)[i] == a[i] && (a + b)[i + 1] == a[i + 1]);
    }
    assert forall|i: int| 0 <= i < b.len() - 1 implies !(#[trigger] b[i] == '/' && b[i + 1] == '*') by {
        assert((a + b)[a.len() + i] == b[i] && (a + b)[a.len() + i + 1] == b[i + 1]);
    }
}

/// The parts of a text joined by spaces hold no comment marker when the
/// whole holds none.
proof fn lemma_join_parts_no_open(ws: Seq<Seq<char>>)
    requires
        no_open(join_with(ws, ' ')),
    ensures
        forall|j: int| 0 <= j < ws.len() ==> no_open(#[trigger] ws[j]),
    decreases ws.len(),
{
    if ws.len() > 1 {
        let j0 = join_with(ws.drop_last(), ' ');
        assert(join_with(ws, ' ') == j0 + seq![' '] + ws.last());
        lemma_no_open_parts(j0 + seq![' '], ws.last());
        lemma_no_open_parts(j0, seq![' ']);
        lemma_join_parts_no_open(ws.drop_last());
        assert forall|j: int| 0 <= j < ws.len() implies no_open(#[trigger] ws[j]) by {
            if j < ws.len() - 1 {
                assert(ws[j] == ws.drop_last()[j]);
            }
        }
    }
}

/// Verbatim header lines are plain and hold no comment marker.
pub proof fn lemma_headers_good(hs: Seq<Seq<char>>, extra: bool)
    requires
        forall|i: int| 0 <= i < hs.len() ==> directive_line(#[trigger] hs[i], extra),
    ensures
        good_lines(hs),
{
    assert forall|i: int| 0 <= i < hs.len() implies plain_line(#[trigger] hs[i]) && no_open(hs[i]) by {
        let h = hs[i];
        assert(directive_line(h, extra));
        let t = tokens(h);
        lemma_toks_words(h, seq![]);
        lemma_join_parts_no_open(t);
        lemma_word_line(0, t);
        assert(indent(0) + join_with(t, ' ') =~= h);
    }
}


proof fn lemma_empty_good()
    ensures
        good_lines(seq![Seq::<char>::empty()]),
{
    let e = Seq::<char>::empty();
    assert(plain_line(e) && no_open(e));
    assert(seq![e][0] == e);
}

pub proof fn lemma_splines_good(ss: Seq<Seq<char>>)
    requires
        forall|i: int| 0 <= i < ss.len() ==> spline_ok(#[trigger] ss[i]),
    ensures
        good_lines(splines_lines(ss)),
    decreases ss.len(),
{
    if ss.len() > 0 {
        let rest = ss.drop_first();
        assert forall|i: int| 0 <= i < rest.len() implies spline_ok(#[trigger] rest[i]) by {
            assert(rest[i] == ss[i + 1]);
        }
        lemma_splines_good(rest);
        assert(spline_ok(ss[0]));
        lemma_spline_lines(ss[0]);
        let l = spline_lines(ss[0]);
        assert(good_lines(l));
        lemma_empty_good();
        lemma_good_concat(l, seq![Seq::<char>::empty()]);
        lemma_good_concat(l + seq![Seq::<char>::empty()], splines_lines(rest));
    }
}

pub proof fn lemma_frames_good(fs: Seq<FrameV>)
    requires
        forall|k: int| 0 <= k < fs.len() ==> frame_ok(#[trigger] fs[k]),
    ensures
        good_lines(frames_lines(fs)),
    decreases fs.len(),
{
    if fs.len() > 0 {
        let rest = fs.drop_first();
        assert forall|k: int| 0 <= k < rest.len() implies frame_ok(#[trigger] rest[k]) by {
            assert(rest[k] == fs[k + 1]);
        }
        lemma_frames_good(rest);
        let f = fs[0];
        assert(frame_ok(f));
        let e = seq![Seq::<char>::empty()];
        lemma_empty_good();
        lemma_headers_good(f.headers, false);
        lemma_splines_good(f.splines);
        lemma_node_good(f.root, 0);
        lemma_good_concat(e, f.headers);
        lemma_good_concat(e + f.headers, e);
        lemma_good_concat(e + f.headers + e, splines_lines(f.splines));
        lemma_good_concat(e + f.headers + e + splines_lines(f.splines), node_lines(f.root, 0));
        lemma_good_concat(frame_lines(f), frames_lines(rest));
    }
}

/// A well-formed program's lines are plain and hold no comment marker.
pub proof fn lemma_program_good(p: ProgramV)
    requires
        program_ok(p),
    ensures
        good_lines(program_lines(p)),
{
    let e = seq![Seq::<char>::empty()];
    lemma_empty_good();
    lemma_fields_good(p);
    lemma_headers_good(p.headers, true);
    lemma_splines_good(p.splines);
    lemma_node_good(p.root, 0);
    lemma_frames_good(p.frames);
    let f = field_lines(p);
    lemma_good_concat(f, p.headers);
    lemma_good_concat(f + p.headers, e);
    lemma_good_concat(f + p.headers + e, splines_lines(p.splines));
    lemma_good_concat(f + p.headers + e + splines_lines(p.splines), node_lines(p.root, 0));
    lemma_good_concat(
        f + p.headers + e + splines_lines(p.splines) + node_lines(p.root, 0),
        frames_lines(p.frames),
    );
}

/// Reading a well-formed program's text splits it into its lines.
pub proof fn lemma_program_read_lines(p: ProgramV)
    requires
        program_ok(p),
    ensures
        lines(strip_comments(program_text(p))) == program_lines(p),
{
    lemma_program_text(p);
    lemma_program_good(p);
    let ls = program_lines(p);
    assert forall|i: int| 0 <= i < ls.len() implies no_open(#[trigger] ls[i]) by {}
    lemma_no_open_lines(ls);
    lemma_strip_plain(lines_text(ls));
    assert forall|i: int| 0 <= i < ls.len() implies plain_line(#[trigger] ls[i]) by {}
    lemma_lines_of_text(ls);
}


// ── Reading the header ────────────────────────────────────────────────────────

proof fn lemma_keys_distinct()
    ensures
        "Squeeze"@ != "Bitdepth"@,
        "Squeeze"@ != "Width"@,
        "Squeeze"@ != "Height"@,
        "Squeeze"@ != "Channels"@,
        "Squeeze"@ != "Orientation"@,
        "Squeeze"@ != "RCT"@,
        "Squeeze"@ != "if"@,
        "Squeeze"@ != "-"@,
        "Squeeze"@ != "Spline"@,
        "DeltaPalette"@ != "Bitdepth"@,
        "DeltaPalette"@ != "Width"@,
        "DeltaPalette"@ != "Height"@,
        "DeltaPalette"@ != "Channels"@,
        "DeltaPalette"@ != "Orientation"@,
        "DeltaPalette"@ != "RCT"@,
        "DeltaPalette"@ != "if"@,
        "DeltaPalette"@ != "-"@,
        "DeltaPalette"@ != "Spline"@,
        "Gaborish"@ != "Bitdepth"@,
        "Gaborish"@ != "Width"@,
        "Gaborish"@ != "Height"@,
        "Gaborish"@ != "Channels"@,
        "Gaborish"@ != "Orientation"@,
        "Gaborish"@ != "RCT"@,
        "Gaborish"@ != "if"@,
        "Gaborish"@ != "-"@,
        "Gaborish"@ != "Spline"@,
        "XYB"@ != "Bitdepth"@,
        "XYB"@ != "Width"@,
        "XYB"@ != "Height"@,
        "XYB"@ != "Channels"@,
        "XYB"@ != "Orientation"@,
        "XYB"@ != "RCT"@,
        "XYB"@ != "if"@,
        "XYB"@ != "-"@,
        "XYB"@ != "Spline"@,
        "XYBFactors"@ != "Bitdepth"@,
        "XYBFactors"@ != "Width"@,
        "XYBFactors"@ != "Height"@,
        "XYBFactors"@ != "Channels"@,
        "XYBFactors"@ != "Orientation"@,
        "XYBFactors"@ != "RCT"@,
        "XYBFactors"@ != "if"@,
        "XYBFactors"@ != "-"@,
        "XYBFactors"@ != "Spline"@,
        "Alpha"@ != "Bitdepth"@,
        "Alpha"@ != "Width"@,
        "Alpha"@ != "Height"@,
        "Alpha"@ != "Channels"@,
        "Alpha"@ != "Orientation"@,
        "Alpha"@ != "RCT"@,
        "Alpha"@ != "if"@,
        "Alpha"@ != "-"@,
        "Alpha"@ != "Spline"@,
        "NotLast"@ != "Bitdepth"@,
        "NotLast"@ != "Width"@,
        "NotLast"@ != "Height"@,
        "NotLast"@ != "Channels"@,
        "NotLast"@ != "Orientation"@,
        "NotLast"@ != "RCT"@,
        "NotLast"@ != "if"@,
        "NotLast"@ != "-"@,
        "NotLast"@ != "Spline"@,
        "EPF"@ != "Bitdepth"@,
        "EPF"@ != "Width"@,
        "EPF"@ != "Height"@,
        "EPF"@ != "Channels"@,
        "EPF"@ != "Orientation"@,
        "EPF"@ != "RCT"@,
        "EPF"@ != "if"@,
        "EPF"@ != "-"@,
        "EPF"@ != "Spline"@,
        "Upsample"@ != "Bitdepth"@,
        "Upsample"@ != "Width"@,
        "Upsample"@ != "Height"@,
        "Upsample"@ != "Channels"@,
        "Upsample"@ != "Orientation"@,
        "Upsample"@ != "RCT"@,
        "Upsample"@ != "if"@,
        "Upsample"@ != "-"@,
        "Upsample"@ != "Spline"@,
        "HiddenChannel"@ != "Bitdepth"@,
        "HiddenChannel"@ != "Width"@,
        "HiddenChannel"@ != "Height"@,
        "HiddenChannel"@ != "Channels"@,
        "HiddenChannel"@ != "Orientation"@,
        "HiddenChannel"@ != "RCT"@,
        "HiddenChannel"@ != "if"@,
        "HiddenChannel"@ != "-"@,
        "HiddenChannel"@ != "Spline"@,
        "Rec2100"@ != "Bitdepth"@,
        "Rec2100"@ != "Width"@,
        "Rec2100"@ != "Height"@,
        "Rec2100"@ != "Channels"@,
        "Rec2100"@ != "Orientation"@,
        "Rec2100"@ != "RCT"@,
        "Rec2100"@ != "if"@,
        "Rec2100"@ != "-"@,
        "Rec2100"@ != "Spline"@,
        "Noise"@ != "Bitdepth"@,
        "Noise"@ != "Width"@,
        "Noise"@ != "Height"@,
        "Noise"@ != "Channels"@,
        "Noise"@ != "Orientation"@,
        "Noise"@ != "RCT"@,
        "Noise"@ != "if"@,
        "Noise"@ != "-"@,
        "Noise"@ != "Spline"@,
        "FramePos"@ != "Bitdepth"@,
        "FramePos"@ != "Width"@,
        "FramePos"@ != "Height"@,
        "FramePos"@ != "Channels"@,
        "FramePos"@ != "Orientation"@,
        "FramePos"@ != "RCT"@,
        "FramePos"@ != "if"@,
        "FramePos"@ != "-"@,
        "FramePos"@ != "Spline"@,
        "SplineQuantizationAdjustment"@ != "Bitdepth"@,
        "SplineQuantizationAdjustment"@ != "Width"@,
        "SplineQuantizationAdjustment"@ != "Height"@,
        "SplineQuantizationAdjustment"@ != "Channels"@,
        "SplineQuantizationAdjustment"@ != "Orientation"@,
        "SplineQuantizationAdjustment"@ != "RCT"@,
        "SplineQuantizationAdjustment"@ != "if"@,
        "SplineQuantizationAdjustment"@ != "-"@,
        "SplineQuantizationAdjustment"@ != "Spline"@,
        "CbYCr"@ != "Bitdepth"@,
        "CbYCr"@ != "Width"@,
        "CbYCr"@ != "Height"@,
        "CbYCr"@ != "Channels"@,
        "CbYCr"@ != "Orientation"@,
        "CbYCr"@ != "RCT"@,
        "CbYCr"@ != "if"@,
        "CbYCr"@ != "-"@,
        "CbYCr"@ != "Spline"@,
        "PQ"@ != "Bitdepth"@,
        "PQ"@ != "Width"@,
        "PQ"@ != "Height"@,
        "PQ"@ != "Channels"@,
        "PQ"@ != "Orientation"@,
        "PQ"@ != "RCT"@,
        "PQ"@ != "if"@,
        "PQ"@ != "-"@,
        "PQ"@ != "Spline"@,
        "GroupShift"@ != "Bitdepth"@,
        "GroupShift"@ != "Width"@,
        "GroupShift"@ != "Height"@,
        "GroupShift"@ != "Channels"@,
        "GroupShift"@ != "Orientation"@,
        "GroupShift"@ != "RCT"@,
        "GroupShift"@ != "if"@,
        "GroupShift"@ != "-"@,
        "GroupShift"@ != "Spline"@,
        "FloatExpBits"@ != "Bitdepth"@,
        "FloatExpBits"@ != "Width"@,
        "FloatExpBits"@ != "Height"@,
        "FloatExpBits"@ != "Channels"@,
        "FloatExpBits"@ != "Orientation"@,
        "FloatExpBits"@ != "RCT"@,
        "FloatExpBits"@ != "if"@,
        "FloatExpBits"@ != "-"@,
        "FloatExpBits"@ != "Spline"@,
        "Bitdepth"@ != "Width"@,
        "Bitdepth"@ != "Height"@,
        "Bitdepth"@ != "Channels"@,
        "Bitdepth"@ != "Orientation"@,
        "Bitdepth"@ != "RCT"@,
        "Bitdepth"@ != "if"@,
        "Bitdepth"@ != "-"@,
        "Bitdepth"@ != "Spline"@,
        "Width"@ != "Height"@,
        "Width"@ != "Channels"@,
        "Width"@ != "Orientation"@,
        "Width"@ != "RCT"@,
        "Width"@ != "if"@,
        "Width"@ != "-"@,
        "Width"@ != "Spline"@,
        "Height"@ != "Channels"@,
        "Height"@ != "Orientation"@,
        "Height"@ != "RCT"@,
        "Height"@ != "if"@,
        "Height"@ != "-"@,
        "Height"@ != "Spline"@,
        "Channels"@ != "Orientation"@,
        "Channels"@ != "RCT"@,
        "Channels"@ != "if"@,
        "Channels"@ != "-"@,
        "Channels"@ != "Spline"@,
        "Orientation"@ != "RCT"@,
        "Orientation"@ != "if"@,
        "Orientation"@ != "-"@,
        "Orientation"@ != "Spline"@,
        "RCT"@ != "if"@,
        "RCT"@ != "-"@,
        "RCT"@ != "Spline"@,
        "if"@ != "-"@,
        "if"@ != "Spline"@,
        "-"@ != "Spline"@,
{
    reveal_strlit("Squeeze");
    reveal_strlit("DeltaPalette");
    reveal_strlit("Gaborish");
    reveal_strlit("XYB");
    reveal_strlit("XYBFactors");
    reveal_strlit("Alpha");
    reveal_strlit("NotLast");
    reveal_strlit("EPF");
    reveal_strlit("Upsample");
    reveal_strlit("HiddenChannel");
    reveal_strlit("Rec2100");
    reveal_strlit("Noise");
    reveal_strlit("FramePos");
    reveal_strlit("SplineQuantizationAdjustment");
    reveal_strlit("CbYCr");
    reveal_strlit("PQ");
    reveal_strlit("GroupShift");
    reveal_strlit("FloatExpBits");
    reveal_strlit("Bitdepth");
    reveal_strlit("Width");
    reveal_strlit("Height");
    reveal_strlit("Channels");
    reveal_strlit("Orientation");
    reveal_strlit("RCT");
    reveal_strlit("if");
    reveal_strlit("-");
    reveal_strlit("Spline");
    assert("Squeeze"@.len() != "Bitdepth"@.len());
    assert("Squeeze"@.len() != "Width"@.len());
    assert("Squeeze"@.len() != "Height"@.len());
    assert("Squeeze"@.len() != "Channels"@.len());
    assert("Squeeze"@.len() != "Orientation"@.len());
    assert("Squeeze"@.len() != "RCT"@.len());
    assert("Squeeze"@.len() != "if"@.len());
    assert("Squeeze"@.len() != "-"@.len());
    assert("Squeeze"@.len() != "Spline"@.len());
    assert("DeltaPalette"@.len() != "Bitdepth"@.len());
    assert("DeltaPalette"@.len() != "Width"@.len());
    assert("DeltaPalette"@.len() != "Height"@.len());
    assert("DeltaPalette"@.len() != "Channels"@.len());
    assert("DeltaPalette"@.len() != "Orientation"@.len());
    assert("DeltaPalette"@.len() != "RCT"@.len());
    assert("DeltaPalette"@.len() != "if"@.len());
    assert("DeltaPalette"@.len() != "-"@.len());
    assert("DeltaPalette"@.len() != "Spline"@.len());
    assert("Gaborish"@[0] != "Bitdepth"@[0]);
    assert("Gaborish"@.len() != "Width"@.len());
    assert("Gaborish"@.len() != "Height"@.len());
    assert("Gaborish"@[0] != "Channels"@[0]);
    assert("Gaborish"@.len() != "Orientation"@.len());
    assert("Gaborish"@.len() != "RCT"@.len());
    assert("Gaborish"@.len() != "if"@.len());
    assert("Gaborish"@.len() != "-"@.len());
    assert("Gaborish"@.len() != "Spline"@.len());
    assert("XYB"@.len() != "Bitdepth"@.len());
    assert("XYB"@.len() != "Width"@.len());
    assert("XYB"@.len() != "Height"@.len());
    assert("XYB"@.len() != "Channels"@.len());
    assert("XYB"@.len() != "Orientation"@.len());
    assert("XYB"@[0] != "RCT"@[0]);
    assert("XYB"@.len() != "if"@.len());
    assert("XYB"@.len() != "-"@.len());
    assert("XYB"@.len() != "Spline"@.len());
    assert("XYBFactors"@.len() != "Bitdepth"@.len());
    assert("XYBFactors"@.len() != "Width"@.len());
    assert("XYBFactors"@.len() != "Height"@.len());
    assert("XYBFactors"@.len() != "Channels"@.len());
    assert("XYBFactors"@.len() != "Orientation"@.len());
    assert("XYBFactors"@.len() != "RCT"@.len());
    assert("XYBFactors"@.len() != "if"@.len());
    assert("XYBFactors"@.len() != "-"@.len());
    assert("XYBFactors"@.len() != "Spline"@.len());
    assert("Alpha"@.len() != "Bitdepth"@.len());
    assert("Alpha"@[0] != "Width"@[0]);
    assert("Alpha"@.len() != "Height"@.len());
    assert("Alpha"@.len() != "Channels"@.len());
    assert("Alpha"@.len() != "Orientation"@.len());
    assert("Alpha"@.len() != "RCT"@.len());
    assert("Alpha"@.len() != "if"@.len());
    assert("Alpha"@.len() != "-"@.len());
    assert("Alpha"@.len() != "Spline"@.len());
    assert("NotLast"@.len() != "Bitdepth"@.len());
    assert("NotLast"@.len() != "Width"@.len());
    assert("NotLast"@.len() != "Height"@.len());
    assert("NotLast"@.len() != "Channels"@.len());
    assert("NotLast"@.len() != "Orientation"@.len());
    assert("NotLast"@.len() != "RCT"@.len());
    assert("NotLast"@.len() != "if"@.len());
    assert("NotLast"@.len() != "-"@.len());
    assert("NotLast"@.len() != "Spline"@.len());
    assert("EPF"@.len() != "Bitdepth"@.len());
    assert("EPF"@.len() != "Width"@.len());
    assert("EPF"@.len() != "Height"@.len());
    assert("EPF"@.len() != "Channels"@.len());
    assert("EPF"@.len() != "Orientation"@.len());
    assert("EPF"@[0] != "RCT"@[0]);
    assert("EPF"@.len() != "if"@.len());
    assert("EPF"@.len() != "-"@.len());
    assert("EPF"@.len() != "Spline"@.len());
    assert("Upsample"@[0] != "Bitdepth"@[0]);
    assert("Upsample"@.len() != "Width"@.len());
    assert("Upsample"@.len() != "Height"@.len());
    assert("Upsample"@[0] != "Channels"@[0]);
    assert("Upsample"@.len() != "Orientation"@.len());
    assert("Upsample"@.len() != "RCT"@.len());
    assert("Upsample"@.len() != "if"@.len());
    assert("Upsample"@.len() != "-"@.len());
    assert("Upsample"@.len() != "Spline"@.len());
    assert("HiddenChannel"@.len() != "Bitdepth"@.len());
    assert("HiddenChannel"@.len() != "Width"@.len());
    assert("HiddenChannel"@.len() != "Height"@.len());
    assert("HiddenChannel"@.len() != "Channels"@.len());
    assert("HiddenChannel"@.len() != "Orientation"@.len());
    assert("HiddenChannel"@.len() != "RCT"@.len());
    assert("HiddenChannel"@.len() != "if"@.len());
    assert("HiddenChannel"@.len() != "-"@.len());
    assert("HiddenChannel"@.len() != "Spline"@.len());
    assert("Rec2100"@.len() != "Bitdepth"@.len());
    assert("Rec2100"@.len() != "Width"@.len());
    assert("Rec2100"@.len() != "Height"@.len());
    assert("Rec2100"@.len() != "Channels"@.len());
    assert("Rec2100"@.len() != "Orientation"@.len());
    assert("Rec2100"@.len() != "RCT"@.len());
    assert("Rec2100"@.len() != "if"@.len());
    assert("Rec2100"@.len() != "-"@.len());
    assert("Rec2100"@.len() != "Spline"@.len());
    assert("Noise"@.len() != "Bitdepth"@.len());
    assert("Noise"@[0] != "Width"@[0]);
    assert("Noise"@.len() != "Height"@.len());
    assert("Noise"@.len() != "Channels"@.len());
    assert("Noise"@.len() != "Orientation"@.len());
    assert("Noise"@.len() != "RCT"@.len());
    assert("Noise"@.len() != "if"@.len());
    assert("Noise"@.len() != "-"@.len());
    assert("Noise"@.len() != "Spline"@.len());
    assert("FramePos"@[0] != "Bitdepth"@[0]);
    assert("FramePos"@.len() != "Width"@.len());
    assert("FramePos"@.len() != "Height"@.len());
    assert("FramePos"@[0] != "Channels"@[0]);
    assert("FramePos"@.len() != "Orientation"@.len());
    assert("FramePos"@.len() != "RCT"@.len());
    assert("FramePos"@.len() != "if"@.len());
    assert("FramePos"@.len() != "-"@.len());
    assert("FramePos"@.len() != "Spline"@.len());
    assert("SplineQuantizationAdjustment"@.len() != "Bitdepth"@.len());
    assert("SplineQuantizationAdjustment"@.len() != "Width"@.len());
    assert("SplineQuantizationAdjustment"@.len() != "Height"@.len());
    assert("SplineQuantizationAdjustment"@.len() != "Channels"@.len());
    assert("SplineQuantizationAdjustment"@.len() != "Orientation"@.len());
    assert("SplineQuantizationAdjustment"@.len() != "RCT"@.len());
    assert("SplineQuantizationAdjustment"@.len() != "if"@.len());
    assert("SplineQuantizationAdjustment"@.len() != "-"@.len());
    assert("SplineQuantizationAdjustment"@.len() != "Spline"@.len());
    assert("CbYCr"@.len() != "Bitdepth"@.len());
    assert("CbYCr"@[0] != "Width"@[0]);
    assert("CbYCr"@.len() != "Height"@.len());
    assert("CbYCr"@.len() != "Channels"@.len());
    assert("CbYCr"@.len() != "Orientation"@.len());
    assert("CbYCr"@.len() != "RCT"@.len());
    assert("CbYCr"@.len() != "if"@.len());
    assert("CbYCr"@.len() != "-"@.len());
    assert("CbYCr"@.len() != "Spline"@.len());
    assert("PQ"@.len() != "Bitdepth"@.len());
    assert("PQ"@.len() != "Width"@.len());
    assert("PQ"@.len() != "Height"@.len());
    assert("PQ"@.len() != "Channels"@.len());
    assert("PQ"@.len() != "Orientation"@.len());
    assert("PQ"@.len() != "RCT"@.len());
    assert("PQ"@[0] != "if"@[0]);
    assert("PQ"@.len() != "-"@.len());
    assert("PQ"@.len() != "Spline"@.len());
    assert("GroupShift"@.len() != "Bitdepth"@.len());
    assert("GroupShift"@.len() != "Width"@.len());
    assert("GroupShift"@.len() != "Height"@.len());
    assert("GroupShift"@.len() != "Channels"@.len());
    assert("GroupShift"@.len() != "Orientation"@.len());
    assert("GroupShift"@.len() != "RCT"@.len());
    assert("GroupShift"@.len() != "if"@.len());
    assert("GroupShift"@.len() != "-"@.len());
    assert("GroupShift"@.len() != "Spline"@.len());
    assert("FloatExpBits"@.len() != "Bitdepth"@.len());
    assert("FloatExpBits"@.len() != "Width"@.len());
    assert("FloatExpBits"@.len() != "Height"@.len());
    assert("FloatExpBits"@.len() != "Channels"@.len());
    assert("FloatExpBits"@.len() != "Orientation"@.len());
    assert("FloatExpBits"@.len() != "RCT"@.len());
    assert("FloatExpBits"@.len() != "if"@.len());
    assert("FloatExpBits"@.len() != "-"@.len());
    assert("FloatExpBits"@.len() != "Spline"@.len());
    assert("Bitdepth"@.len() != "Width"@.len());
    assert("Bitdepth"@.len() != "Height"@.len());
    assert("Bitdepth"@[0] != "Channels"@[0]);
    assert("Bitdepth"@.len() != "Orientation"@.len());
    assert("Bitdepth"@.len() != "RCT"@.len());
    assert("Bitdepth"@.len() != "if"@.len());
    assert("Bitdepth"@.len() != "-"@.len());
    assert("Bitdepth"@.len() != "Spline"@.len());
    assert("Width"@.len() != "Height"@.len());
    assert("Width"@.len() != "Channels"@.len());
    assert("Width"@.len() != "Orientation"@.len());
    assert("Width"@.len() != "RCT"@.len());
    assert("Width"@.len() != "if"@.len());
    assert("Width"@.len() != "-"@.len());
    assert("Width"@.len() != "Spline"@.len());
    assert("Height"@.len() != "Channels"@.len());
    assert("Height"@.len() != "Orientation"@.len());
    assert("Height"@.len() != "RCT"@.len());
    assert("Height"@.len() != "if"@.len());
    assert("Height"@.len() != "-"@.len());
    assert("Height"@[0] != "Spline"@[0]);
    assert("Channels"@.len() != "Orientation"@.len());
    assert("Channels"@.len() != "RCT"@.len());
    assert("Channels"@.len() != "if"@.len());
    assert("Channels"@.len() != "-"@.len());
    assert("Channels"@.len() != "Spline"@.len());
    assert("Orientation"@.len() != "RCT"@.len());
    assert("Orientation"@.len() != "if"@.len());
    assert("Orientation"@.len() != "-"@.len());
    assert("Orientation"@.len() != "Spline"@.len());
    assert("RCT"@.len() != "if"@.len());
    assert("RCT"@.len() != "-"@.len());
    assert("RCT"@.len() != "Spline"@.len());
    assert("if"@.len() != "-"@.len());
    assert("if"@.len() != "Spline"@.len());
    assert("-"@.len() != "Spline"@.len());
}

/// A directive passed through verbatim is none of the structured ones and
/// none of the words that end a header.
pub proof fn lemma_extra_key(k: Seq<char>)
    requires
        is_extra_key(k),
    ensures
        k != "Bitdepth"@ && k != "Width"@ && k != "Height"@ && k != "Channels"@ && k
            != "Orientation"@ && k != "RCT"@,
        k != "if"@ && k != "-"@ && k != "Spline"@,
{
    lemma_keys_distinct();
}

/// A directive the format knows is none of the words that end a header.
pub proof fn lemma_recognised_key(k: Seq<char>)
    requires
        is_recognised_key(k),
    ensures
        k != "if"@ && k != "-"@ && k != "Spline"@,
{
    lemma_keys_distinct();
}

proof fn lemma_h0_directive(ls: Seq<Seq<char>>, i: int, h: HeaderV, h2: HeaderV)
    requires
        0 <= i < ls.len(),
        tokens(ls[i]).len() > 0,
        tokens(ls[i])[0] != "if"@ && tokens(ls[i])[0] != "-"@ && tokens(ls[i])[0] != "Spline"@,
        directive(h, tokens(ls[i])) == Ok::<HeaderV, Seq<char>>(h2),
    ensures
        parse_header0(ls, i, h) == parse_header0(ls, i + 1, h2),
{
}

proof fn lemma_h0_blank(ls: Seq<Seq<char>>, i: int, h: HeaderV)
    requires
        0 <= i < ls.len(),
        tokens(ls[i]).len() == 0,
    ensures
        parse_header0(ls, i, h) == parse_header0(ls, i + 1, h),
{
}

/// A structured directive line with its value.
proof fn lemma_field_tokens(key: Seq<char>, n: u32)
    requires
        word(key),
    ensures
        tokens(key + seq![' '] + dec_int(n as int)) == seq![key, dec_int(n as int)],
        u32_arg(seq![dec_int(n as int)], key) == Ok::<u32, Seq<char>>(n),
{
    lemma_dec_int_word(n as int);
    lemma_join2(key, dec_int(n as int));
    let ws = seq![key, dec_int(n as int)];
    assert(all_words(ws));
    lemma_tokens_join(ws);
    lemma_parse_dec_u32(n);
}

/// The header the structured lines of `p` set up.
pub open spec fn field_header(p: ProgramV) -> HeaderV {
    HeaderV {
        bitdepth: p.bitdepth,
        width: p.width,
        height: p.height,
        channels: p.channels,
        orientation: p.orientation,
        rct: p.rct,
        headers: seq![],
        splines: seq![],
    }
}

proof fn lemma_field_keys_words()
    ensures
        word("Bitdepth"@) && "Bitdepth"@ + seq![' '] == "Bitdepth "@,
        word("Orientation"@) && "Orientation"@ + seq![' '] == "Orientation "@,
        word("RCT"@) && "RCT"@ + seq![' '] == "RCT "@,
        word("Channels"@) && "Channels"@ + seq![' '] == "Channels "@,
        word("Width"@) && "Width"@ + seq![' '] == "Width "@,
        word("Height"@) && "Height"@ + seq![' '] == "Height "@,
{
    lemma_field_keys();
    assert("Bitdepth"@ + seq![' '] =~= "Bitdepth "@);
    assert("Orientation"@ + seq![' '] =~= "Orientation "@);
    assert("RCT"@ + seq![' '] =~= "RCT "@);
    assert("Channels"@ + seq![' '] =~= "Channels "@);
    assert("Width"@ + seq![' '] =~= "Width "@);
    assert("Height"@ + seq![' '] =~= "Height "@);
}

/// Reading the structured lines sets the fields they name.
pub proof fn lemma_h0_fields(ls: Seq<Seq<char>>, p: ProgramV)
    requires
        field_lines(p).len() < ls.len(),
        ls.subrange(0, field_lines(p).len() as int) == field_lines(p),
    ensures
        parse_header0(ls, 0, default_header()) == parse_header0(
            ls,
            field_lines(p).len() as int,
            field_header(p),
        ),
{
    lemma_field_keys_words();
    lemma_keys_distinct();
    let fl = field_lines(p);
    assert forall|i: int| 0 <= i < fl.len() implies ls[i] == #[trigger] fl[i] by {
        assert(ls.subrange(0, fl.len() as int)[i] == ls[i]);
    }
    let bl = seq!["Bitdepth "@ + dec_int(p.bitdepth as int)];
    let ol = match p.orientation {
        Some(x) => seq!["Orientation "@ + dec_int(x as int)],
        None => Seq::<Seq<char>>::empty(),
    };
    let rl = match p.rct {
        Some(x) => seq!["RCT "@ + dec_int(x as int)],
        None => Seq::<Seq<char>>::empty(),
    };
    let cl = if p.channels != 3 {
        seq!["Channels "@ + dec_int(p.channels as int)]
    } else {
        Seq::<Seq<char>>::empty()
    };
    let zl = if p.width != 1024 || p.height != 1024 {
        seq!["Width "@ + dec_int(p.width as int), "Height "@ + dec_int(p.height as int)]
    } else {
        Seq::<Seq<char>>::empty()
    };
    assert(fl == bl + ol + rl + cl + zl);
    assert(fl[0] == bl[0]);
    if ol.len() > 0 {
        assert(fl[1] == ol[0]);
    }
    if rl.len() > 0 {
        assert(fl[(1 + ol.len()) as int] == rl[0]);
    }
    if cl.len() > 0 {
        assert(fl[(1 + ol.len() + rl.len()) as int] == cl[0]);
    }
    if zl.len() > 0 {
        assert(fl[(1 + ol.len() + rl.len() + cl.len()) as int] == zl[0]);
        assert(fl[(1 + ol.len() + rl.len() + cl.len() + 1) as int] == zl[1]);
    }
    let b = p.bitdepth;
    let h0 = default_header();
    let h1 = HeaderV { bitdepth: b, ..h0 };
    lemma_field_tokens("Bitdepth"@, b);
    assert(ls[0] == "Bitdepth"@ + seq![' '] + dec_int(b as int));
    lemma_h0_directive(ls, 0, h0, h1);
    let mut i: int = 1;
    let h2 = match p.orientation {
        Some(o) => HeaderV { orientation: Some(o), ..h1 },
        None => h1,
    };
    if let Some(o) = p.orientation {
        lemma_field_tokens("Orientation"@, o);
        assert(ls[1] == "Orientation"@ + seq![' '] + dec_int(o as int));
        lemma_h0_directive(ls, 1, h1, h2);
        i = 2;
    }
    let i2 = i;
    let h3 = match p.rct {
        Some(r) => HeaderV { rct: Some(r), ..h2 },
        None => h2,
    };
    if let Some(r) = p.rct {
        lemma_field_tokens("RCT"@, r);
        assert(ls[i2] == "RCT"@ + seq![' '] + dec_int(r as int));
        lemma_h0_directive(ls, i2, h2, h3);
        i = i2 + 1;
    }
    let i3 = i;
    let h4 = HeaderV { channels: p.channels, ..h3 };
    if p.channels != 3 {
        lemma_field_tokens("Channels"@, p.channels);
        assert(ls[i3] == "Channels"@ + seq![' '] + dec_int(p.channels as int));
        lemma_h0_directive(ls, i3, h3, h4);
        i = i3 + 1;
    }
    let i4 = i;
    let h5 = HeaderV { width: p.width, ..h4 };
    let h6 = HeaderV { height: p.height, ..h5 };
    if p.width != 1024 || p.height != 1024 {
        lemma_field_tokens("Width"@, p.width);
        lemma_field_tokens("Height"@, p.height);
        assert(ls[i4] == "Width"@ + seq![' '] + dec_int(p.width as int));
        assert(ls[i4 + 1] == "Height"@ + seq![' '] + dec_int(p.height as int));
        lemma_h0_directive(ls, i4, h4, h5);
        lemma_h0_directive(ls, i4 + 1, h5, h6);
        i = i4 + 2;
    }
    assert(i == fl.len());
    assert(h6 == field_header(p));
}


pub proof fn lemma_sub_index(ls: Seq<Seq<char>>, i: int, seg: Seq<Seq<char>>, k: int)
    requires
        0 <= i,
        i + seg.len() <= ls.len(),
        ls.subrange(i, i + seg.len()) == seg,
        0 <= k < seg.len(),
    ensures
        ls[i + k] == seg[k],
{
    assert(ls.subrange(i, i + seg.len())[k] == ls[i + k]);
}

proof fn lemma_sub_tail(ls: Seq<Seq<char>>, i: int, seg: Seq<Seq<char>>, k: int)
    requires
        0 <= i,
        i + seg.len() <= ls.len(),
        ls.subrange(i, i + seg.len()) == seg,
        0 <= k <= seg.len(),
    ensures
        ls.subrange(i + k, i + seg.len()) == seg.subrange(k, seg.len() as int),
{
    assert(ls.subrange(i + k, i + seg.len()) =~= seg.subrange(k, seg.len() as int)) by {
        assert forall|j: int| 0 <= j < seg.len() - k implies ls.subrange(i + k, i + seg.len())[j]
            == seg.subrange(k, seg.len() as int)[j] by {
            lemma_sub_index(ls, i, seg, k + j);
        }
    }
}

/// Reading verbatim header lines of the first frame appends them.
pub proof fn lemma_h0_headers(ls: Seq<Seq<char>>, i: int, h: HeaderV, hs: Seq<Seq<char>>)
    requires
        0 <= i,
        i + hs.len() <= ls.len(),
        ls.subrange(i, i + hs.len()) == hs,
        forall|k: int| 0 <= k < hs.len() ==> directive_line(#[trigger] hs[k], true),
    ensures
        parse_header0(ls, i, h) == parse_header0(
            ls,
            i + hs.len(),
            HeaderV { headers: h.headers + hs, ..h },
        ),
    decreases hs.len(),
{
    if hs.len() == 0 {
        assert(h.headers + hs =~= h.headers);
    } else {
        lemma_sub_index(ls, i, hs, 0);
        let l = hs[0];
        assert(directive_line(l, true));
        let t = tokens(l);
        lemma_extra_key(t[0]);
        let h1 = HeaderV { headers: h.headers.push(join_with(t, ' ')), ..h };
        lemma_h0_directive(ls, i, h, h1);
        let rest = hs.drop_first();
        lemma_sub_tail(ls, i, hs, 1);
        assert(hs.subrange(1, hs.len() as int) =~= rest);
        assert forall|k: int| 0 <= k < rest.len() implies directive_line(#[trigger] rest[k], true) by {
            assert(rest[k] == hs[k + 1]);
        }
        lemma_h0_headers(ls, i + 1, h1, rest);
        assert(h1.headers + rest =~= h.headers + hs);
    }
}

proof fn lemma_spline_end_from(ls: Seq<Seq<char>>, i: int, b: Seq<Seq<char>>, j: int)
    requires
        0 <= i,
        i + b.len() <= ls.len(),
        ls.subrange(i, i + b.len()) == b,
        spline_block(b),
        i + 1 <= j <= i + b.len() - 1,
    ensures
        spline_end(ls, j) == i + b.len(),
    decreases i + b.len() - j,
{
    lemma_sub_index(ls, i, b, j - i);
    if j < i + b.len() - 1 {
        assert(!tokens(b[j - i]).contains("EndSpline"@));
        lemma_spline_end_from(ls, i, b, j + 1);
    } else {
        assert(b[j - i] == b.last());
    }
}

/// Reading one spline block and the blank line after it.
proof fn lemma_h0_spline(ls: Seq<Seq<char>>, i: int, h: HeaderV, s: Seq<char>)
    requires
        spline_ok(s),
        0 <= i,
        i + spline_lines(s).len() + 1 <= ls.len(),
        ls.subrange(i, i + spline_lines(s).len() + 1) == spline_lines(s) + seq![Seq::<char>::empty()],
    ensures
        parse_header0(ls, i, h) == parse_header0(
            ls,
            i + spline_lines(s).len() + 1,
            HeaderV { splines: h.splines.push(s), ..h },
        ),
{
    lemma_spline_lines(s);
    lemma_keys_distinct();
    let b = spline_lines(s);
    let seg = b + seq![Seq::<char>::empty()];
    lemma_sub_index(ls, i, seg, 0);
    assert(seg[0] == b[0]);
    assert(ls.subrange(i, i + b.len()) =~= b) by {
        assert forall|k: int| 0 <= k < b.len() implies ls.subrange(i, i + b.len())[k] == b[k] by {
            lemma_sub_index(ls, i, seg, k);
        }
    }
    lemma_spline_end_from(ls, i, b, i + 1);
    let e = i + b.len();
    lemma_sub_index(ls, i, seg, b.len() as int);
    assert(ls[e] == Seq::<char>::empty());
    assert(tokens(ls[e]) =~= Seq::<Seq<char>>::empty());
    let h1 = HeaderV { splines: h.splines.push(join_with(ls.subrange(i, e), '\n')), ..h };
    assert(parse_header0(ls, i, h) == parse_header0(ls, e, h1));
    lemma_h0_blank(ls, e, h1);
}

/// Reading spline blocks appends them.
pub proof fn lemma_h0_splines(ls: Seq<Seq<char>>, i: int, h: HeaderV, ss: Seq<Seq<char>>)
    requires
        forall|k: int| 0 <= k < ss.len() ==> spline_ok(#[trigger] ss[k]),
        0 <= i,
        i + splines_lines(ss).len() <= ls.len(),
        ls.subrange(i, i + splines_lines(ss).len()) == splines_lines(ss),
    ensures
        parse_header0(ls, i, h) == parse_header0(
            ls,
            i + splines_lines(ss).len(),
            HeaderV { splines: h.splines + ss, ..h },
        ),
    decreases ss.len(),
{
    if ss.len() == 0 {
        assert(h.splines + ss =~= h.splines);
    } else {
        let s = ss[0];
        assert(spline_ok(s));
        let rest = ss.drop_first();
        let first = spline_lines(s) + seq![Seq::<char>::empty()];
        let all = splines_lines(ss);
        assert(all == first + splines_lines(rest));
        assert(ls.subrange(i, i + first.len()) =~= first) by {
            assert forall|k: int| 0 <= k < first.len() implies ls.subrange(i, i + first.len())[k]
                == first[k] by {
                lemma_sub_index(ls, i, all, k);
            }
        }
        lemma_h0_spline(ls, i, h, s);
        let h1 = HeaderV { splines: h.splines.push(s), ..h };
        lemma_sub_tail(ls, i, all, first.len() as int);
        assert(all.subrange(first.len() as int, all.len() as int) =~= splines_lines(rest));
        assert forall|k: int| 0 <= k < rest.len() implies spline_ok(#[trigger] rest[k]) by {
            assert(rest[k] == ss[k + 1]);
        }
        lemma_h0_splines(ls, i + first.len(), h1, rest);
        assert(h1.splines + rest =~= h.splines + ss);
    }
}


/// The first line of a tree starts with `if` or `-`.
pub proof fn lemma_tree_first_line(n: NodeV, depth: nat)
    requires
        tree_ok(n),
    ensures
        node_lines(n, depth).len() >= 1,
        tokens(node_lines(n, depth)[0]).len() > 0,
        tokens(node_lines(n, depth)[0])[0] == "if"@ || tokens(node_lines(n, depth)[0])[0] == "-"@,
{
    reveal_tree_literals();
    match n {
        NodeV::If(c, t, f) => {
            lemma_var_word(c.var);
            lemma_dec_int_word(c.threshold as int);
            lemma_tokens_indented(depth, cond_words(c));
        },
        NodeV::Leaf(p) => {
            lemma_leaf_words(p);
            lemma_tokens_indented(depth, leaf_words(p));
        },
    }
}

proof fn lemma_fh_blank(ls: Seq<Seq<char>>, i: int, hs: Seq<Seq<char>>, ss: Seq<Seq<char>>)
    requires
        0 <= i < ls.len(),
        tokens(ls[i]).len() == 0,
    ensures
        parse_frame_header(ls, i, hs, ss) == parse_frame_header(ls, i + 1, hs, ss),
{
}

/// Reading a later frame's header lines appends them.
proof fn lemma_fh_headers(
    ls: Seq<Seq<char>>,
    i: int,
    hs0: Seq<Seq<char>>,
    ss0: Seq<Seq<char>>,
    hs: Seq<Seq<char>>,
)
    requires
        0 <= i,
        i + hs.len() <= ls.len(),
        ls.subrange(i, i + hs.len()) == hs,
        forall|k: int| 0 <= k < hs.len() ==> directive_line(#[trigger] hs[k], false),
    ensures
        parse_frame_header(ls, i, hs0, ss0) == parse_frame_header(ls, i + hs.len(), hs0 + hs, ss0),
    decreases hs.len(),
{
    if hs.len() == 0 {
        assert(hs0 + hs =~= hs0);
    } else {
        lemma_sub_index(ls, i, hs, 0);
        let l = hs[0];
        assert(directive_line(l, false));
        let t = tokens(l);
        lemma_recognised_key(t[0]);
        let hs1 = hs0.push(join_with(t, ' '));
        assert(parse_frame_header(ls, i, hs0, ss0) == parse_frame_header(ls, i + 1, hs1, ss0));
        let rest = hs.drop_first();
        lemma_sub_tail(ls, i, hs, 1);
        assert(hs.subrange(1, hs.len() as int) =~= rest);
        assert forall|k: int| 0 <= k < rest.len() implies directive_line(#[trigger] rest[k], false) by {
            assert(rest[k] == hs[k + 1]);
        }
        lemma_fh_headers(ls, i + 1, hs1, ss0, rest);
        assert(hs1 + rest =~= hs0 + hs);
    }
}

proof fn lemma_fh_spline(
    ls: Seq<Seq<char>>,
    i: int,
    hs: Seq<Seq<char>>,
    ss: Seq<Seq<char>>,
    s: Seq<char>,
)
    requires
        spline_ok(s),
        0 <= i,
        i + spline_lines(s).len() + 1 <= ls.len(),
        ls.subrange(i, i + spline_lines(s).len() + 1) == spline_lines(s) + seq![Seq::<char>::empty()],
    ensures
        parse_frame_header(ls, i, hs, ss) == parse_frame_header(
            ls,
            i + spline_lines(s).len() + 1,
            hs,
            ss.push(s),
        ),
{
    lemma_spline_lines(s);
    lemma_keys_distinct();
    let b = spline_lines(s);
    let seg = b + seq![Seq::<char>::empty()];
    lemma_sub_index(ls, i, seg, 0);
    assert(seg[0] == b[0]);
    assert(ls.subrange(i, i + b.len()) =~= b) by {
        assert forall|k: int| 0 <= k < b.len() implies ls.subrange(i, i + b.len())[k] == b[k] by {
            lemma_sub_index(ls, i, seg, k);
        }
    }
    lemma_spline_end_from(ls, i, b, i + 1);
    let e = i + b.len();
    lemma_sub_index(ls, i, seg, b.len() as int);
    assert(tokens(ls[e]) =~= Seq::<Seq<char>>::empty());
    assert(parse_frame_header(ls, i, hs, ss) == parse_frame_header(
        ls,
        e,
        hs,
        ss.push(join_with(ls.subrange(i, e), '\n')),
    ));
    lemma_fh_blank(ls, e, hs, ss.push(s));
}

proof fn lemma_fh_splines(
    ls: Seq<Seq<char>>,
    i: int,
    hs: Seq<Seq<char>>,
    ss0: Seq<Seq<char>>,
    ss: Seq<Seq<char>>,
)
    requires
        forall|k: int| 0 <= k < ss.len() ==> spline_ok(#[trigger] ss[k]),
        0 <= i,
        i + splines_lines(ss).len() <= ls.len(),
        ls.subrange(i, i + splines_lines(ss).len()) == splines_lines(ss),
    ensures
        parse_frame_header(ls, i, hs, ss0) == parse_frame_header(
            ls,
            i + splines_lines(ss).len(),
            hs,
            ss0 + ss,
        ),
    decreases ss.len(),
{
    if ss.len() == 0 {
        assert(ss0 + ss =~= ss0);
    } else {
        let s = ss[0];
        assert(spline_ok(s));
        let rest = ss.drop_first();
        let first = spline_lines(s) + seq![Seq::<char>::empty()];
        let all = splines_lines(ss);
        assert(all == first + splines_lines(rest));
        assert(ls.subrange(i, i + first.len()) =~= first) by {
            assert forall|k: int| 0 <= k < first.len() implies ls.subrange(i, i + first.len())[k]
                == first[k] by {
                lemma_sub_index(ls, i, all, k);
            }
        }
        lemma_fh_spline(ls, i, hs, ss0, s);
        lemma_sub_tail(ls, i, all, first.len() as int);
        assert(all.subrange(first.len() as int, all.len() as int) =~= splines_lines(rest));
        assert forall|k: int| 0 <= k < rest.len() implies spline_ok(#[trigger] rest[k]) by {
            assert(rest[k] == ss[k + 1]);
        }
        lemma_fh_splines(ls, i + first.len(), hs, ss0.push(s), rest);
        assert(ss0.push(s) + rest =~= ss0 + ss);
    }
}


// ── Reading trees and frames ──────────────────────────────────────────────────

pub proof fn lemma_stream_toks(ls: Seq<Seq<char>>, i: int)
    requires
        0 <= i <= ls.len(),
    ensures
        stream_toks(ls, i) == line_toks(ls.subrange(i, ls.len() as int)),
    decreases ls.len() - i,
{
    if i == ls.len() {
        assert(ls.subrange(i, ls.len() as int) =~= Seq::<Seq<char>>::empty());
    } else {
        lemma_stream_toks(ls, i + 1);
        let sub = ls.subrange(i, ls.len() as int);
        assert(sub[0] == ls[i]);
        assert(sub.drop_first() =~= ls.subrange(i + 1, ls.len() as int));
    }
}

/// The line of the first word from line `j` on, seen from line `i`.
proof fn lemma_stream_lines_at(ls: Seq<Seq<char>>, i: int, j: int)
    requires
        0 <= i <= j <= ls.len(),
        stream_toks(ls, j).len() > 0,
    ensures
        line_toks(ls.subrange(i, j)).len() < stream_lines(ls, i).len(),
        stream_lines(ls, i)[line_toks(ls.subrange(i, j)).len() as int] == stream_lines(ls, j)[0],
    decreases j - i,
{
    crate::parse::lemma_stream(ls, i);
    crate::parse::lemma_stream(ls, j);
    if i == j {
        assert(ls.subrange(i, j) =~= Seq::<Seq<char>>::empty());
        assert(line_toks(ls.subrange(i, j)) =~= Seq::<Seq<char>>::empty());
    } else {
        lemma_stream_lines_at(ls, i + 1, j);
        let sub = ls.subrange(i, j);
        assert(sub[0] == ls[i]);
        assert(sub.drop_first() =~= ls.subrange(i + 1, j));
        let a = Seq::new(tokens(ls[i]).len(), |k: int| i);
        let b = stream_lines(ls, i + 1);
        let pre = line_toks(ls.subrange(i + 1, j)).len();
        assert(stream_lines(ls, i) == a + b);
        assert((a + b)[(a.len() + pre) as int] == b[pre as int]);
    }
}

proof fn lemma_stream_first_line(ls: Seq<Seq<char>>, j: int)
    requires
        0 <= j <= ls.len(),
        stream_toks(ls, j).len() > 0,
    ensures
        stream_lines(ls, j)[0] == skip_blank(ls, j),
    decreases ls.len() - j,
{
    crate::parse::lemma_stream(ls, j);
    if j < ls.len() && tokens(ls[j]).len() == 0 {
        assert(stream_toks(ls, j) =~= stream_toks(ls, j + 1));
        lemma_stream_first_line(ls, j + 1);
        let a = Seq::new(tokens(ls[j]).len(), |k: int| j);
        assert(a.len() == 0);
        assert(stream_lines(ls, j) =~= stream_lines(ls, j + 1));
    }
}

pub proof fn lemma_skip_blank(ls: Seq<Seq<char>>, j: int)
    requires
        0 <= j <= ls.len(),
    ensures
        j <= skip_blank(ls, j) <= ls.len(),
        skip_blank(ls, j) < ls.len() ==> tokens(ls[skip_blank(ls, j)]).len() > 0,
        skip_blank(ls, skip_blank(ls, j)) == skip_blank(ls, j),
        forall|k: int| j <= k < ls.len() && tokens(ls[k]).len() > 0 ==> skip_blank(ls, j) <= k,
    decreases ls.len() - j,
{
    if j < ls.len() && tokens(ls[j]).len() == 0 {
        lemma_skip_blank(ls, j + 1);
    }
}

proof fn lemma_fh_skip(ls: Seq<Seq<char>>, j: int, hs: Seq<Seq<char>>, ss: Seq<Seq<char>>)
    requires
        0 <= j <= ls.len(),
    ensures
        parse_frame_header(ls, j, hs, ss) == parse_frame_header(ls, skip_blank(ls, j), hs, ss),
    decreases ls.len() - j,
{
    if j < ls.len() && tokens(ls[j]).len() == 0 {
        lemma_fh_skip(ls, j + 1, hs, ss);
    }
}

/// What reading a tree from its first line gives: the tree, and the first
/// line holding a word after its lines (or the end).
pub proof fn lemma_read_tree(ls: Seq<Seq<char>>, i: int, n: NodeV)
    requires
        tree_ok(n),
        0 <= i,
        i + node_lines(n, 0).len() <= ls.len(),
        ls.subrange(i, i + node_lines(n, 0).len()) == node_lines(n, 0),
    ensures
        parse_tree_at(ls, i) == Ok::<(NodeV, int), Seq<char>>(
            (
                n,
                if stream_toks(ls, i + node_lines(n, 0).len()).len() > 0 {
                    skip_blank(ls, i + node_lines(n, 0).len())
                } else {
                    ls.len() as int
                },
            ),
        ),
{
    let nl0 = node_lines(n, 0);
    let j = i + nl0.len();
    lemma_stream_toks(ls, i);
    lemma_stream_toks(ls, j);
    assert(ls.subrange(i, ls.len() as int) =~= nl0 + ls.subrange(j, ls.len() as int));
    lemma_line_toks_concat(nl0, ls.subrange(j, ls.len() as int));
    lemma_node_words(n, 0);
    let nt = node_toks(n);
    let toks = stream_toks(ls, i);
    assert(toks == nt + stream_toks(ls, j));
    assert(nt.len() > 0) by {
        match n {
            NodeV::If(c, t, f) => {},
            NodeV::Leaf(p) => {},
        }
    }
    assert(toks.subrange(0, nt.len() as int) =~= nt);
    lemma_parse_node_words(n, toks, 0);
    if stream_toks(ls, j).len() > 0 {
        assert(ls.subrange(i, j) =~= nl0);
        lemma_stream_lines_at(ls, i, j);
        lemma_stream_first_line(ls, j);
    }
}


proof fn lemma_frame_layout(ls: Seq<Seq<char>>, j: int, f: FrameV)
    requires
        frame_ok(f),
        0 <= j,
        j + frame_lines(f).len() <= ls.len(),
        ls.subrange(j, j + frame_lines(f).len()) == frame_lines(f),
    ensures
        ({
            let t0 = j + 2 + f.headers.len() + splines_lines(f.splines).len();
            &&& parse_frame_header(ls, j, seq![], seq![]) == Ok::<
                (Seq<Seq<char>>, Seq<Seq<char>>, int),
                Seq<char>,
            >((f.headers, f.splines, t0))
            &&& t0 + node_lines(f.root, 0).len() == j + frame_lines(f).len()
            &&& ls.subrange(t0, t0 + node_lines(f.root, 0).len()) == node_lines(f.root, 0)
            &&& t0 < ls.len()
            &&& tokens(ls[t0]).len() > 0
        }),
{
    let fl = frame_lines(f);
    let e = seq![Seq::<char>::empty()];
    let sl = splines_lines(f.splines);
    let nl0 = node_lines(f.root, 0);
    assert(fl == e + f.headers + e + sl + nl0);
    let h0 = j + 1;
    let s0 = h0 + f.headers.len() + 1;
    let t0 = s0 + sl.len();
    lemma_sub_index(ls, j, fl, 0);
    assert(fl[0] == Seq::<char>::empty());
    assert(tokens(ls[j]) =~= Seq::<Seq<char>>::empty());
    lemma_fh_blank(ls, j, seq![], seq![]);
    assert(ls.subrange(h0, h0 + f.headers.len()) =~= f.headers) by {
        assert forall|k: int| 0 <= k < f.headers.len() implies ls.subrange(h0, h0 + f.headers.len())[k]
            == f.headers[k] by {
            lemma_sub_index(ls, j, fl, 1 + k);
        }
    }
    lemma_fh_headers(ls, h0, seq![], seq![], f.headers);
    assert(Seq::<Seq<char>>::empty() + f.headers =~= f.headers);
    lemma_sub_index(ls, j, fl, (1 + f.headers.len()) as int);
    assert(fl[(1 + f.headers.len()) as int] == Seq::<char>::empty());
    assert(tokens(ls[s0 - 1]) =~= Seq::<Seq<char>>::empty());
    lemma_fh_blank(ls, s0 - 1, f.headers, seq![]);
    assert(ls.subrange(s0, s0 + sl.len()) =~= sl) by {
        assert forall|k: int| 0 <= k < sl.len() implies ls.subrange(s0, s0 + sl.len())[k] == sl[k] by {
            lemma_sub_index(ls, j, fl, 2 + f.headers.len() + k);
        }
    }
    lemma_fh_splines(ls, s0, f.headers, seq![], f.splines);
    assert(Seq::<Seq<char>>::empty() + f.splines =~= f.splines);
    assert(ls.subrange(t0, t0 + nl0.len()) =~= nl0) by {
        assert forall|k: int| 0 <= k < nl0.len() implies ls.subrange(t0, t0 + nl0.len())[k] == nl0[k] by {
            lemma_sub_index(ls, j, fl, 2 + f.headers.len() + sl.len() + k);
        }
    }
    lemma_tree_first_line(f.root, 0);
    lemma_sub_index(ls, t0, nl0, 0);
    assert(parse_frame_header(ls, t0, f.headers, f.splines) == Ok::<
        (Seq<Seq<char>>, Seq<Seq<char>>, int),
        Seq<char>,
    >((f.headers, f.splines, t0)));
}

/// A tree's words are not empty.
proof fn lemma_node_toks_nonempty(n: NodeV)
    ensures
        node_toks(n).len() > 0,
{
    match n {
        NodeV::If(c, t, f) => {},
        NodeV::Leaf(p) => {},
    }
}

/// The later frames read back from their lines.
pub proof fn lemma_read_frames(ls: Seq<Seq<char>>, j: int, fs: Seq<FrameV>)
    requires
        fs.len() > 0,
        0 <= j,
        j + frames_lines(fs).len() == ls.len(),
        ls.subrange(j, ls.len() as int) == frames_lines(fs),
        forall|k: int| 0 <= k < fs.len() ==> frame_ok(#[trigger] fs[k]),
        forall|k: int| 0 <= k < fs.len() ==> has_notlast(#[trigger] fs[k].headers) == (k < fs.len() - 1),
    ensures
        stream_toks(ls, j).len() > 0,
        parse_frames(ls, skip_blank(ls, j), true) == Ok::<Seq<FrameV>, Seq<char>>(fs),
    decreases fs.len(),
{
    let f = fs[0];
    assert(frame_ok(f));
    let fl = frame_lines(f);
    let rest = fs.drop_first();
    let all = frames_lines(fs);
    assert(all == fl + frames_lines(rest));
    let j2 = j + fl.len();
    assert(ls.subrange(j, j2) =~= fl) by {
        assert forall|k: int| 0 <= k < fl.len() implies ls.subrange(j, j2)[k] == fl[k] by {
            lemma_sub_index(ls, j, all, k);
        }
    }
    lemma_frame_layout(ls, j, f);
    let t0 = j + 2 + f.headers.len() + splines_lines(f.splines).len();
    lemma_skip_blank(ls, j);
    let x = skip_blank(ls, j);
    assert(x <= t0);
    lemma_fh_skip(ls, j, seq![], seq![]);
    lemma_read_tree(ls, t0, f.root);
    assert(t0 + node_lines(f.root, 0).len() == j2);
    lemma_stream_toks(ls, j);
    lemma_stream_toks(ls, j2);
    assert(ls.subrange(j, ls.len() as int) =~= fl + ls.subrange(j2, ls.len() as int));
    lemma_line_toks_concat(fl, ls.subrange(j2, ls.len() as int));
    assert(fl =~= seq![Seq::<char>::empty()] + f.headers + seq![Seq::<char>::empty()] + splines_lines(
        f.splines,
    ) + node_lines(f.root, 0));
    lemma_line_toks_concat(
        seq![Seq::<char>::empty()] + f.headers + seq![Seq::<char>::empty()] + splines_lines(f.splines),
        node_lines(f.root, 0),
    );
    lemma_node_words(f.root, 0);
    lemma_node_toks_nonempty(f.root);
    assert(stream_toks(ls, j).len() > 0);
    assert(FrameV { headers: f.headers, splines: f.splines, root: f.root } == f);
    if fs.len() == 1 {
        assert(!has_notlast(f.headers));
        assert(seq![f] =~= fs);
    } else {
        assert(has_notlast(f.headers));
        assert(ls.subrange(j2, ls.len() as int) =~= frames_lines(rest)) by {
            lemma_sub_tail(ls, j, all, fl.len() as int);
            assert(all.subrange(fl.len() as int, all.len() as int) =~= frames_lines(rest));
        }
        assert forall|k: int| 0 <= k < rest.len() implies frame_ok(#[trigger] rest[k]) by {
            assert(rest[k] == fs[k + 1]);
        }
        assert forall|k: int| 0 <= k < rest.len() implies has_notlast(#[trigger] rest[k].headers) == (k
            < rest.len() - 1) by {
            assert(rest[k] == fs[k + 1]);
        }
        lemma_read_frames(ls, j2, rest);
        lemma_skip_blank(ls, j2);
        assert(seq![f] + rest =~= fs);
    }
}

/// The header a program's text sets up.
pub open spec fn header_of(p: ProgramV) -> HeaderV {
    HeaderV {
        bitdepth: p.bitdepth,
        width: p.width,
        height: p.height,
        channels: p.channels,
        orientation: p.orientation,
        rct: p.rct,
        headers: p.headers,
        splines: p.splines,
    }
}

/// The line of a program's text where its tree starts.
pub open spec fn tree_start(p: ProgramV) -> int {
    (field_lines(p).len() + p.headers.len() + 1 + splines_lines(p.splines).len()) as int
}

proof fn lemma_read_header(p: ProgramV)
    requires
        program_ok(p),
    ensures
        parse_header0(program_lines(p), 0, default_header()) == Ok::<(HeaderV, int), Seq<char>>(
            (header_of(p), tree_start(p)),
        ),
        program_lines(p).subrange(
            tree_start(p),
            tree_start(p) + node_lines(p.root, 0).len(),
        ) == node_lines(p.root, 0),
{
    let ls = program_lines(p);
    let fl = field_lines(p);
    let e = seq![Seq::<char>::empty()];
    let sl = splines_lines(p.splines);
    let nl0 = node_lines(p.root, 0);
    let rl = frames_lines(p.frames);
    assert(ls == fl + p.headers + e + sl + nl0 + rl);
    let i_h = fl.len() as int;
    let i_b = i_h + p.headers.len();
    let i_s = i_b + 1;
    let i_t = i_s + sl.len();
    lemma_tree_first_line(p.root, 0);
    assert(ls.subrange(0, i_h) =~= fl);
    lemma_h0_fields(ls, p);
    assert(ls.subrange(i_h, i_b) =~= p.headers);
    lemma_h0_headers(ls, i_h, field_header(p), p.headers);
    let h1 = HeaderV { headers: seq![] + p.headers, ..field_header(p) };
    assert(ls[i_b] == Seq::<char>::empty());
    assert(tokens(ls[i_b]) =~= Seq::<Seq<char>>::empty());
    lemma_h0_blank(ls, i_b, h1);
    assert(ls.subrange(i_s, i_t) =~= sl);
    lemma_h0_splines(ls, i_s, h1, p.splines);
    let h2 = HeaderV { splines: h1.splines + p.splines, ..h1 };
    assert(ls[i_t] == nl0[0]);
    assert(h2 == header_of(p)) by {
        assert(seq![] + p.headers =~= p.headers);
        assert(Seq::<Seq<char>>::empty() + p.splines =~= p.splines);
    }
    assert(ls.subrange(i_t, i_t + nl0.len()) =~= nl0);
}

/// Reading the text of a well-formed program gives the program back.
pub proof fn lemma_print_then_read(p: ProgramV)
    requires
        program_ok(p),
    ensures
        crate::parse::parse_program(program_text(p)) == Ok::<ProgramV, Seq<char>>(p),
{
    lemma_program_read_lines(p);
    lemma_read_header(p);
    let ls = program_lines(p);
    let i_t = tree_start(p);
    let nl0 = node_lines(p.root, 0);
    let rl = frames_lines(p.frames);
    let j = i_t + nl0.len();
    assert(ls.len() == j + rl.len());
    lemma_read_tree(ls, i_t, p.root);
    let i1 = if stream_toks(ls, j).len() > 0 {
        skip_blank(ls, j)
    } else {
        ls.len() as int
    };
    assert(parse_tree_at(ls, i_t) == Ok::<(NodeV, int), Seq<char>>((p.root, i1)));
    if p.frames.len() == 0 {
        assert(!has_notlast(p.headers));
        assert(parse_frames(ls, i1, false) == Ok::<Seq<FrameV>, Seq<char>>(seq![]));
        assert(p.frames =~= Seq::<FrameV>::empty());
    } else {
        assert(has_notlast(p.headers));
        assert(ls.subrange(j, ls.len() as int) =~= rl);
        lemma_read_frames(ls, j, p.frames);
        assert(parse_frames(ls, i1, true) == Ok::<Seq<FrameV>, Seq<char>>(p.frames));
    }
    let frames = p.frames;
    let h = header_of(p);
    assert(crate::parse::parse_program(program_text(p)) == Ok::<ProgramV, Seq<char>>(
        ProgramV {
            width: h.width,
            height: h.height,
            bitdepth: h.bitdepth,
            channels: h.channels,
            orientation: h.orientation,
            rct: h.rct,
            headers: h.headers,
            splines: h.splines,
            root: p.root,
            frames,
        },
    ));
}


// ── What the reader returns is well-formed ────────────────────────────────────

/// No variable or predicate name of the tree holds `/*`.
pub open spec fn tree_clean(n: NodeV) -> bool
    decreases n,
{
    match n {
        NodeV::If(c, t, f) => (match c.var {
            VarV::Other(s) => no_open(s),
            _ => true,
        }) && tree_clean(*t) && tree_clean(*f),
        NodeV::Leaf(p) => match p {
            PredV::Other(name, _) => no_open(name),
            _ => true,
        },
    }
}

/// No `/*`, and no line ending in `\r`.
pub open spec fn text_clean(s: Seq<char>) -> bool {
    &&& no_open(s)
    &&& forall|i: int| 0 <= i < s.len() && #[trigger] s[i] == '\r' ==> i + 1 < s.len() && s[i + 1] != '\n'
}

pub open spec fn frame_clean(f: FrameV) -> bool {
    &&& forall|i: int| 0 <= i < f.headers.len() ==> no_open(#[trigger] f.headers[i])
    &&& forall|i: int| 0 <= i < f.splines.len() ==> text_clean(#[trigger] f.splines[i])
    &&& tree_clean(f.root)
}

/// The verbatim texts and names of a program hold no comment marker `/*`
/// and its spline blocks no line ending in `\r`. Reading a text can only
/// produce a `/*` from a comment left open, and a line ending in `\r` from
/// one that ended in two of them.
pub open spec fn program_clean(p: ProgramV) -> bool {
    &&& forall|i: int| 0 <= i < p.headers.len() ==> no_open(#[trigger] p.headers[i])
    &&& forall|i: int| 0 <= i < p.splines.len() ==> text_clean(#[trigger] p.splines[i])
    &&& tree_clean(p.root)
    &&& forall|k: int| 0 <= k < p.frames.len() ==> frame_clean(#[trigger] p.frames[k])
}

/// The words of lines are words.
pub proof fn lemma_stream_words(ls: Seq<Seq<char>>, i: int)
    ensures
        all_words(stream_toks(ls, i)),
    decreases ls.len() - i,
{
    if 0 <= i < ls.len() {
        lemma_stream_words(ls, i + 1);
        lemma_toks_words(ls[i], seq![]);
        let a = tokens(ls[i]);
        let b = stream_toks(ls, i + 1);
        assert forall|k: int| 0 <= k < (a + b).len() implies word(#[trigger] (a + b)[k]) by {
            if k >= a.len() {
                assert((a + b)[k] == b[k - a.len()]);
            }
        }
    }
}

/// The offset text the reader keeps is well-formed.
proof fn lemma_read_offset_raw(name: Seq<char>, toks: Seq<Seq<char>>, pos: int)
    requires
        all_words(toks),
        parse_offset(name, toks, pos) is Ok,
    ensures
        parse_offset(name, toks, pos) matches Ok((_, raw, q)) && raw_offset_ok(raw) && pos < q <= toks.len(),
{
    reveal_tree_literals();
    let so = toks[pos];
    assert(word(so));
    if so == "0"@ {
        lemma_tokens_word("0"@);
        assert(join_with(seq!["0"@], ' ') == "0"@);
    } else if so == "+"@ || so == "-"@ {
        let mag = toks[pos + 1];
        assert(word(mag));
        let raw = so + seq![' '] + mag;
        assert(all_words(seq![so, mag]));
        lemma_tokens_join(seq![so, mag]);
        lemma_join2(so, mag);
        if so == "+"@ {
            assert("+ "@ + mag =~= raw);
        } else {
            assert("- "@ + mag =~= raw);
        }
    } else {
        lemma_tokens_word(so);
        assert(join_with(seq![so], ' ') == so);
    }
}

/// A tree the reader returns has its variables and predicates in the
/// form that prints back, names aside.
pub proof fn lemma_read_node_ok(toks: Seq<Seq<char>>, pos: int)
    requires
        all_words(toks),
        parse_node(toks, pos) is Ok,
    ensures
        parse_node(toks, pos) matches Ok((n, q)) && pos < q <= toks.len() && (tree_clean(n) ==> tree_ok(n)),
    decreases toks.len() - pos,
{
    reveal_tree_literals();
    let tok = toks[pos];
    let p = pos + 1;
    if tok == "if"@ {
        let var_str = toks[p];
        assert(word(var_str));
        lemma_read_node_ok(toks, p + 3);
        let p1 = parse_node(toks, p + 3)->Ok_0.1;
        lemma_read_node_ok(toks, p1);
    } else {
        let name = toks[p];
        assert(word(name));
        if name == "Set"@ {
        } else {
            lemma_read_offset_raw(name, toks, p + 1);
        }
    }
}


/// A header line the reader keeps: its words joined by single spaces, the
/// first a directive.
pub open spec fn directive_shape(h: Seq<char>, extra: bool) -> bool {
    let t = tokens(h);
    &&& t.len() > 0
    &&& if extra {
        is_extra_key(t[0])
    } else {
        is_recognised_key(t[0])
    }
    &&& h == join_with(t, ' ')
}

/// The lines of a spline block the reader collects, comment markers and
/// carriage returns aside.
pub open spec fn block_shape(ls: Seq<Seq<char>>) -> bool {
    &&& ls.len() >= 2
    &&& forall|i: int| 0 <= i < ls.len() ==> nl_free(#[trigger] ls[i])
    &&& tokens(ls[0]).len() > 0 && tokens(ls[0])[0] == "Spline"@
    &&& tokens(ls.last()).contains("EndSpline"@)
    &&& forall|j: int| 1 <= j < ls.len() - 1 ==> !(#[trigger] tokens(ls[j])).contains("EndSpline"@)
}

pub open spec fn spline_shape(s: Seq<char>) -> bool {
    exists|ls: Seq<Seq<char>>| block_shape(ls) && s == join_with(ls, '\n')
}

/// What the first frame's header collects, as far as the reader gets.
pub open spec fn header_shape(h: HeaderV) -> bool {
    &&& forall|i: int| 0 <= i < h.headers.len() ==> directive_shape(#[trigger] h.headers[i], true)
    &&& forall|i: int| 0 <= i < h.splines.len() ==> spline_shape(#[trigger] h.splines[i])
}

/// The parts of a clean text joined by line breaks are plain and hold no
/// comment marker.
proof fn lemma_join_nl_clean(ls: Seq<Seq<char>>)
    requires
        ls.len() > 0,
        forall|i: int| 0 <= i < ls.len() ==> nl_free(#[trigger] ls[i]),
        text_clean(join_with(ls, '\n')),
    ensures
        forall|i: int| 0 <= i < ls.len() ==> plain_line(#[trigger] ls[i]) && no_open(ls[i]),
    decreases ls.len(),
{
    let s = join_with(ls, '\n');
    if ls.len() == 1 {
        assert(s == ls[0]);
        assert(plain_line(ls[0])) by {
            if ls[0].len() > 0 && ls[0].last() == '\r' {
                assert(s[s.len() - 1] == '\r');
            }
        }
    } else {
        let a = join_with(ls.drop_last(), '\n');
        let l = ls.last();
        assert(s == a + seq!['\n'] + l);
        lemma_no_open_parts(a + seq!['\n'], l);
        lemma_no_open_parts(a, seq!['\n']);
        assert(text_clean(a)) by {
            assert forall|i: int| 0 <= i < a.len() && #[trigger] a[i] == '\r' implies i + 1 < a.len()
                && a[i + 1] != '\n' by {
                assert(s[i] == a[i]);
                if i + 1 == a.len() {
                    assert(s[i + 1] == '\n');
                } else {
                    assert(s[i + 1] == a[i + 1]);
                }
            }
        }
        assert forall|i: int| 0 <= i < ls.drop_last().len() implies nl_free(#[trigger] ls.drop_last()[i]) by {
            assert(ls.drop_last()[i] == ls[i]);
        }
        lemma_join_nl_clean(ls.drop_last());
        assert(plain_line(l)) by {
            assert(nl_free(ls[ls.len() - 1]));
            if l.len() > 0 && l.last() == '\r' {
                assert(s[s.len() - 1] == l.last());
            }
        }
        assert forall|i: int| 0 <= i < ls.len() implies plain_line(#[trigger] ls[i]) && no_open(ls[i]) by {
            if i < ls.len() - 1 {
                assert(ls[i] == ls.drop_last()[i]);
            }
        }
    }
}

/// A spline block the reader collects is well-formed when it is clean.
pub proof fn lemma_spline_clean(s: Seq<char>)
    requires
        spline_shape(s),
        text_clean(s),
    ensures
        spline_ok(s),
{
    let ls = choose|ls: Seq<Seq<char>>| block_shape(ls) && s == join_with(ls, '\n');
    lemma_join_nl_clean(ls);
    assert(spline_block(ls));
}


proof fn lemma_spline_end_props(ls: Seq<Seq<char>>, j: int)
    requires
        0 <= j <= ls.len(),
    ensures
        j <= spline_end(ls, j) <= ls.len(),
        forall|m: int| j <= m < spline_end(ls, j) - 1 ==> !(#[trigger] tokens(ls[m])).contains("EndSpline"@),
        spline_end(ls, j) < ls.len() ==> spline_end(ls, j) > j && tokens(ls[spline_end(ls, j) - 1]).contains(
            "EndSpline"@,
        ),
    decreases ls.len() - j,
{
    if j < ls.len() && !tokens(ls[j]).contains("EndSpline"@) {
        lemma_spline_end_props(ls, j + 1);
    }
}

proof fn lemma_h0_mono(ls: Seq<Seq<char>>, i: int, h: HeaderV)
    requires
        0 <= i,
        parse_header0(ls, i, h) is Ok,
    ensures
        parse_header0(ls, i, h)->Ok_0.1 >= i,
    decreases ls.len() - i,
{
    if i < ls.len() {
        let t = tokens(ls[i]);
        if t.len() == 0 {
            lemma_h0_mono(ls, i + 1, h);
        } else if t[0] == "if"@ || t[0] == "-"@ {
        } else if t[0] == "Spline"@ {
            let e = spline_end(ls, i + 1);
            crate::parse::lemma_spline_end(ls, i + 1);
            lemma_h0_mono(ls, e, HeaderV { splines: h.splines.push(join_with(ls.subrange(i, e), '\n')), ..h });
        } else {
            let h2 = directive(h, t)->Ok_0;
            lemma_h0_mono(ls, i + 1, h2);
        }
    }
}

/// The spline block the reader collects from line `i`, when reading goes on
/// past it.
proof fn lemma_block_read(ls: Seq<Seq<char>>, i: int)
    requires
        0 <= i < ls.len(),
        forall|m: int| 0 <= m < ls.len() ==> nl_free(#[trigger] ls[m]),
        tokens(ls[i]).len() > 0 && tokens(ls[i])[0] == "Spline"@,
        spline_end(ls, i + 1) < ls.len(),
    ensures
        spline_shape(join_with(ls.subrange(i, spline_end(ls, i + 1)), '\n')),
{
    let e = spline_end(ls, i + 1);
    lemma_spline_end_props(ls, i + 1);
    let b = ls.subrange(i, e);
    assert(b[0] == ls[i]);
    assert(b.last() == ls[e - 1]);
    assert forall|j: int| 1 <= j < b.len() - 1 implies !(#[trigger] tokens(b[j])).contains("EndSpline"@) by {
        assert(b[j] == ls[i + j]);
    }
    assert forall|m: int| 0 <= m < b.len() implies nl_free(#[trigger] b[m]) by {
        assert(b[m] == ls[i + m]);
    }
    assert(block_shape(b));
}

proof fn lemma_directive_shape(t: Seq<Seq<char>>, extra: bool)
    requires
        all_words(t),
        t.len() > 0,
        if extra {
            is_extra_key(t[0])
        } else {
            is_recognised_key(t[0])
        },
    ensures
        directive_shape(join_with(t, ' '), extra),
{
    lemma_tokens_join(t);
}

/// Reading the first frame's header keeps its lines in the form that
/// prints back, when a tree follows.
pub proof fn lemma_read_h0_shape(ls: Seq<Seq<char>>, i: int, h: HeaderV)
    requires
        0 <= i,
        forall|m: int| 0 <= m < ls.len() ==> nl_free(#[trigger] ls[m]),
        header_shape(h),
        parse_header0(ls, i, h) is Ok,
        parse_header0(ls, i, h)->Ok_0.1 < ls.len(),
    ensures
        header_shape(parse_header0(ls, i, h)->Ok_0.0),
    decreases ls.len() - i,
{
    let t = tokens(ls[i]);
    lemma_toks_words(ls[i], seq![]);
    if t.len() == 0 {
        lemma_read_h0_shape(ls, i + 1, h);
    } else if t[0] == "if"@ || t[0] == "-"@ {
    } else if t[0] == "Spline"@ {
        let e = spline_end(ls, i + 1);
        crate::parse::lemma_spline_end(ls, i + 1);
        let s = join_with(ls.subrange(i, e), '\n');
        let h1 = HeaderV { splines: h.splines.push(s), ..h };
        lemma_h0_mono(ls, e, h1);
        lemma_block_read(ls, i);
        assert forall|k: int| 0 <= k < h1.splines.len() implies spline_shape(#[trigger] h1.splines[k]) by {
            if k < h.splines.len() {
                assert(h1.splines[k] == h.splines[k]);
            }
        }
        lemma_read_h0_shape(ls, e, h1);
    } else {
        let h2 = directive(h, t)->Ok_0;
        if is_extra_key(t[0]) {
            lemma_extra_key(t[0]);
            lemma_directive_shape(t, true);
        }
        assert(header_shape(h2)) by {
            assert forall|k: int| 0 <= k < h2.headers.len() implies directive_shape(#[trigger] h2.headers[k], true) by {
                if k < h.headers.len() {
                    assert(h2.headers[k] == h.headers[k]);
                }
            }
        }
        lemma_read_h0_shape(ls, i + 1, h2);
    }
}


proof fn lemma_fh_mono(ls: Seq<Seq<char>>, i: int, hs: Seq<Seq<char>>, ss: Seq<Seq<char>>)
    requires
        0 <= i,
        parse_frame_header(ls, i, hs, ss) is Ok,
    ensures
        parse_frame_header(ls, i, hs, ss)->Ok_0.2 >= i,
    decreases ls.len() - i,
{
    if i < ls.len() {
        let t = tokens(ls[i]);
        if t.len() == 0 {
            lemma_fh_mono(ls, i + 1, hs, ss);
        } else if t[0] == "if"@ || t[0] == "-"@ {
        } else if t[0] == "Spline"@ {
            let e = spline_end(ls, i + 1);
            crate::parse::lemma_spline_end(ls, i + 1);
            lemma_fh_mono(ls, e, hs, ss.push(join_with(ls.subrange(i, e), '\n')));
        } else if is_recognised_key(t[0]) {
            lemma_fh_mono(ls, i + 1, hs.push(join_with(t, ' ')), ss);
        }
    }
}

/// Reading a later frame's header keeps its lines in the form that prints
/// back, when a tree follows.
pub proof fn lemma_read_fh_shape(ls: Seq<Seq<char>>, i: int, hs: Seq<Seq<char>>, ss: Seq<Seq<char>>)
    requires
        0 <= i,
        forall|m: int| 0 <= m < ls.len() ==> nl_free(#[trigger] ls[m]),
        forall|k: int| 0 <= k < hs.len() ==> directive_shape(#[trigger] hs[k], false),
        forall|k: int| 0 <= k < ss.len() ==> spline_shape(#[trigger] ss[k]),
        parse_frame_header(ls, i, hs, ss) is Ok,
        parse_frame_header(ls, i, hs, ss)->Ok_0.2 < ls.len(),
    ensures
        ({
            let r = parse_frame_header(ls, i, hs, ss)->Ok_0;
            &&& forall|k: int| 0 <= k < r.0.len() ==> directive_shape(#[trigger] r.0[k], false)
            &&& forall|k: int| 0 <= k < r.1.len() ==> spline_shape(#[trigger] r.1[k])
        }),
    decreases ls.len() - i,
{
    let t = tokens(ls[i]);
    lemma_toks_words(ls[i], seq![]);
    if t.len() == 0 {
        lemma_read_fh_shape(ls, i + 1, hs, ss);
    } else if t[0] == "if"@ || t[0] == "-"@ {
    } else if t[0] == "Spline"@ {
        let e = spline_end(ls, i + 1);
        crate::parse::lemma_spline_end(ls, i + 1);
        let s = join_with(ls.subrange(i, e), '\n');
        lemma_fh_mono(ls, e, hs, ss.push(s));
        lemma_block_read(ls, i);
        assert forall|k: int| 0 <= k < ss.push(s).len() implies spline_shape(#[trigger] ss.push(s)[k]) by {
            if k < ss.len() {
                assert(ss.push(s)[k] == ss[k]);
            }
        }
        lemma_read_fh_shape(ls, e, hs, ss.push(s));
    } else {
        let h = join_with(t, ' ');
        lemma_directive_shape(t, false);
        assert forall|k: int| 0 <= k < hs.push(h).len() implies directive_shape(#[trigger] hs.push(h)[k], false) by {
            if k < hs.len() {
                assert(hs.push(h)[k] == hs[k]);
            }
        }
        lemma_read_fh_shape(ls, i + 1, hs.push(h), ss);
    }
}

/// A tree the reader returns from line `i`, with the line after it.
proof fn lemma_read_tree_ok(ls: Seq<Seq<char>>, i: int)
    requires
        0 <= i,
        parse_tree_at(ls, i) is Ok,
    ensures
        i < ls.len(),
        parse_tree_at(ls, i)->Ok_0.1 >= i,
        parse_tree_at(ls, i)->Ok_0.1 <= ls.len(),
        tree_clean(parse_tree_at(ls, i)->Ok_0.0) ==> tree_ok(parse_tree_at(ls, i)->Ok_0.0),
{
    let toks = stream_toks(ls, i);
    lemma_stream_words(ls, i);
    lemma_read_node_ok(toks, 0);
    crate::parse::lemma_stream(ls, i);
    if i >= ls.len() {
        assert(toks.len() == 0);
    }
    let pos = parse_node(toks, 0)->Ok_0.1;
    if pos < toks.len() {
        assert(i <= stream_lines(ls, i)[pos] < ls.len());
    }
}


/// A later frame as the reader returns it, names aside.
pub open spec fn frame_shape(f: FrameV) -> bool {
    &&& forall|k: int| 0 <= k < f.headers.len() ==> directive_shape(#[trigger] f.headers[k], false)
    &&& forall|k: int| 0 <= k < f.splines.len() ==> spline_shape(#[trigger] f.splines[k])
    &&& tree_clean(f.root) ==> tree_ok(f.root)
}

proof fn lemma_read_frames_ok(ls: Seq<Seq<char>>, i: int)
    requires
        0 <= i,
        forall|m: int| 0 <= m < ls.len() ==> nl_free(#[trigger] ls[m]),
        parse_frames(ls, i, true) is Ok,
    ensures
        ({
            let fs = parse_frames(ls, i, true)->Ok_0;
            &&& fs.len() >= 1
            &&& forall|k: int| 0 <= k < fs.len() ==> frame_shape(#[trigger] fs[k])
            &&& forall|k: int|
                0 <= k < fs.len() ==> has_notlast(#[trigger] fs[k].headers) == (k < fs.len() - 1)
        }),
    decreases ls.len() - i,
{
    let i1 = skip_blank(ls, i);
    lemma_skip_blank(ls, if i <= ls.len() {
        i
    } else {
        ls.len() as int
    });
    let r = parse_frame_header(ls, i1, seq![], seq![])->Ok_0;
    let i2 = r.2;
    lemma_read_fh_shape(ls, i1, seq![], seq![]);
    lemma_read_tree_ok(ls, i2);
    let t = parse_tree_at(ls, i2)->Ok_0;
    let f = FrameV { headers: r.0, splines: r.1, root: t.0 };
    assert(frame_shape(f));
    let fs = parse_frames(ls, i, true)->Ok_0;
    if !has_notlast(r.0) {
        assert(fs == seq![f]);
    } else {
        let i3 = t.1;
        lemma_read_frames_ok(ls, i3);
        let rest = parse_frames(ls, i3, true)->Ok_0;
        assert(fs == seq![f] + rest);
        assert forall|k: int| 0 <= k < fs.len() implies frame_shape(#[trigger] fs[k]) by {
            if k > 0 {
                assert(fs[k] == rest[k - 1]);
            }
        }
        assert forall|k: int| 0 <= k < fs.len() implies has_notlast(#[trigger] fs[k].headers) == (k
            < fs.len() - 1) by {
            if k > 0 {
                assert(fs[k] == rest[k - 1]);
            }
        }
    }
}

/// What the reader returns is well-formed as soon as it is clean.
pub proof fn lemma_read_ok(s: Seq<char>)
    requires
        parse_program(s) is Ok,
        program_clean(parse_program(s)->Ok_0),
    ensures
        program_ok(parse_program(s)->Ok_0),
{
    let p = parse_program(s)->Ok_0;
    let ls = lines(strip_comments(s));
    lemma_lns_nl_free(strip_comments(s), seq![]);
    let (h, i) = parse_header0(ls, 0, default_header())->Ok_0;
    lemma_read_tree_ok(ls, i);
    lemma_read_h0_shape(ls, 0, default_header());
    assert forall|k: int| 0 <= k < p.headers.len() implies directive_line(#[trigger] p.headers[k], true) by {
        assert(p.headers[k] == h.headers[k]);
    }
    assert forall|k: int| 0 <= k < p.splines.len() implies spline_ok(#[trigger] p.splines[k]) by {
        assert(p.splines[k] == h.splines[k]);
        lemma_spline_clean(p.splines[k]);
    }
    let (root, i1) = parse_tree_at(ls, i)->Ok_0;
    if has_notlast(h.headers) {
        lemma_read_frames_ok(ls, i1);
        assert forall|k: int| 0 <= k < p.frames.len() implies frame_ok(#[trigger] p.frames[k]) by {
            let f = p.frames[k];
            assert(frame_shape(f));
            assert(frame_clean(f));
            assert forall|j: int| 0 <= j < f.splines.len() implies spline_ok(#[trigger] f.splines[j]) by {
                lemma_spline_clean(f.splines[j]);
            }
        }
    }
}

// ── Laws ──────────────────────────────────────────────────────────────────────

/// Reading the text of a well-formed program gives that program back.
pub proof fn print_then_read(p: ProgramV)
    requires
        program_ok(p),
    ensures
        parse_program(program_text(p)) == Ok::<ProgramV, Seq<char>>(p),
{
    lemma_print_then_read(p);
}

/// A program read from any text reads back from its own text as itself
/// (so printing it again gives the same text), provided its verbatim parts
/// and names hold no comment marker `/*` and no spline line ends in `\r`.
pub proof fn read_print_read(s: Seq<char>, p: ProgramV)
    requires
        parse_program(s) == Ok::<ProgramV, Seq<char>>(p),
        program_clean(p),
    ensures
        parse_program(program_text(p)) == Ok::<ProgramV, Seq<char>>(p),
        program_text(parse_program(program_text(p))->Ok_0) == program_text(p),
{
    lemma_read_ok(s);
    lemma_print_then_read(p);
}

/// The printer writes no comparison but `>`: each line a well-formed tree
/// prints as reads either `if <var> > <threshold>` or, for a leaf, `-`
/// and the predictor's words.
pub proof fn printed_conditions_use_gt(n: NodeV, depth: nat, i: int)
    requires
        tree_ok(n),
        0 <= i < node_lines(n, depth).len(),
    ensures
        ({
            let ws = tokens(node_lines(n, depth)[i]);
            ||| ws.len() == 4 && ws[0] == "if"@ && ws[2] == ">"@
            ||| ws.len() >= 2 && ws[0] == "-"@
        }),
    decreases n,
{
    reveal_tree_literals();
    match n {
        NodeV::If(c, t, f) => {
            let head = seq![indent(depth) + join_with(cond_words(c), ' ')];
            let lt = node_lines(*t, depth + 1);
            let lf = node_lines(*f, depth + 1);
            assert(node_lines(n, depth) == head + lt + lf);
            if i == 0 {
                lemma_var_word(c.var);
                lemma_dec_int_word(c.threshold as int);
                lemma_tokens_indented(depth, cond_words(c));
            } else if i - 1 < lt.len() {
                assert(node_lines(n, depth)[i] == lt[i - 1]);
                printed_conditions_use_gt(*t, depth + 1, i - 1);
            } else {
                assert(node_lines(n, depth)[i] == lf[i - 1 - lt.len()]);
                printed_conditions_use_gt(*f, depth + 1, i - 1 - lt.len());
            }
        },
        NodeV::Leaf(p) => {
            lemma_leaf_words(p);
            lemma_tokens_indented(depth, leaf_words(p));
        },
    }
}

/// Reading a condition whose operator is not `>` fails with a message that
/// names the operator: no other comparison is accepted.
pub proof fn non_gt_condition_refused(toks: Seq<Seq<char>>, pos: int)
    requires
        0 <= pos,
        pos + 3 < toks.len(),
        toks[pos] == "if"@,
        toks[pos + 2] != ">"@,
    ensures
        parse_node(toks, pos) == Err::<(NodeV, int), Seq<char>>(
            "only '>' operator is supported, got '"@ + toks[pos + 2] + "'"@,
        ),
{
}

// ── Only `>` in the whole printed text ─────────────────────────────────────────

/// Whether a line is no comparison but `>`: its first word is not `if`, or
/// it reads `if <var> > <threshold>`.
pub open spec fn gt_only_line(l: Seq<char>) -> bool {
    let ws = tokens(l);
    ws.len() == 0 || ws[0] != "if"@ || (ws.len() == 4 && ws[2] == ">"@)
}

pub open spec fn gt_only_lines(ls: Seq<Seq<char>>) -> bool {
    forall|i: int| 0 <= i < ls.len() ==> gt_only_line(#[trigger] ls[i])
}

/// Whether no line of a spline block's text starts with the word `if`.
pub open spec fn spline_free_of_if(s: Seq<char>) -> bool {
    forall|i: int|
        0 <= i < spline_lines(s).len() ==> !starts_with_word(#[trigger] spline_lines(s)[i], "if"@)
}

/// Whether no line of any spline block of the program, in any frame,
/// starts with the word `if`.
pub open spec fn splines_free_of_if(p: ProgramV) -> bool {
    &&& forall|k: int| 0 <= k < p.splines.len() ==> spline_free_of_if(#[trigger] p.splines[k])
    &&& forall|f: int, k: int|
        0 <= f < p.frames.len() && 0 <= k < p.frames[f].splines.len() ==> spline_free_of_if(
            #[trigger] p.frames[f].splines[k],
        )
}

proof fn lemma_gt_concat(a: Seq<Seq<char>>, b: Seq<Seq<char>>)
    requires
        gt_only_lines(a),
        gt_only_lines(b),
    ensures
        gt_only_lines(a + b),
{
    assert forall|i: int| 0 <= i < (a + b).len() implies gt_only_line(#[trigger] (a + b)[i]) by {
        if i < a.len() {
            assert((a + b)[i] == a[i]);
        } else {
            assert((a + b)[i] == b[i - a.len()]);
        }
    }
}

proof fn lemma_gt_blank()
    ensures
        gt_only_lines(seq![Seq::<char>::empty()]),
{
    let e = Seq::<char>::empty();
    assert(tokens(e) =~= Seq::<Seq<char>>::empty());
    assert(seq![e][0] == e);
}

/// No header key is the word `if`.
proof fn lemma_key_not_if(k: Seq<char>)
    requires
        is_recognised_key(k),
    ensures
        k != "if"@,
{
    reveal_strlit("if");
    reveal_strlit("Bitdepth");
    reveal_strlit("Width");
    reveal_strlit("Height");
    reveal_strlit("Channels");
    reveal_strlit("Orientation");
    reveal_strlit("RCT");
    reveal_strlit("Squeeze");
    reveal_strlit("DeltaPalette");
    reveal_strlit("Gaborish");
    reveal_strlit("XYB");
    reveal_strlit("XYBFactors");
    reveal_strlit("Alpha");
    reveal_strlit("NotLast");
    reveal_strlit("EPF");
    reveal_strlit("Upsample");
    reveal_strlit("HiddenChannel");
    reveal_strlit("Rec2100");
    reveal_strlit("Noise");
    reveal_strlit("FramePos");
    reveal_strlit("SplineQuantizationAdjustment");
    reveal_strlit("CbYCr");
    reveal_strlit("PQ");
    reveal_strlit("GroupShift");
    reveal_strlit("FloatExpBits");
    if k == "if"@ {
        assert(k.len() == 2);
        assert(k[0] == 'i');
    }
}

proof fn lemma_gt_directives(hs: Seq<Seq<char>>, extra: bool)
    requires
        forall|i: int| 0 <= i < hs.len() ==> directive_line(#[trigger] hs[i], extra),
    ensures
        gt_only_lines(hs),
{
    assert forall|i: int| 0 <= i < hs.len() implies gt_only_line(#[trigger] hs[i]) by {
        assert(directive_line(hs[i], extra));
        let t = tokens(hs[i]);
        assert(is_recognised_key(t[0]));
        lemma_key_not_if(t[0]);
    }
}

proof fn lemma_gt_field(key: Seq<char>, n: u32)
    requires
        word(key),
        key != "if"@,
    ensures
        gt_only_line(key + seq![' '] + dec_int(n as int)),
{
    lemma_field_tokens(key, n);
}

proof fn lemma_gt_fields(p: ProgramV)
    ensures
        gt_only_lines(field_lines(p)),
{
    lemma_field_keys_words();
    lemma_field_keys();
    reveal_tree_literals();
    lemma_key_not_if("Bitdepth"@);
    lemma_key_not_if("Orientation"@);
    lemma_key_not_if("RCT"@);
    lemma_key_not_if("Channels"@);
    lemma_key_not_if("Width"@);
    lemma_key_not_if("Height"@);
    let b = seq!["Bitdepth "@ + dec_int(p.bitdepth as int)];
    lemma_gt_field("Bitdepth"@, p.bitdepth);
    assert(gt_only_lines(b)) by {
        assert(b[0] == "Bitdepth"@ + seq![' '] + dec_int(p.bitdepth as int));
    }
    let o = match p.orientation {
        Some(v) => seq!["Orientation "@ + dec_int(v as int)],
        None => seq![],
    };
    assert(gt_only_lines(o)) by {
        if let Some(v) = p.orientation {
            lemma_gt_field("Orientation"@, v);
            assert(o[0] == "Orientation"@ + seq![' '] + dec_int(v as int));
        }
    }
    let r = match p.rct {
        Some(v) => seq!["RCT "@ + dec_int(v as int)],
        None => seq![],
    };
    assert(gt_only_lines(r)) by {
        if let Some(v) = p.rct {
            lemma_gt_field("RCT"@, v);
            assert(r[0] == "RCT"@ + seq![' '] + dec_int(v as int));
        }
    }
    let c = if p.channels != 3 {
        seq!["Channels "@ + dec_int(p.channels as int)]
    } else {
        seq![]
    };
    assert(gt_only_lines(c)) by {
        if p.channels != 3 {
            lemma_gt_field("Channels"@, p.channels);
            assert(c[0] == "Channels"@ + seq![' '] + dec_int(p.channels as int));
        }
    }
    let wh = if p.width != 1024 || p.height != 1024 {
        seq!["Width "@ + dec_int(p.width as int), "Height "@ + dec_int(p.height as int)]
    } else {
        seq![]
    };
    assert(gt_only_lines(wh)) by {
        if p.width != 1024 || p.height != 1024 {
            lemma_gt_field("Width"@, p.width);
            lemma_gt_field("Height"@, p.height);
            assert(wh[0] == "Width"@ + seq![' '] + dec_int(p.width as int));
            assert(wh[1] == "Height"@ + seq![' '] + dec_int(p.height as int));
        }
    }
    lemma_gt_concat(b, o);
    lemma_gt_concat(b + o, r);
    lemma_gt_concat(b + o + r, c);
    lemma_gt_concat(b + o + r + c, wh);
    assert(field_lines(p) == b + o + r + c + wh);
}

proof fn lemma_gt_tree(n: NodeV, depth: nat)
    requires
        tree_ok(n),
    ensures
        gt_only_lines(node_lines(n, depth)),
{
    reveal_tree_literals();
    assert forall|i: int| 0 <= i < node_lines(n, depth).len() implies gt_only_line(
        #[trigger] node_lines(n, depth)[i],
    ) by {
        printed_conditions_use_gt(n, depth, i);
    }
}

proof fn lemma_gt_splines(ss: Seq<Seq<char>>)
    requires
        forall|k: int| 0 <= k < ss.len() ==> spline_free_of_if(#[trigger] ss[k]),
    ensures
        gt_only_lines(splines_lines(ss)),
    decreases ss.len(),
{
    if ss.len() > 0 {
        let rest = ss.drop_first();
        assert forall|k: int| 0 <= k < rest.len() implies spline_free_of_if(#[trigger] rest[k]) by {
            assert(rest[k] == ss[k + 1]);
        }
        lemma_gt_splines(rest);
        let sl = spline_lines(ss[0]);
        assert(spline_free_of_if(ss[0]));
        assert(gt_only_lines(sl)) by {
            assert forall|i: int| 0 <= i < sl.len() implies gt_only_line(#[trigger] sl[i]) by {
                assert(!starts_with_word(sl[i], "if"@));
            }
        }
        lemma_gt_blank();
        lemma_gt_concat(sl, seq![Seq::<char>::empty()]);
        lemma_gt_concat(sl + seq![Seq::<char>::empty()], splines_lines(rest));
    }
}

proof fn lemma_gt_frames(fs: Seq<FrameV>)
    requires
        forall|k: int| 0 <= k < fs.len() ==> frame_ok(#[trigger] fs[k]),
        forall|f: int, k: int|
            0 <= f < fs.len() && 0 <= k < fs[f].splines.len() ==> spline_free_of_if(
                #[trigger] fs[f].splines[k],
            ),
    ensures
        gt_only_lines(frames_lines(fs)),
    decreases fs.len(),
{
    if fs.len() > 0 {
        let rest = fs.drop_first();
        assert forall|k: int| 0 <= k < rest.len() implies frame_ok(#[trigger] rest[k]) by {
            assert(rest[k] == fs[k + 1]);
        }
        assert forall|f: int, k: int|
            0 <= f < rest.len() && 0 <= k < rest[f].splines.len() implies spline_free_of_if(
            #[trigger] rest[f].splines[k],
        ) by {
            assert(rest[f] == fs[f + 1]);
            assert(spline_free_of_if(fs[f + 1].splines[k]));
        }
        lemma_gt_frames(rest);
        let fr = fs[0];
        assert(frame_ok(fr));
        assert forall|k: int| 0 <= k < fr.splines.len() implies spline_free_of_if(
            #[trigger] fr.splines[k],
        ) by {
            assert(spline_free_of_if(fs[0].splines[k]));
        }
        let e = seq![Seq::<char>::empty()];
        lemma_gt_blank();
        lemma_gt_directives(fr.headers, false);
        lemma_gt_splines(fr.splines);
        lemma_gt_tree(fr.root, 0);
        lemma_gt_concat(e, fr.headers);
        lemma_gt_concat(e + fr.headers, e);
        lemma_gt_concat(e + fr.headers + e, splines_lines(fr.splines));
        lemma_gt_concat(e + fr.headers + e + splines_lines(fr.splines), node_lines(fr.root, 0));
        lemma_gt_concat(frame_lines(fr), frames_lines(rest));
    }
}

/// The printer writes no comparison but `>`: every line of a well-formed
/// program's text whose first word is `if` reads `if <var> > <threshold>`,
/// provided no line of a spline block (printed verbatim) starts with the
/// word `if`.
pub proof fn printed_program_uses_only_gt(p: ProgramV)
    requires
        program_ok(p),
        splines_free_of_if(p),
    ensures
        forall|i: int|
            0 <= i < lines(program_text(p)).len() ==> gt_only_line(
                #[trigger] lines(program_text(p))[i],
            ),
{
    lemma_program_text(p);
    lemma_program_good(p);
    let ls = program_lines(p);
    assert forall|i: int| 0 <= i < ls.len() implies plain_line(#[trigger] ls[i]) by {}
    lemma_lines_of_text(ls);
    let e = seq![Seq::<char>::empty()];
    lemma_gt_fields(p);
    lemma_gt_directives(p.headers, true);
    lemma_gt_blank();
    lemma_gt_splines(p.splines);
    lemma_gt_tree(p.root, 0);
    lemma_gt_frames(p.frames);
    let f = field_lines(p);
    lemma_gt_concat(f, p.headers);
    lemma_gt_concat(f + p.headers, e);
    lemma_gt_concat(f + p.headers + e, splines_lines(p.splines));
    lemma_gt_concat(f + p.headers + e + splines_lines(p.splines), node_lines(p.root, 0));
    lemma_gt_concat(
        f + p.headers + e + splines_lines(p.splines) + node_lines(p.root, 0),
        frames_lines(p.frames),
    );
    assert(gt_only_lines(ls));
}

} // verus!

//! The tree-program model: condition variables, predictors, the binary
//! decision tree, frames and whole programs, with their abstract views and
//! the jxl-art text they print as.

use vstd::prelude::*;

use crate::text::{chars_to_string, dec_int, push_i64, push_str, str_chars};

verus! {

// ── Variables usable in conditions ─────────────────────────────────────────

#[derive(Debug, PartialEq)]
#[allow(clippy::upper_case_acronyms)]
pub enum Var {
    X,
    Y,
    C,
    /// West (left) neighbour value
    W,
    /// North (above) neighbour value
    N,
    /// Max absolute transition error from the weighted predictor state.
    WGH,
    /// Any other variable the encoder accepts (e.g. `NE`, `W+N-NW`,
    /// `Prev`, `|W|`), kept verbatim so it prints back unchanged.
    Other(String),
}

/// The abstract value of a [`Var`].
pub enum VarV {
    X,
    Y,
    C,
    W,
    N,
    WGH,
    Other(Seq<char>),
}

impl View for Var {
    type V = VarV;

    open spec fn view(&self) -> VarV {
        match self {
            Var::X => VarV::X,
            Var::Y => VarV::Y,
            Var::C => VarV::C,
            Var::W => VarV::W,
            Var::N => VarV::N,
            Var::WGH => VarV::WGH,
            Var::Other(s) => VarV::Other(s@),
        }
    }
}

impl Clone for Var {
    fn clone(&self) -> (r: Self)
        ensures
            r@ == self@,
    {
        match self {
            Var::X => Var::X,
            Var::Y => Var::Y,
            Var::C => Var::C,
            Var::W => Var::W,
            Var::N => Var::N,
            Var::WGH => Var::WGH,
            Var::Other(s) => Var::Other(s.clone()),
        }
    }
}

/// The name a variable prints as.
pub open spec fn var_label(v: VarV) -> Seq<char> {
    match v {
        VarV::X => "x"@,
        VarV::Y => "y"@,
        VarV::C => "c"@,
        VarV::W => "W"@,
        VarV::N => "N"@,
        VarV::WGH => "WGH"@,
        VarV::Other(s) => s,
    }
}

impl Var {
    pub fn label(&self) -> (r: &str)
        ensures
            r@ == var_label(self@),
    {
        match self {
            Var::X => "x",
            Var::Y => "y",
            Var::C => "c",
            Var::W => "W",
            Var::N => "N",
            Var::WGH => "WGH",
            Var::Other(s) => s.as_str(),
        }
    }
}

// ── Operators ───────────────────────────────────────────────────────────────

/// The encoder only accepts `>` comparisons, so that is all there is.
#[derive(Debug, Clone, Copy, PartialEq, Eq, Structural)]
pub enum Op {
    Gt,
}

// ── Condition ───────────────────────────────────────────────────────────────

#[derive(Debug, PartialEq)]
pub struct Condition {
    pub var: Var,
    pub op: Op,
    pub threshold: i64,
}

/// The abstract value of a [`Condition`]; its operator is always `>`.
pub struct CondV {
    pub var: VarV,
    pub threshold: i64,
}

impl View for Condition {
    type V = CondV;

    open spec fn view(&self) -> CondV {
        CondV { var: self.var@, threshold: self.threshold }
    }
}

impl Clone for Condition {
    fn clone(&self) -> (r: Self)
        ensures
            r@ == self@,
    {
        Condition { var: self.var.clone(), op: Op::Gt, threshold: self.threshold }
    }
}

/// `"<var> > <threshold>"`.
pub open spec fn cond_label(c: CondV) -> Seq<char> {
    var_label(c.var) + " > "@ + dec_int(c.threshold as int)
}

impl Condition {
    pub fn label(&self) -> (r: String)
        ensures
            r@ == cond_label(self@),
    {
        let mut out: Vec<char> = Vec::new();
        push_str(&mut out, self.var.label());
        push_str(&mut out, " > ");
        push_i64(&mut out, self.threshold);
        chars_to_string(&out)
    }
}

// ── Predictors ──────────────────────────────────────────────────────────────

/// Leaf predictor. Rendering happens in the encoder; this type exists so the
/// mutation engine has something to inspect and rewrite.
#[derive(Debug, PartialEq)]
pub enum Predictor {
    /// Absolute literal value.
    SetValue(i64),
    /// North neighbour + offset.
    N(i64),
    /// West neighbour + offset.
    W(i64),
    /// avg(N, NW) + offset.
    AvgNNW(i64),
    /// avg(N, NE) + offset.
    AvgNNE(i64),
    /// avg(W, NW) + offset.
    AvgWNW(i64),
    /// Weighted predictor + offset.
    Weighted(i64),
    /// Any other leaf the encoder accepts (`NE`, `NW`, `WW`, `AvgW+N`,
    /// `AvgAll`, `Gradient`, `Select`); `offset` keeps the source offset
    /// text (`"0"`, `"+ 5"`, `"- 12"`, `"+137"`) so it prints back verbatim.
    Other { name: String, offset: String },
}

/// The abstract value of a [`Predictor`].
pub enum PredV {
    SetValue(i64),
    N(i64),
    W(i64),
    AvgNNW(i64),
    AvgNNE(i64),
    AvgWNW(i64),
    Weighted(i64),
    Other(Seq<char>, Seq<char>),
}

impl View for Predictor {
    type V = PredV;

    open spec fn view(&self) -> PredV {
        match self {
            Predictor::SetValue(v) => PredV::SetValue(*v),
            Predictor::N(o) => PredV::N(*o),
            Predictor::W(o) => PredV::W(*o),
            Predictor::AvgNNW(o) => PredV::AvgNNW(*o),
            Predictor::AvgNNE(o) => PredV::AvgNNE(*o),
            Predictor::AvgWNW(o) => PredV::AvgWNW(*o),
            Predictor::Weighted(o) => PredV::Weighted(*o),
            Predictor::Other { name, offset } => PredV::Other(name@, offset@),
        }
    }
}

impl Clone for Predictor {
    fn clone(&self) -> (r: Self)
        ensures
            r@ == self@,
    {
        match self {
            Predictor::SetValue(v) => Predictor::SetValue(*v),
            Predictor::N(o) => Predictor::N(*o),
            Predictor::W(o) => Predictor::W(*o),
            Predictor::AvgNNW(o) => Predictor::AvgNNW(*o),
            Predictor::AvgNNE(o) => Predictor::AvgNNE(*o),
            Predictor::AvgWNW(o) => Predictor::AvgWNW(*o),
            Predictor::Weighted(o) => Predictor::Weighted(*o),
            Predictor::Other { name, offset } => Predictor::Other {
                name: name.clone(),
                offset: offset.clone(),
            },
        }
    }
}

/// `o.abs()` as a release build computes it (`i64::MIN` stays put).
pub open spec fn wrapping_abs(o: i64) -> i64 {
    if o >= 0 {
        o
    } else if o == i64::MIN {
        o
    } else {
        (-o) as i64
    }
}

/// A non-zero offset: `"+ n"` or `"- n"`.
pub open spec fn offset_text(o: i64) -> Seq<char> {
    if o >= 0 {
        "+ "@ + dec_int(o as int)
    } else {
        "- "@ + dec_int(wrapping_abs(o) as int)
    }
}

/// A neighbour-based predictor with its offset: `"N 0"`, `"N + 5"`, `"N - 3"`.
pub open spec fn pred_with(name: Seq<char>, o: i64) -> Seq<char> {
    if o == 0 {
        name + " 0"@
    } else {
        name + " "@ + offset_text(o)
    }
}

/// The text a predictor prints as after `- `.
pub open spec fn pred_label(p: PredV) -> Seq<char> {
    match p {
        PredV::SetValue(v) => "Set "@ + dec_int(v as int),
        PredV::N(o) => pred_with("N"@, o),
        PredV::W(o) => pred_with("W"@, o),
        PredV::AvgNNW(o) => pred_with("AvgN+NW"@, o),
        PredV::AvgNNE(o) => pred_with("AvgN+NE"@, o),
        PredV::AvgWNW(o) => pred_with("AvgW+NW"@, o),
        PredV::Weighted(o) => pred_with("Weighted"@, o),
        PredV::Other(name, offset) => name + " "@ + offset,
    }
}

fn push_pred_with(out: &mut Vec<char>, name: &str, o: i64)
    ensures
        final(out)@ == old(out)@ + pred_with(name@, o),
{
    push_str(out, name);
    if o == 0 {
        push_str(out, " 0");
    } else {
        push_str(out, " ");
        if o >= 0 {
            push_str(out, "+ ");
            push_i64(out, o);
        } else {
            push_str(out, "- ");
            let a: i64 = if o == i64::MIN {
                o
            } else {
                -o
            };
            push_i64(out, a);
        }
    }
    assert(final(out)@ =~= old(out)@ + pred_with(name@, o));
}

impl Predictor {
    pub fn label(&self) -> (r: String)
        ensures
            r@ == pred_label(self@),
    {
        let mut out: Vec<char> = Vec::new();
        match self {
            Predictor::SetValue(v) => {
                push_str(&mut out, "Set ");
                push_i64(&mut out, *v);
            },
            Predictor::N(o) => push_pred_with(&mut out, "N", *o),
            Predictor::W(o) => push_pred_with(&mut out, "W", *o),
            Predictor::AvgNNW(o) => push_pred_with(&mut out, "AvgN+NW", *o),
            Predictor::AvgNNE(o) => push_pred_with(&mut out, "AvgN+NE", *o),
            Predictor::AvgWNW(o) => push_pred_with(&mut out, "AvgW+NW", *o),
            Predictor::Weighted(o) => push_pred_with(&mut out, "Weighted", *o),
            Predictor::Other { name, offset } => {
                push_str(&mut out, name.as_str());
                push_str(&mut out, " ");
                push_str(&mut out, offset.as_str());
            },
        }
        assert(out@ =~= pred_label(self@));
        chars_to_string(&out)
    }
}


// ── Nodes ────────────────────────────────────────────────────────────────────

/// Binary decision tree: every `If` has exactly one `on_true` and one
/// `on_false`, every path ends at a `Predict` leaf.
#[derive(Debug, PartialEq)]
pub enum Node {
    If { condition: Condition, on_true: Box<Node>, on_false: Box<Node> },
    Predict(Predictor),
}

/// The abstract value of a [`Node`].
pub enum NodeV {
    If(CondV, Box<NodeV>, Box<NodeV>),
    Leaf(PredV),
}

pub open spec fn node_view(n: &Node) -> NodeV
    decreases n,
{
    match n {
        Node::If { condition, on_true, on_false } => NodeV::If(
            condition@,
            Box::new(node_view(on_true)),
            Box::new(node_view(on_false)),
        ),
        Node::Predict(p) => NodeV::Leaf(p@),
    }
}

impl View for Node {
    type V = NodeV;

    open spec fn view(&self) -> NodeV {
        node_view(self)
    }
}

impl Clone for Node {
    fn clone(&self) -> (r: Self)
        ensures
            r@ == self@,
        decreases self,
    {
        match self {
            Node::If { condition, on_true, on_false } => {
                let t: &Node = on_true;
                let f: &Node = on_false;
                Node::If {
                    condition: condition.clone(),
                    on_true: Box::new(t.clone()),
                    on_false: Box::new(f.clone()),
                }
            },
            Node::Predict(p) => Node::Predict(p.clone()),
        }
    }
}

// ── Image program ─────────────────────────────────────────────────────────────

/// One frame after the first in a multi-frame (`NotLast`) program, with its
/// own verbatim header lines, spline blocks and tree.
#[derive(Debug, PartialEq)]
pub struct Frame {
    /// This frame's header directive lines, verbatim and in source order.
    pub extra_headers: Vec<String>,
    /// Verbatim `Spline … EndSpline` blocks for this frame.
    pub splines: Vec<String>,
    pub root: Node,
}

/// The abstract value of a [`Frame`].
pub struct FrameV {
    pub headers: Seq<Seq<char>>,
    pub splines: Seq<Seq<char>>,
    pub root: NodeV,
}

/// The views of a list of strings.
pub open spec fn string_views(v: Seq<String>) -> Seq<Seq<char>> {
    v.map_values(|s: String| s@)
}

impl View for Frame {
    type V = FrameV;

    open spec fn view(&self) -> FrameV {
        FrameV {
            headers: string_views(self.extra_headers@),
            splines: string_views(self.splines@),
            root: self.root@,
        }
    }
}

#[derive(Debug, PartialEq)]
pub struct ImageProgram {
    pub width: u32,
    pub height: u32,
    pub bitdepth: u32,
    pub channels: u32,
    pub orientation: Option<u32>,
    pub rct: Option<u32>,
    /// Header directives not modelled structurally, as raw lines in source
    /// order (`"DeltaPalette"`, `"Alpha"`, `"HiddenChannel 15"`, …).
    pub extra_headers: Vec<String>,
    /// Verbatim `Spline … EndSpline` blocks, printed between the header and
    /// the body.
    pub splines: Vec<String>,
    pub root: Node,
    /// Frames after the first; empty for a single-frame program.
    pub extra_frames: Vec<Frame>,
}

/// The abstract value of an [`ImageProgram`].
pub struct ProgramV {
    pub width: u32,
    pub height: u32,
    pub bitdepth: u32,
    pub channels: u32,
    pub orientation: Option<u32>,
    pub rct: Option<u32>,
    pub headers: Seq<Seq<char>>,
    pub splines: Seq<Seq<char>>,
    pub root: NodeV,
    pub frames: Seq<FrameV>,
}

impl View for ImageProgram {
    type V = ProgramV;

    open spec fn view(&self) -> ProgramV {
        ProgramV {
            width: self.width,
            height: self.height,
            bitdepth: self.bitdepth,
            channels: self.channels,
            orientation: self.orientation,
            rct: self.rct,
            headers: string_views(self.extra_headers@),
            splines: string_views(self.splines@),
            root: self.root@,
            frames: self.extra_frames@.map_values(|f: Frame| f@),
        }
    }
}

fn clone_strings(v: &Vec<String>) -> (r: Vec<String>)
    ensures
        string_views(r@) == string_views(v@),
{
    let mut out: Vec<String> = Vec::new();
    let mut i: usize = 0;
    while i < v.len()
        invariant
            i <= v@.len(),
            string_views(out@) == string_views(v@.take(i as int)),
        decreases v@.len() - i,
    {
        let c = v[i].clone();
        assert(c@ == v@[i as int]@);
        let ghost prev = out@;
        out.push(c);
        assert(string_views(out@) =~= string_views(prev).push(c@));
        assert(string_views(v@.take(i + 1)) =~= string_views(v@.take(i as int)).push(v@[i as int]@));
        i = i + 1;
    }
    assert(v@.take(v@.len() as int) =~= v@);
    out
}

impl Clone for Frame {
    fn clone(&self) -> (r: Self)
        ensures
            r@ == self@,
    {
        Frame {
            extra_headers: clone_strings(&self.extra_headers),
            splines: clone_strings(&self.splines),
            root: self.root.clone(),
        }
    }
}

fn clone_frames(v: &Vec<Frame>) -> (r: Vec<Frame>)
    ensures
        r@.map_values(|f: Frame| f@) == v@.map_values(|f: Frame| f@),
{
    let mut out: Vec<Frame> = Vec::new();
    let mut i: usize = 0;
    while i < v.len()
        invariant
            i <= v@.len(),
            out@.map_values(|f: Frame| f@) == v@.take(i as int).map_values(|f: Frame| f@),
        decreases v@.len() - i,
    {
        let c = v[i].clone();
        assert(c@ == v@[i as int]@);
        let ghost prev = out@;
        out.push(c);
        assert(out@.map_values(|f: Frame| f@) =~= prev.map_values(|f: Frame| f@).push(c@));
        assert(v@.take(i + 1).map_values(|f: Frame| f@) =~= v@.take(i as int).map_values(
            |f: Frame| f@,
        ).push(v@[i as int]@));
        i = i + 1;
    }
    assert(v@.take(v@.len() as int) =~= v@);
    out
}

impl Clone for ImageProgram {
    fn clone(&self) -> (r: Self)
        ensures
            r@ == self@,
    {
        ImageProgram {
            width: self.width,
            height: self.height,
            bitdepth: self.bitdepth,
            channels: self.channels,
            orientation: self.orientation,
            rct: self.rct,
            extra_headers: clone_strings(&self.extra_headers),
            splines: clone_strings(&self.splines),
            root: self.root.clone(),
            extra_frames: clone_frames(&self.extra_frames),
        }
    }
}

// ── Printing ──────────────────────────────────────────────────────────────────

pub open spec fn nl() -> Seq<char> {
    seq!['\n']
}

/// Two spaces per level of depth.
pub open spec fn indent(depth: nat) -> Seq<char> {
    Seq::new(2 * depth, |i: int| ' ')
}

/// The lines of a tree, indented from `depth`.
pub open spec fn node_text(n: NodeV, depth: nat) -> Seq<char>
    decreases n,
{
    match n {
        NodeV::If(c, t, f) => indent(depth) + "if "@ + cond_label(c) + nl() + node_text(*t, depth + 1)
            + node_text(*f, depth + 1),
        NodeV::Leaf(p) => indent(depth) + "- "@ + pred_label(p) + nl(),
    }
}

/// Each line followed by a newline.
pub open spec fn lines_text(ls: Seq<Seq<char>>) -> Seq<char>
    decreases ls.len(),
{
    if ls.len() == 0 {
        seq![]
    } else {
        lines_text(ls.drop_last()) + ls.last() + nl()
    }
}

/// A spline block, newline-terminated, then a blank line.
pub open spec fn spline_text(s: Seq<char>) -> Seq<char> {
    if s.len() > 0 && s.last() == '\n' {
        s + nl()
    } else {
        s + nl() + nl()
    }
}

pub open spec fn splines_text(ss: Seq<Seq<char>>) -> Seq<char>
    decreases ss.len(),
{
    if ss.len() == 0 {
        seq![]
    } else {
        splines_text(ss.drop_last()) + spline_text(ss.last())
    }
}

/// `"<key><n>\n"` for a present value.
pub open spec fn opt_line(key: Seq<char>, v: Option<u32>) -> Seq<char> {
    match v {
        Some(x) => key + dec_int(x as int) + nl(),
        None => seq![],
    }
}

pub open spec fn channels_text(c: u32) -> Seq<char> {
    if c != 3 {
        "Channels "@ + dec_int(c as int) + nl()
    } else {
        seq![]
    }
}

pub open spec fn size_text(w: u32, h: u32) -> Seq<char> {
    if w != 1024 || h != 1024 {
        "Width "@ + dec_int(w as int) + nl() + "Height "@ + dec_int(h as int) + nl()
    } else {
        seq![]
    }
}

/// The structured header directives.
pub open spec fn fields_text(p: ProgramV) -> Seq<char> {
    "Bitdepth "@ + dec_int(p.bitdepth as int) + nl() + opt_line("Orientation "@, p.orientation)
        + opt_line("RCT "@, p.rct) + channels_text(p.channels) + size_text(p.width, p.height)
}

/// Everything before the first frame's tree.
pub open spec fn header_text(p: ProgramV) -> Seq<char> {
    fields_text(p) + lines_text(p.headers) + nl() + splines_text(p.splines)
}

/// A later frame: a blank line, its header lines, a blank line, its splines
/// and its tree.
pub open spec fn frame_text(f: FrameV) -> Seq<char> {
    nl() + lines_text(f.headers) + nl() + splines_text(f.splines) + node_text(f.root, 0)
}

pub open spec fn frames_text(fs: Seq<FrameV>) -> Seq<char>
    decreases fs.len(),
{
    if fs.len() == 0 {
        seq![]
    } else {
        frames_text(fs.drop_last()) + frame_text(fs.last())
    }
}

/// The jxl-art text of a program. `Width`/`Height` are printed only when
/// either differs from 1024 and `Channels` only when it is not 3, the
/// values that reading the text assumes when they are absent.
pub open spec fn program_text(p: ProgramV) -> Seq<char> {
    header_text(p) + node_text(p.root, 0) + frames_text(p.frames)
}

fn push_indent(out: &mut Vec<char>, depth: usize)
    ensures
        final(out)@ == old(out)@ + indent(depth as nat),
{
    let ghost start = out@;
    let mut k: usize = 0;
    while k < depth
        invariant
            k <= depth,
            out@ == start + indent(k as nat),
        decreases depth - k,
    {
        out.push(' ');
        out.push(' ');
        k = k + 1;
        assert(out@ =~= start + indent(k as nat));
    }
}

fn write_node(out: &mut Vec<char>, node: &Node, depth: usize)
    requires
        depth < usize::MAX - node_depth(node@),
    ensures
        final(out)@ == old(out)@ + node_text(node@, depth as nat),
    decreases node,
{
    let ghost start = out@;
    match node {
        Node::If { condition, on_true, on_false } => {
            push_indent(out, depth);
            push_str(out, "if ");
            let l = condition.label();
            push_str(out, l.as_str());
            out.push('\n');
            let ghost mid = out@;
            write_node(out, on_true, depth + 1);
            write_node(out, on_false, depth + 1);
            assert(out@ =~= start + node_text(node@, depth as nat));
        },
        Node::Predict(pred) => {
            push_indent(out, depth);
            push_str(out, "- ");
            let l = pred.label();
            push_str(out, l.as_str());
            out.push('\n');
            assert(out@ =~= start + node_text(node@, depth as nat));
        },
    }
}

/// Depth of a tree: a leaf has depth 0.
pub open spec fn node_depth(n: NodeV) -> nat
    decreases n,
{
    match n {
        NodeV::If(_, t, f) => 1 + if node_depth(*t) >= node_depth(*f) {
            node_depth(*t)
        } else {
            node_depth(*f)
        },
        NodeV::Leaf(_) => 0,
    }
}

/// Every tree of the program is shallower than the machine word can count.
pub open spec fn depths_fit(p: ProgramV) -> bool {
    &&& node_depth(p.root) < usize::MAX
    &&& forall|k: int| 0 <= k < p.frames.len() ==> node_depth(#[trigger] p.frames[k].root) < usize::MAX
}

/// The depth of a tree, when it fits in a `usize`.
pub fn tree_depth(n: &Node) -> (r: Option<usize>)
    ensures
        r == (if node_depth(n@) <= usize::MAX {
            Some(node_depth(n@) as usize)
        } else {
            None::<usize>
        }),
    decreases n,
{
    match n {
        Node::If { on_true, on_false, .. } => {
            let t: &Node = on_true;
            let f: &Node = on_false;
            match (tree_depth(t), tree_depth(f)) {
                (Some(a), Some(b)) => {
                    let m = if a >= b {
                        a
                    } else {
                        b
                    };
                    if m < usize::MAX {
                        Some(m + 1)
                    } else {
                        None
                    }
                },
                _ => None,
            }
        },
        Node::Predict(_) => Some(0),
    }
}

impl ImageProgram {
    /// Whether every tree of the program is shallower than a `usize` can
    /// count, as `to_text` needs.
    pub fn depths_fit(&self) -> (r: bool)
        ensures
            r == depths_fit(self@),
    {
        match tree_depth(&self.root) {
            Some(d) => {
                if d == usize::MAX {
                    return false;
                }
            },
            None => {
                return false;
            },
        }
        let mut k: usize = 0;
        while k < self.extra_frames.len()
            invariant
                k <= self.extra_frames@.len(),
                forall|j: int| 0 <= j < k ==> node_depth(#[trigger] self@.frames[j].root) < usize::MAX,
            decreases self.extra_frames@.len() - k,
        {
            assert(self@.frames[k as int] == self.extra_frames@[k as int]@);
            match tree_depth(&self.extra_frames[k].root) {
                Some(d) => {
                    if d == usize::MAX {
                        assert(node_depth(self@.frames[k as int].root) >= usize::MAX);
                        return false;
                    }
                },
                None => {
                    assert(node_depth(self@.frames[k as int].root) >= usize::MAX);
                    return false;
                },
            }
            k = k + 1;
        }
        true
    }
}

fn push_lines(out: &mut Vec<char>, ls: &Vec<String>)
    ensures
        final(out)@ == old(out)@ + lines_text(string_views(ls@)),
{
    let ghost start = out@;
    let mut k: usize = 0;
    while k < ls.len()
        invariant
            k <= ls@.len(),
            out@ == start + lines_text(string_views(ls@.take(k as int))),
        decreases ls@.len() - k,
    {
        push_str(out, ls[k].as_str());
        out.push('\n');
        assert(string_views(ls@.take(k + 1)).drop_last() =~= string_views(ls@.take(k as int)));
        k = k + 1;
        assert(out@ =~= start + lines_text(string_views(ls@.take(k as int))));
    }
    assert(ls@.take(ls@.len() as int) =~= ls@);
}

fn push_splines(out: &mut Vec<char>, ss: &Vec<String>)
    ensures
        final(out)@ == old(out)@ + splines_text(string_views(ss@)),
{
    let ghost start = out@;
    let mut k: usize = 0;
    while k < ss.len()
        invariant
            k <= ss@.len(),
            out@ == start + splines_text(string_views(ss@.take(k as int))),
        decreases ss@.len() - k,
    {
        let s = str_chars(ss[k].as_str());
        let ghost before = out@;
        push_str(out, ss[k].as_str());
        let n = s.len();
        if !(n > 0 && s[n - 1] == '\n') {
            out.push('\n');
        }
        out.push('\n');
        assert(string_views(ss@.take(k + 1)).drop_last() =~= string_views(ss@.take(k as int)));
        assert(out@ =~= before + spline_text(ss@[k as int]@));
        k = k + 1;
        assert(out@ =~= start + splines_text(string_views(ss@.take(k as int))));
    }
    assert(ss@.take(ss@.len() as int) =~= ss@);
}

fn push_keyed(out: &mut Vec<char>, key: &str, v: u32)
    ensures
        final(out)@ == old(out)@ + key@ + dec_int(v as int) + nl(),
{
    push_str(out, key);
    push_i64(out, v as i64);
    out.push('\n');
    assert(final(out)@ =~= old(out)@ + key@ + dec_int(v as int) + nl());
}

fn push_frame(out: &mut Vec<char>, frame: &Frame)
    requires
        node_depth(frame@.root) < usize::MAX,
    ensures
        final(out)@ == old(out)@ + frame_text(frame@),
{
    let ghost before = out@;
    out.push('\n');
    push_lines(out, &frame.extra_headers);
    out.push('\n');
    push_splines(out, &frame.splines);
    write_node(out, &frame.root, 0);
    assert(final(out)@ =~= before + frame_text(frame@));
}

fn push_opt(out: &mut Vec<char>, key: &str, v: Option<u32>)
    ensures
        final(out)@ == old(out)@ + opt_line(key@, v),
{
    match v {
        Some(x) => push_keyed(out, key, x),
        None => {
            assert(final(out)@ =~= old(out)@ + opt_line(key@, v));
        },
    }
}

fn push_channels(out: &mut Vec<char>, c: u32)
    ensures
        final(out)@ == old(out)@ + channels_text(c),
{
    if c != 3 {
        push_keyed(out, "Channels ", c);
    } else {
        assert(final(out)@ =~= old(out)@ + channels_text(c));
    }
}

fn push_size(out: &mut Vec<char>, w: u32, h: u32)
    ensures
        final(out)@ == old(out)@ + size_text(w, h),
{
    if w != 1024 || h != 1024 {
        push_keyed(out, "Width ", w);
        push_keyed(out, "Height ", h);
        assert(final(out)@ =~= old(out)@ + size_text(w, h));
    } else {
        assert(final(out)@ =~= old(out)@ + size_text(w, h));
    }
}

impl ImageProgram {
    fn push_fields(&self, out: &mut Vec<char>)
        ensures
            final(out)@ == old(out)@ + fields_text(self@),
    {
        let ghost before = out@;
        push_keyed(out, "Bitdepth ", self.bitdepth);
        push_opt(out, "Orientation ", self.orientation);
        push_opt(out, "RCT ", self.rct);
        push_channels(out, self.channels);
        push_size(out, self.width, self.height);
        assert(final(out)@ =~= before + fields_text(self@));
    }

    fn push_header(&self, out: &mut Vec<char>)
        ensures
            final(out)@ == old(out)@ + header_text(self@),
    {
        let ghost before = out@;
        self.push_fields(out);
        push_lines(out, &self.extra_headers);
        out.push('\n');
        push_splines(out, &self.splines);
        assert(final(out)@ =~= before + header_text(self@));
    }

    /// Serialise to the human-readable jxl-art text format.
    pub fn to_text(&self) -> (r: String)
        requires
            depths_fit(self@),
        ensures
            r@ == program_text(self@),
    {
        let mut out: Vec<char> = Vec::new();
        self.push_header(&mut out);
        write_node(&mut out, &self.root, 0);
        let ghost body = out@;
        let mut k: usize = 0;
        while k < self.extra_frames.len()
            invariant
                k <= self.extra_frames@.len(),
                depths_fit(self@),
                out@ == body + frames_text(self@.frames.take(k as int)),
            decreases self.extra_frames@.len() - k,
        {
            let frame = &self.extra_frames[k];
            assert(self@.frames[k as int] == frame@);
            push_frame(&mut out, frame);
            assert(self@.frames.take(k + 1).drop_last() =~= self@.frames.take(k as int));
            k = k + 1;
        }
        assert(self@.frames.take(self@.frames.len() as int) =~= self@.frames);
        assert(out@ =~= program_text(self@));
        chars_to_string(&out)
    }
}

} // verus!

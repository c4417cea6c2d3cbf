//! The diagram primitives and the renderer over them.
//!
//! Every primitive draws as a rectangle of text rows. Its mathematical
//! model is a [`NodeView`]; the functions [`spec_entry`], [`spec_height`]
//! and [`spec_width`] give the exact dimensions of the drawing and
//! [`spec_draw`] gives its exact rows, so that the executable `draw`
//! methods are pinned down completely.

use vstd::prelude::*;
use crate::ast::AnchorType;
use crate::ast::CharacterType;
use crate::ast::CharacterTypeView;
use crate::ast::MetaCharacter;
use crate::ast::RegEx;
use crate::ast::RegExView;
use crate::ast::RepetitionType;
use crate::ast::char_type_view;
use crate::ast::char_type_views;
use crate::ast::lemma_char_type_views_index;
use crate::ast::lemma_regex_views_index;
use crate::ast::regex_view;
use crate::ast::regex_views;
use crate::error::Error;
use crate::strings::decimal_string_usize;
use crate::strings::spec_repeat;
use crate::strings::spec_decimal;
use crate::strings::push_char;
use crate::strings::append_repeat;
use crate::strings::append_str;
use crate::strings::repeat;
use crate::strings::decimal_string;
use crate::railroad::sym;
use vstd::string::StrSliceExecFns;

verus! {

/// A horizontal sequence of diagram elements.
///
/// ```text
///   ┌───┐  ┌───┐  ┌───┐
///   │ A ├──┤ B ├──┤ C │
///   └───┘  └───┘  └───┘
/// ```
pub struct Sequence {
    pub children: Vec<Node>,
}

/// The start cap of a diagram: `START╟──`.
pub struct Start {}

/// The end cap of a diagram: `──╢END`.
pub struct End {}

/// A boxed literal text.
///
/// ```text
///   ┌──────────┐
///   ┤ Terminal ├
///   └──────────┘
/// ```
pub struct Terminal {
    pub text: String,
}

/// A zero-width assertion, drawn with bold box glyphs.
///
/// ```text
///   ┏━━━━━━━━┓
///   ┨ Anchor ┠
///   ┗━━━━━━━━┛
/// ```
pub struct Anchor {
    pub text: String,
}

/// A repeated node, with a return loop below and a count bar.
///
/// ```text
///     ┌────────────┐
///   ┬─┤ Repetition ├─┬
///   │ └────────────┘ │
///   ╰─N──────────────╯
/// ```
pub struct Repetition {
    pub inner: Node,
    pub repetition: RepetitionType,
}

/// A node that may be skipped, with a bypass loop above.
///
/// ```text
///   ╭──────────────╮
///   │ ┌──────────┐ │
///   ┴─┤ Optional ├─┴
///     └──────────┘
/// ```
pub struct Optional {
    pub inner: Node,
}

/// A choice of nodes stacked vertically.
///
/// ```text
///     ┌───┐
///   ╭─┤ A ├─╮
///   │ └───┘ │
///   ┤       ├
///   │ ┌───┐ │
///   ╰─┤ B ├─╯
///     └───┘
/// ```
pub struct Choice {
    pub inner: Vec<Node>,
}

/// A character class listed one member per row.
///
/// ```text
///   One of:
///   ┌─────────┐
///   │    a    │
///   ┤    b    ├
///   └─────────┘
/// ```
pub struct Stack {
    pub invert: bool,
    pub characters: Vec<String>,
}

/// A capture group: a dashed box around its inner node, named on the top
/// edge.
///
/// ```text
///   ╭╌╌╌ Name ╌╌╌╮
///   ┆ ┌────────┐ ┆
///   ┼─┤  Node  ├─┼
///   ┆ └────────┘ ┆
///   ╰╌╌╌╌╌╌╌╌╌╌╌╌╯
/// ```
pub struct Capture {
    pub inner: Node,
    pub name: String,
}

/// A layout node: the closed union of all diagram primitives.
pub enum Node {
    Sequence(Sequence),
    Start(Start),
    End(End),
    Terminal(Terminal),
    Anchor(Anchor),
    Repetition(Box<Repetition>),
    Optional(Box<Optional>),
    Choice(Choice),
    Stack(Stack),
    Capture(Box<Capture>),
}

/// The mathematical model of a layout node.
pub enum NodeView {
    Sequence(Seq<NodeView>),
    Start,
    End,
    Terminal(Seq<char>),
    Anchor(Seq<char>),
    Repetition(Box<NodeView>, RepetitionType),
    Optional(Box<NodeView>),
    Choice(Seq<NodeView>),
    Stack(bool, Seq<Seq<char>>),
    Capture(Box<NodeView>, Seq<char>),
}

/// The views of a list of member strings.
pub open spec fn strs_view(s: Seq<String>) -> Seq<Seq<char>> {
    s.map_values(|x: String| x@)
}

/// The model of a layout node.
pub open spec fn node_view(n: Node) -> NodeView
    decreases n,
{
    match n {
        Node::Sequence(q) => NodeView::Sequence(node_views(q.children@)),
        Node::Start(_) => NodeView::Start,
        Node::End(_) => NodeView::End,
        Node::Terminal(t) => NodeView::Terminal(t.text@),
        Node::Anchor(a) => NodeView::Anchor(a.text@),
        Node::Repetition(r) => NodeView::Repetition(
            Box::new(node_view(r.inner)),
            r.repetition,
        ),
        Node::Optional(o) => NodeView::Optional(Box::new(node_view(o.inner))),
        Node::Choice(c) => NodeView::Choice(node_views(c.inner@)),
        Node::Stack(st) => NodeView::Stack(st.invert, strs_view(st.characters@)),
        Node::Capture(cp) => NodeView::Capture(Box::new(node_view(cp.inner)), cp.name@),
    }
}

/// The models of a list of layout nodes.
pub open spec fn node_views(s: Seq<Node>) -> Seq<NodeView>
    decreases s,
{
    if s.len() == 0 {
        Seq::empty()
    } else {
        node_views(s.drop_last()).push(node_view(s.last()))
    }
}

impl View for Node {
    type V = NodeView;

    open spec fn view(&self) -> NodeView {
        node_view(*self)
    }
}

/// Appending one node appends its model.
pub proof fn lemma_node_views_push(s: Seq<Node>, n: Node)
    ensures
        node_views(s.push(n)) == node_views(s).push(node_view(n)),
{
    assert(s.push(n).drop_last() =~= s);
    assert(s.push(n).last() == n);
}

/// The models of a list of nodes, element by element.
pub proof fn lemma_node_views_index(s: Seq<Node>)
    ensures
        node_views(s).len() == s.len(),
        forall|i: int| 0 <= i < s.len() ==> #[trigger] node_views(s)[i] == node_view(s[i]),
    decreases s,
{
    if s.len() > 0 {
        lemma_node_views_index(s.drop_last());
    }
}

/// The larger of two integers.
pub open spec fn imax(a: int, b: int) -> int {
    if a >= b {
        a
    } else {
        b
    }
}

/// The row at which a node's connecting rail enters, counted from its own
/// top edge.
pub open spec fn spec_entry(n: NodeView) -> int
    decreases n,
{
    match n {
        NodeView::Sequence(cs) => spec_max_entry(cs),
        NodeView::Start => 0,
        NodeView::End => 0,
        NodeView::Terminal(_) => 1,
        NodeView::Anchor(_) => 1,
        NodeView::Repetition(inner, _) => spec_entry(*inner),
        NodeView::Optional(inner) => spec_entry(*inner) + 1,
        NodeView::Choice(bs) => (spec_total_height(bs) - 1) / 2,
        NodeView::Stack(_, cs) => (cs.len() as int + 3) / 2,
        NodeView::Capture(inner, _) => spec_entry(*inner) + 1,
    }
}

/// The exact number of rows a node draws.
pub open spec fn spec_height(n: NodeView) -> int
    decreases n,
{
    match n {
        NodeView::Sequence(cs) => spec_max_entry(cs) + spec_seq_bot(cs),
        NodeView::Start => 1,
        NodeView::End => 1,
        NodeView::Terminal(_) => 3,
        NodeView::Anchor(_) => 3,
        NodeView::Repetition(inner, _) => spec_height(*inner) + 1,
        NodeView::Optional(inner) => spec_height(*inner) + 1,
        NodeView::Choice(bs) => spec_total_height(bs),
        NodeView::Stack(_, cs) => cs.len() as int + 3,
        NodeView::Capture(inner, _) => spec_height(*inner) + 2,
    }
}

/// The exact number of columns a node draws.
pub open spec fn spec_width(n: NodeView) -> int
    decreases n,
{
    match n {
        NodeView::Sequence(cs) => if cs.len() == 0 {
            0
        } else {
            spec_total_width(cs) + 2 * (cs.len() as int - 1)
        },
        NodeView::Start => 6,
        NodeView::End => 4,
        NodeView::Terminal(t) => t.len() as int + 4,
        NodeView::Anchor(t) => t.len() as int + 2,
        NodeView::Repetition(inner, _) => spec_width(*inner) + 4,
        NodeView::Optional(inner) => spec_width(*inner) + 4,
        NodeView::Choice(bs) => spec_max_width(bs) + 2,
        NodeView::Stack(_, cs) => imax(spec_max_strlen(cs) + 2, 9),
        NodeView::Capture(inner, _) => spec_width(*inner) + 4,
    }
}

/// The largest entry height among the nodes (0 when there are none).
pub open spec fn spec_max_entry(s: Seq<NodeView>) -> int
    decreases s,
{
    if s.len() == 0 {
        0
    } else {
        imax(spec_max_entry(s.drop_last()), spec_entry(s.last()))
    }
}

/// The largest row count below and including the rail among the nodes
/// (1 when there are none: an empty sequence still draws one empty row).
pub open spec fn spec_seq_bot(s: Seq<NodeView>) -> int
    decreases s,
{
    if s.len() == 0 {
        1
    } else {
        imax(spec_seq_bot(s.drop_last()), spec_height(s.last()) - spec_entry(s.last()))
    }
}

/// The largest height among the nodes (0 when there are none).
pub open spec fn spec_max_height(s: Seq<NodeView>) -> int
    decreases s,
{
    if s.len() == 0 {
        0
    } else {
        imax(spec_max_height(s.drop_last()), spec_height(s.last()))
    }
}

/// The largest width among the nodes (0 when there are none).
pub open spec fn spec_max_width(s: Seq<NodeView>) -> int
    decreases s,
{
    if s.len() == 0 {
        0
    } else {
        imax(spec_max_width(s.drop_last()), spec_width(s.last()))
    }
}

/// The sum of the heights of the nodes.
pub open spec fn spec_total_height(s: Seq<NodeView>) -> int
    decreases s,
{
    if s.len() == 0 {
        0
    } else {
        spec_total_height(s.drop_last()) + spec_height(s.last())
    }
}

/// The sum of the widths of the nodes.
pub open spec fn spec_total_width(s: Seq<NodeView>) -> int
    decreases s,
{
    if s.len() == 0 {
        0
    } else {
        spec_total_width(s.drop_last()) + spec_width(s.last())
    }
}

/// The longest member string (0 when there are none).
pub open spec fn spec_max_strlen(s: Seq<Seq<char>>) -> int
    decreases s,
{
    if s.len() == 0 {
        0
    } else {
        imax(spec_max_strlen(s.drop_last()), s.last().len() as int)
    }
}

/// A constructible node: a choice is never empty, and a repetition never
/// carries the zero-or-one count (that shape is an [`Optional`]).
pub open spec fn spec_wf(n: NodeView) -> bool
    decreases n,
{
    match n {
        NodeView::Sequence(cs) => spec_wf_list(cs),
        NodeView::Repetition(inner, rt) => !(rt is ZeroOrOne) && spec_wf(*inner),
        NodeView::Optional(inner) => spec_wf(*inner),
        NodeView::Choice(bs) => bs.len() >= 1 && spec_wf_list(bs),
        NodeView::Capture(inner, _) => spec_wf(*inner),
        _ => true,
    }
}

/// Every node of the list is constructible.
pub open spec fn spec_wf_list(s: Seq<NodeView>) -> bool
    decreases s,
{
    s.len() == 0 || (spec_wf_list(s.drop_last()) && spec_wf(s.last()))
}

/// The description on a repetition's count bar: `" N+ "`, `" N "` or
/// `" N-M "`.
pub open spec fn spec_desc(rt: RepetitionType) -> Seq<char> {
    match rt {
        RepetitionType::OrMore(n) => seq![' '] + spec_decimal(n as nat) + seq!['+', ' '],
        RepetitionType::Exactly(n) => seq![' '] + spec_decimal(n as nat) + seq![' '],
        RepetitionType::Between(n, m) => seq![' '] + spec_decimal(n as nat) + seq!['-']
            + spec_decimal(m as nat) + seq![' '],
        RepetitionType::ZeroOrOne => Seq::empty(),
    }
}

/// Every label fits inside the width of the node that carries it: a
/// repetition's count bar inside its bottom loop and a capture's name on
/// its top edge. Only then is every drawn row exactly as wide as the
/// node.
pub open spec fn spec_fits(n: NodeView) -> bool
    decreases n,
{
    match n {
        NodeView::Sequence(cs) => spec_fits_list(cs),
        NodeView::Repetition(inner, rt) => spec_desc(rt).len() <= spec_width(*inner) + 2
            && spec_fits(*inner),
        NodeView::Optional(inner) => spec_fits(*inner),
        NodeView::Choice(bs) => spec_fits_list(bs),
        NodeView::Capture(inner, name) => name.len() <= spec_width(*inner) + 2 && spec_fits(
            *inner,
        ),
        _ => true,
    }
}

/// Every node of the list has fitting labels.
pub open spec fn spec_fits_list(s: Seq<NodeView>) -> bool
    decreases s,
{
    s.len() == 0 || (spec_fits_list(s.drop_last()) && spec_fits(s.last()))
}

/// The node's dimensions, and those of all its parts, fit the machine
/// word.
pub open spec fn spec_dims_ok(n: NodeView) -> bool
    decreases n,
{
    &&& spec_width(n) <= usize::MAX
    &&& spec_height(n) <= usize::MAX
    &&& match n {
        NodeView::Sequence(cs) => spec_dims_ok_list(cs),
        NodeView::Repetition(inner, _) => spec_dims_ok(*inner),
        NodeView::Optional(inner) => spec_dims_ok(*inner),
        NodeView::Choice(bs) => spec_dims_ok_list(bs),
        NodeView::Capture(inner, _) => spec_dims_ok(*inner),
        _ => true,
    }
}

/// The dimensions of every node of the list fit the machine word.
pub open spec fn spec_dims_ok_list(s: Seq<NodeView>) -> bool
    decreases s,
{
    s.len() == 0 || (spec_dims_ok_list(s.drop_last()) && spec_dims_ok(s.last()))
}

/// List predicates hold element by element.
pub proof fn lemma_list_index(s: Seq<NodeView>)
    ensures
        spec_wf_list(s) ==> forall|i: int| 0 <= i < s.len() ==> spec_wf(#[trigger] s[i]),
        spec_fits_list(s) ==> forall|i: int| 0 <= i < s.len() ==> spec_fits(#[trigger] s[i]),
        spec_dims_ok_list(s) ==> forall|i: int|
            0 <= i < s.len() ==> spec_dims_ok(#[trigger] s[i]),
    decreases s,
{
    if s.len() > 0 {
        lemma_list_index(s.drop_last());
        assert(forall|i: int| 0 <= i < s.len() - 1 ==> s.drop_last()[i] == #[trigger] s[i]);
        assert(s[s.len() - 1] == s.last());
    }
}

/// List measures bound their elements.
pub proof fn lemma_list_bounds(s: Seq<NodeView>)
    ensures
        forall|i: int|
            0 <= i < s.len() ==> spec_entry(#[trigger] s[i]) <= spec_max_entry(s),
        forall|i: int|
            0 <= i < s.len() ==> spec_height(#[trigger] s[i]) <= spec_max_height(s),
        forall|i: int| 0 <= i < s.len() ==> spec_width(#[trigger] s[i]) <= spec_max_width(s),
        forall|i: int|
            0 <= i < s.len() ==> spec_height(#[trigger] s[i]) - spec_entry(s[i]) <= spec_seq_bot(
                s,
            ),
        spec_max_entry(s) >= 0,
        spec_seq_bot(s) >= 1,
        spec_max_height(s) >= 0,
        spec_max_width(s) >= 0,
        spec_max_strlen(strs_view(Seq::<String>::empty())) >= 0,
    decreases s,
{
    if s.len() > 0 {
        lemma_list_bounds(s.drop_last());
        assert(forall|i: int| 0 <= i < s.len() - 1 ==> s.drop_last()[i] == #[trigger] s[i]);
        assert(s[s.len() - 1] == s.last());
    }
}

/// Member lengths are bounded by the longest member.
pub proof fn lemma_strlen_bounds(s: Seq<Seq<char>>)
    ensures
        forall|i: int| 0 <= i < s.len() ==> (#[trigger] s[i]).len() <= spec_max_strlen(s),
        spec_max_strlen(s) >= 0,
    decreases s,
{
    if s.len() > 0 {
        lemma_strlen_bounds(s.drop_last());
        assert(forall|i: int| 0 <= i < s.len() - 1 ==> s.drop_last()[i] == #[trigger] s[i]);
        assert(s[s.len() - 1] == s.last());
    }
}

/// The dimensions of a constructible node: at least one row, the rail
/// strictly inside, and no negative width.
pub proof fn lemma_dims(n: NodeView)
    requires
        spec_wf(n),
    ensures
        spec_height(n) >= 1,
        0 <= spec_entry(n) < spec_height(n),
        spec_width(n) >= 0,
    decreases n, 1int,
{
    match n {
        NodeView::Sequence(cs) => {
            lemma_dims_list(cs);
        },
        NodeView::Repetition(inner, _) => {
            lemma_dims(*inner);
        },
        NodeView::Optional(inner) => {
            lemma_dims(*inner);
        },
        NodeView::Choice(bs) => {
            lemma_dims_list(bs);
            assert(spec_total_height(bs) >= 1);
        },
        NodeView::Capture(inner, _) => {
            lemma_dims(*inner);
        },
        NodeView::Stack(_, cs) => {
            lemma_strlen_bounds(cs);
        },
        _ => {},
    }
}

/// The list measures of constructible nodes: heights sum to at least the
/// node count, and the maxima are consistent.
pub proof fn lemma_dims_list(s: Seq<NodeView>)
    requires
        spec_wf_list(s),
    ensures
        spec_total_height(s) >= s.len(),
        spec_total_width(s) >= 0,
        spec_max_width(s) >= 0,
        spec_max_height(s) >= 0,
        spec_max_entry(s) >= 0,
        spec_seq_bot(s) >= 1,
        spec_max_entry(s) + spec_seq_bot(s) >= 1,
        spec_max_height(s) <= spec_max_entry(s) + spec_seq_bot(s),
        forall|i: int| 0 <= i < s.len() ==> spec_wf(#[trigger] s[i]),
    decreases s, 0int,
{
    if s.len() > 0 {
        lemma_dims_list(s.drop_last());
        lemma_dims(s.last());
        assert(forall|i: int| 0 <= i < s.len() - 1 ==> s.drop_last()[i] == #[trigger] s[i]);
        assert(s[s.len() - 1] == s.last());
    }
}

} // verus!

verus! {

/// The largest entry height among the nodes of `v`.
#[verifier::loop_isolation(false)]
pub fn list_max_entry(v: &Vec<Node>) -> (r: usize)
    requires
        spec_wf_list(node_views(v@)),
        spec_dims_ok_list(node_views(v@)),
    ensures
        r as int == spec_max_entry(node_views(v@)),
    decreases *v,
{
    let ghost views = node_views(v@);
    proof {
        lemma_node_views_index(v@);
        lemma_list_index(views);
        lemma_dims_list(views);
    }
    let mut r: usize = 0;
    let mut i: usize = 0;
    while i < v.len()
        invariant
            views == node_views(v@),
            spec_wf_list(views),
            spec_dims_ok_list(views),
            i <= v@.len(),
            r as int == spec_max_entry(views.take(i as int)),
        decreases v@.len() - i,
    {
        proof {
            lemma_dims(views[i as int]);
        }
        let e = node_entry(&v[i]);
        if e > r {
            r = e;
        }
        proof {
            assert(views.take((i + 1) as int).drop_last() =~= views.take(i as int));
            assert(views.take((i + 1) as int).last() == views[i as int]);
        }
        i = i + 1;
    }
    proof {
        assert(views.take(views.len() as int) =~= views);
    }
    r
}

/// The largest height among the nodes of `v`.
#[verifier::loop_isolation(false)]
pub fn list_max_height(v: &Vec<Node>) -> (r: usize)
    requires
        spec_wf_list(node_views(v@)),
        spec_dims_ok_list(node_views(v@)),
    ensures
        r as int == spec_max_height(node_views(v@)),
    decreases *v,
{
    let ghost views = node_views(v@);
    proof {
        lemma_node_views_index(v@);
        lemma_list_index(views);
        lemma_dims_list(views);
    }
    let mut r: usize = 0;
    let mut i: usize = 0;
    while i < v.len()
        invariant
            views == node_views(v@),
            spec_wf_list(views),
            spec_dims_ok_list(views),
            i <= v@.len(),
            r as int == spec_max_height(views.take(i as int)),
        decreases v@.len() - i,
    {
        proof {
            assert(spec_wf(views[i as int]) && spec_dims_ok(views[i as int]));
        }
        let e = node_height(&v[i]);
        if e > r {
            r = e;
        }
        proof {
            assert(views.take((i + 1) as int).drop_last() =~= views.take(i as int));
            assert(views.take((i + 1) as int).last() == views[i as int]);
        }
        i = i + 1;
    }
    proof {
        assert(views.take(views.len() as int) =~= views);
    }
    r
}

/// The largest width among the nodes of `v`.
#[verifier::loop_isolation(false)]
pub fn list_max_width(v: &Vec<Node>) -> (r: usize)
    requires
        spec_wf_list(node_views(v@)),
        spec_dims_ok_list(node_views(v@)),
    ensures
        r as int == spec_max_width(node_views(v@)),
    decreases *v,
{
    let ghost views = node_views(v@);
    proof {
        lemma_node_views_index(v@);
        lemma_list_index(views);
        lemma_dims_list(views);
    }
    let mut r: usize = 0;
    let mut i: usize = 0;
    while i < v.len()
        invariant
            views == node_views(v@),
            spec_wf_list(views),
            spec_dims_ok_list(views),
            i <= v@.len(),
            r as int == spec_max_width(views.take(i as int)),
        decreases v@.len() - i,
    {
        proof {
            assert(spec_wf(views[i as int]) && spec_dims_ok(views[i as int]));
        }
        let e = node_width(&v[i]);
        if e > r {
            r = e;
        }
        proof {
            assert(views.take((i + 1) as int).drop_last() =~= views.take(i as int));
            assert(views.take((i + 1) as int).last() == views[i as int]);
        }
        i = i + 1;
    }
    proof {
        assert(views.take(views.len() as int) =~= views);
    }
    r
}

/// The sum of the heights of the nodes of `v`.
#[verifier::loop_isolation(false)]
pub fn list_total_height(v: &Vec<Node>) -> (r: usize)
    requires
        spec_wf_list(node_views(v@)),
        spec_dims_ok_list(node_views(v@)),
        spec_total_height(node_views(v@)) <= usize::MAX,
    ensures
        r as int == spec_total_height(node_views(v@)),
    decreases *v,
{
    let ghost views = node_views(v@);
    proof {
        lemma_node_views_index(v@);
        lemma_list_index(views);
        lemma_dims_list(views);
    }
    let mut r: usize = 0;
    let mut i: usize = 0;
    while i < v.len()
        invariant
            views == node_views(v@),
            spec_wf_list(views),
            spec_dims_ok_list(views),
            spec_total_height(views) <= usize::MAX,
            i <= v@.len(),
            r as int == spec_total_height(views.take(i as int)),
        decreases v@.len() - i,
    {
        proof {
            lemma_take_total_height(views, i as int);
            lemma_take_total_height(views, i as int + 1);
            lemma_skip_total_height(views, i as int);
            assert(views.take((i + 1) as int).drop_last() =~= views.take(i as int));
            assert(views.take((i + 1) as int).last() == views[i as int]);
        }
        proof {
            assert(spec_wf(views[i as int]) && spec_dims_ok(views[i as int]));
        }
        let e = node_height(&v[i]);
        r = r + e;
        i = i + 1;
    }
    proof {
        assert(views.take(views.len() as int) =~= views);
    }
    r
}

/// The sum of the widths of the nodes of `v`.
#[verifier::loop_isolation(false)]
pub fn list_total_width(v: &Vec<Node>) -> (r: usize)
    requires
        spec_wf_list(node_views(v@)),
        spec_dims_ok_list(node_views(v@)),
        spec_total_width(node_views(v@)) <= usize::MAX,
    ensures
        r as int == spec_total_width(node_views(v@)),
    decreases *v,
{
    let ghost views = node_views(v@);
    proof {
        lemma_node_views_index(v@);
        lemma_list_index(views);
        lemma_dims_list(views);
    }
    let mut r: usize = 0;
    let mut i: usize = 0;
    while i < v.len()
        invariant
            views == node_views(v@),
            spec_wf_list(views),
            spec_dims_ok_list(views),
            spec_total_width(views) <= usize::MAX,
            i <= v@.len(),
            r as int == spec_total_width(views.take(i as int)),
        decreases v@.len() - i,
    {
        proof {
            lemma_take_total_width(views, i as int);
            lemma_take_total_width(views, i as int + 1);
            lemma_skip_total_width(views, i as int);
            assert(views.take((i + 1) as int).drop_last() =~= views.take(i as int));
            assert(views.take((i + 1) as int).last() == views[i as int]);
        }
        proof {
            assert(spec_wf(views[i as int]) && spec_dims_ok(views[i as int]));
        }
        let e = node_width(&v[i]);
        r = r + e;
        i = i + 1;
    }
    proof {
        assert(views.take(views.len() as int) =~= views);
    }
    r
}

/// The largest number of rows below and including the rail among the
/// nodes of `v`, at least 1.
#[verifier::loop_isolation(false)]
pub fn list_seq_bot(v: &Vec<Node>) -> (r: usize)
    requires
        spec_wf_list(node_views(v@)),
        spec_dims_ok_list(node_views(v@)),
    ensures
        r as int == spec_seq_bot(node_views(v@)),
    decreases *v,
{
    let ghost views = node_views(v@);
    proof {
        lemma_node_views_index(v@);
        lemma_list_index(views);
        lemma_dims_list(views);
    }
    let mut r: usize = 1;
    let mut i: usize = 0;
    while i < v.len()
        invariant
            views == node_views(v@),
            spec_wf_list(views),
            spec_dims_ok_list(views),
            i <= v@.len(),
            r as int == spec_seq_bot(views.take(i as int)),
        decreases v@.len() - i,
    {
        proof {
            lemma_dims(views[i as int]);
        }
        let h = node_height(&v[i]);
        let e = node_entry(&v[i]);
        let b = h - e;
        if b > r {
            r = b;
        }
        proof {
            assert(views.take((i + 1) as int).drop_last() =~= views.take(i as int));
            assert(views.take((i + 1) as int).last() == views[i as int]);
        }
        i = i + 1;
    }
    proof {
        assert(views.take(views.len() as int) =~= views);
    }
    r
}

/// Prefix sums never exceed the whole sum of heights.
pub proof fn lemma_take_total_height(s: Seq<NodeView>, i: int)
    requires
        spec_wf_list(s),
        0 <= i <= s.len(),
    ensures
        spec_total_height(s.take(i)) + spec_total_height(s.skip(i)) == spec_total_height(s),
        spec_total_height(s.take(i)) >= 0,
        spec_total_height(s.skip(i)) >= 0,
    decreases s.len() - i,
{
    lemma_wf_list_take(s, i);
    lemma_wf_list_skip(s, i);
    lemma_dims_list(s.take(i));
    lemma_dims_list(s.skip(i));
    if i < s.len() {
        lemma_take_total_height(s, i + 1);
        assert(s.take(i + 1).drop_last() =~= s.take(i));
        assert(s.take(i + 1).last() == s[i]);
        lemma_skip_total_height(s, i);
    } else {
        assert(s.take(i) =~= s);
        assert(s.skip(i) =~= Seq::<NodeView>::empty());
    }
}

/// Splitting off the head of a suffix splits its height sum.
proof fn lemma_skip_total_height(s: Seq<NodeView>, i: int)
    requires
        0 <= i < s.len(),
    ensures
        spec_total_height(s.skip(i)) == spec_height(s[i]) + spec_total_height(s.skip(i + 1)),
    decreases s.len() - i,
{
    if i == s.len() - 1 {
        assert(s.skip(i).drop_last() =~= s.skip(i + 1));
        assert(s.skip(i + 1) =~= Seq::<NodeView>::empty());
        assert(s.skip(i).last() == s[i]);
    } else {
        lemma_skip_total_height(s, i + 1);
        assert(s.skip(i).drop_last() =~= s.skip(i + 1).drop_last().insert(0, s[i]));
        lemma_total_height_insert_front(s.skip(i + 1), s[i]);
        assert(s.skip(i) =~= s.skip(i + 1).insert(0, s[i]));
    }
}

/// Prepending one node adds its height to the sum.
proof fn lemma_total_height_insert_front(s: Seq<NodeView>, n: NodeView)
    ensures
        spec_total_height(s.insert(0, n)) == spec_height(n) + spec_total_height(s),
    decreases s,
{
    let t = s.insert(0, n);
    assert(t.len() == s.len() + 1);
    if s.len() == 0 {
        assert(t.drop_last() =~= Seq::<NodeView>::empty());
        assert(t.last() == n);
        assert(spec_total_height(t) == spec_total_height(t.drop_last()) + spec_height(t.last()));
        assert(spec_total_height(Seq::<NodeView>::empty()) == 0);
    } else {
        lemma_total_height_insert_front(s.drop_last(), n);
        assert(t.drop_last() =~= s.drop_last().insert(0, n));
        assert(t.last() == s.last());
        assert(spec_total_height(t) == spec_total_height(t.drop_last()) + spec_height(t.last()));
        assert(spec_total_height(s) == spec_total_height(s.drop_last()) + spec_height(s.last()));
    }
}

/// Prefix sums never exceed the whole sum of widths.
pub proof fn lemma_take_total_width(s: Seq<NodeView>, i: int)
    requires
        spec_wf_list(s),
        0 <= i <= s.len(),
    ensures
        spec_total_width(s.take(i)) + spec_total_width(s.skip(i)) == spec_total_width(s),
        spec_total_width(s.take(i)) >= 0,
        spec_total_width(s.skip(i)) >= 0,
    decreases s.len() - i,
{
    lemma_wf_list_take(s, i);
    lemma_wf_list_skip(s, i);
    lemma_dims_list(s.take(i));
    lemma_dims_list(s.skip(i));
    if i < s.len() {
        lemma_take_total_width(s, i + 1);
        assert(s.take(i + 1).drop_last() =~= s.take(i));
        assert(s.take(i + 1).last() == s[i]);
        lemma_skip_total_width(s, i);
    } else {
        assert(s.take(i) =~= s);
        assert(s.skip(i) =~= Seq::<NodeView>::empty());
    }
}

/// Splitting off the head of a suffix splits its width sum.
proof fn lemma_skip_total_width(s: Seq<NodeView>, i: int)
    requires
        0 <= i < s.len(),
    ensures
        spec_total_width(s.skip(i)) == spec_width(s[i]) + spec_total_width(s.skip(i + 1)),
    decreases s.len() - i,
{
    if i == s.len() - 1 {
        assert(s.skip(i).drop_last() =~= s.skip(i + 1));
        assert(s.skip(i + 1) =~= Seq::<NodeView>::empty());
        assert(s.skip(i).last() == s[i]);
    } else {
        lemma_skip_total_width(s, i + 1);
        lemma_total_width_insert_front(s.skip(i + 1), s[i]);
        assert(s.skip(i) =~= s.skip(i + 1).insert(0, s[i]));
    }
}

/// Prepending one node adds its width to the sum.
proof fn lemma_total_width_insert_front(s: Seq<NodeView>, n: NodeView)
    ensures
        spec_total_width(s.insert(0, n)) == spec_width(n) + spec_total_width(s),
    decreases s,
{
    let t = s.insert(0, n);
    assert(t.len() == s.len() + 1);
    if s.len() == 0 {
        assert(t.drop_last() =~= Seq::<NodeView>::empty());
        assert(t.last() == n);
        assert(spec_total_width(t) == spec_total_width(t.drop_last()) + spec_width(t.last()));
        assert(spec_total_width(Seq::<NodeView>::empty()) == 0);
    } else {
        lemma_total_width_insert_front(s.drop_last(), n);
        assert(t.drop_last() =~= s.drop_last().insert(0, n));
        assert(t.last() == s.last());
        assert(spec_total_width(t) == spec_total_width(t.drop_last()) + spec_width(t.last()));
        assert(spec_total_width(s) == spec_total_width(s.drop_last()) + spec_width(s.last()));
    }
}

/// A prefix of constructible nodes is constructible.
pub proof fn lemma_wf_list_take(s: Seq<NodeView>, i: int)
    requires
        spec_wf_list(s),
        0 <= i <= s.len(),
    ensures
        spec_wf_list(s.take(i)),
    decreases s.len() - i,
{
    if i < s.len() {
        lemma_wf_list_take(s, i + 1);
        assert(s.take(i + 1).drop_last() =~= s.take(i));
    } else {
        assert(s.take(i) =~= s);
    }
}

/// A suffix of constructible nodes is constructible.
pub proof fn lemma_wf_list_skip(s: Seq<NodeView>, i: int)
    requires
        spec_wf_list(s),
        0 <= i <= s.len(),
    ensures
        spec_wf_list(s.skip(i)),
    decreases s,
{
    if s.len() > 0 && i < s.len() {
        lemma_wf_list_skip(s.drop_last(), i);
        assert(s.skip(i).drop_last() =~= s.drop_last().skip(i));
        assert(s.skip(i).last() == s.last());
    } else {
        assert(s.skip(i) =~= Seq::<NodeView>::empty());
    }
}

} // verus!

verus! {

/// The entry row of a node.
pub fn node_entry(n: &Node) -> (r: usize)
    requires
        spec_wf(n@),
        spec_dims_ok(n@),
    ensures
        r as int == spec_entry(n@),
    decreases *n,
{
    proof {
        lemma_dims(n@);
    }
    match n {
        Node::Sequence(q) => list_max_entry(&q.children),
        Node::Start(_) => 0,
        Node::End(_) => 0,
        Node::Terminal(_) => 1,
        Node::Anchor(_) => 1,
        Node::Repetition(r) => node_entry(&r.inner),
        Node::Optional(o) => {
            proof {
                lemma_dims(node_view(o.inner));
            }
            node_entry(&o.inner) + 1
        },
        Node::Choice(c) => {
            proof {
                lemma_dims_list(node_views(c.inner@));
            }
            let th = list_total_height(&c.inner);
            (th - 1) / 2
        },
        Node::Stack(st) => (st.characters.len() + 3) / 2,
        Node::Capture(cp) => {
            proof {
                lemma_dims(node_view(cp.inner));
            }
            node_entry(&cp.inner) + 1
        },
    }
}

/// The exact number of rows a node draws.
pub fn node_height(n: &Node) -> (r: usize)
    requires
        spec_wf(n@),
        spec_dims_ok(n@),
    ensures
        r as int == spec_height(n@),
    decreases *n,
{
    proof {
        lemma_dims(n@);
    }
    match n {
        Node::Sequence(q) => {
            proof {
                lemma_dims_list(node_views(q.children@));
            }
            let t = list_max_entry(&q.children);
            let b = list_seq_bot(&q.children);
            t + b
        },
        Node::Start(_) => 1,
        Node::End(_) => 1,
        Node::Terminal(_) => 3,
        Node::Anchor(_) => 3,
        Node::Repetition(r) => node_height(&r.inner) + 1,
        Node::Optional(o) => node_height(&o.inner) + 1,
        Node::Choice(c) => list_total_height(&c.inner),
        Node::Stack(st) => st.characters.len() + 3,
        Node::Capture(cp) => node_height(&cp.inner) + 2,
    }
}

/// The exact number of columns a node draws.
pub fn node_width(n: &Node) -> (r: usize)
    requires
        spec_wf(n@),
        spec_dims_ok(n@),
    ensures
        r as int == spec_width(n@),
    decreases *n,
{
    proof {
        lemma_dims(n@);
    }
    match n {
        Node::Sequence(q) => {
            if q.children.len() == 0 {
                0
            } else {
                proof {
                    lemma_dims_list(node_views(q.children@));
                    lemma_node_views_index(q.children@);
                }
                let tw = list_total_width(&q.children);
                tw + 2 * (q.children.len() - 1)
            }
        },
        Node::Start(_) => 6,
        Node::End(_) => 4,
        Node::Terminal(t) => {
            let l = t.text.as_str().unicode_len();
            l + 4
        },
        Node::Anchor(a) => {
            let l = a.text.as_str().unicode_len();
            l + 2
        },
        Node::Repetition(r) => node_width(&r.inner) + 4,
        Node::Optional(o) => node_width(&o.inner) + 4,
        Node::Choice(c) => list_max_width(&c.inner) + 2,
        Node::Stack(st) => {
            proof {
                lemma_strlen_bounds(strs_view(st.characters@));
            }
            let m = list_max_strlen(&st.characters);
            if m + 2 >= 9 {
                m + 2
            } else {
                9
            }
        },
        Node::Capture(cp) => node_width(&cp.inner) + 4,
    }
}

/// The length in characters of the longest string of `v`.
#[verifier::loop_isolation(false)]
pub fn list_max_strlen(v: &Vec<String>) -> (r: usize)
    requires
        spec_max_strlen(strs_view(v@)) + 2 <= usize::MAX,
    ensures
        r as int == spec_max_strlen(strs_view(v@)),
{
    let ghost views = strs_view(v@);
    let mut r: usize = 0;
    let mut i: usize = 0;
    while i < v.len()
        invariant
            views == strs_view(v@),
            i <= v@.len(),
            r as int == spec_max_strlen(views.take(i as int)),
        decreases v@.len() - i,
    {
        let l = v[i].as_str().unicode_len();
        if l > r {
            r = l;
        }
        proof {
            assert(views.take((i + 1) as int).drop_last() =~= views.take(i as int));
            assert(views.take((i + 1) as int).last() == views[i as int]);
        }
        i = i + 1;
    }
    proof {
        assert(views.take(views.len() as int) =~= views);
    }
    r
}

} // verus!

verus! {

/// `n` spaces.
pub open spec fn blank(n: int) -> Seq<char> {
    spec_repeat(' ', n as nat)
}

/// `n` horizontal line characters.
pub open spec fn horiz(n: int) -> Seq<char> {
    spec_repeat(sym::L_HORZ, n as nat)
}

/// `n` bold horizontal line characters.
pub open spec fn horiz_b(n: int) -> Seq<char> {
    spec_repeat(sym::L_HORZ_B, n as nat)
}

/// `n` dashed horizontal line characters.
pub open spec fn horiz_d(n: int) -> Seq<char> {
    spec_repeat(sym::L_HORZ_D, n as nat)
}

/// The single row of the start cap.
pub open spec fn spec_start_row() -> Seq<char> {
    seq!['S', 'T', 'A', 'R', 'T', sym::START]
}

/// The single row of the end cap.
pub open spec fn spec_end_row() -> Seq<char> {
    seq![sym::END, 'E', 'N', 'D']
}

/// The three rows of a terminal box around `text`.
pub open spec fn spec_boxed_rows(text: Seq<char>) -> Seq<Seq<char>> {
    seq![
        seq![sym::C_TL_SQR] + horiz(text.len() as int + 2) + seq![sym::C_TR_SQR],
        seq![sym::J_LEFT, ' '] + text + seq![' ', sym::J_RIGHT],
        seq![sym::C_BL_SQR] + horiz(text.len() as int + 2) + seq![sym::C_BR_SQR],
    ]
}

/// The three rows of an anchor box around `text`, in bold glyphs.
pub open spec fn spec_anchor_rows(text: Seq<char>) -> Seq<Seq<char>> {
    seq![
        seq![sym::C_TL_SQR_B] + horiz_b(text.len() as int) + seq![sym::C_TR_SQR_B],
        seq![sym::J_LEFT_B] + text + seq![sym::J_RIGHT_B],
        seq![sym::C_BL_SQR_B] + horiz_b(text.len() as int) + seq![sym::C_BR_SQR_B],
    ]
}

/// The rows of a stack box: a label, the top border, one centered member
/// per row with a tee at the entry row, and the bottom border.
pub open spec fn spec_stack_rows(invert: bool, cs: Seq<Seq<char>>) -> Seq<Seq<char>> {
    let w = imax(spec_max_strlen(cs) + 2, 9);
    let eh = (cs.len() as int + 3) / 2;
    let label = if invert {
        seq!['N', 'o', 'n', 'e', ' ', 'o', 'f', ':'] + blank(w - 8)
    } else {
        seq!['O', 'n', 'e', ' ', 'o', 'f', ':'] + blank(w - 7)
    };
    let top = seq![sym::C_TL_SQR] + horiz(w - 2) + seq![sym::C_TR_SQR];
    let bottom = seq![sym::C_BL_SQR] + horiz(w - 2) + seq![sym::C_BR_SQR];
    let members = Seq::new(
        cs.len(),
        |k: int|
            {
                let sub = cs[k];
                let pad = imax(w - 2 - sub.len(), 0);
                let lp = pad / 2;
                let rp = pad - pad / 2;
                let lch = if 2 + k == eh {
                    sym::J_LEFT
                } else {
                    sym::L_VERT
                };
                let rch = if 2 + k == eh {
                    sym::J_RIGHT
                } else {
                    sym::L_VERT
                };
                seq![lch] + blank(lp) + sub + blank(rp) + seq![rch]
            },
    );
    seq![label, top] + members + seq![bottom]
}

/// The rows of a repetition: the inner rows framed by the return loop,
/// and the bottom bar carrying the count description.
pub open spec fn spec_rep_rows(inner: Seq<Seq<char>>, eh: int, desc: Seq<char>) -> Seq<
    Seq<char>,
> {
    let framed = Seq::new(
        inner.len(),
        |i: int|
            if i == eh {
                seq![sym::J_DOWN, sym::L_HORZ] + inner[i] + seq![sym::L_HORZ, sym::J_DOWN]
            } else if i > eh {
                seq![sym::L_VERT, ' '] + inner[i] + seq![' ', sym::L_VERT]
            } else {
                seq![' ', ' '] + inner[i] + seq![' ', ' ']
            },
    );
    let row0len = if inner.len() > 0 {
        framed[0].len() as int
    } else {
        0
    };
    let pad = imax(row0len - desc.len() - 2, 0);
    let bottom = seq![sym::C_BL_RND] + desc + horiz(pad) + seq![sym::C_BR_RND];
    framed.push(bottom)
}

/// The rows of an optional node: the inner rows framed by the bypass
/// loop, under its top bar.
pub open spec fn spec_opt_rows(inner: Seq<Seq<char>>, eh: int) -> Seq<Seq<char>> {
    let framed = Seq::new(
        inner.len(),
        |i: int|
            if i == eh {
                seq![sym::J_UP, sym::L_HORZ] + inner[i] + seq![sym::L_HORZ, sym::J_UP]
            } else if i < eh {
                seq![sym::L_VERT, ' '] + inner[i] + seq![' ', sym::L_VERT]
            } else {
                seq![' ', ' '] + inner[i] + seq![' ', ' ']
            },
    );
    let row0len = if inner.len() > 0 {
        framed[0].len() as int
    } else {
        2
    };
    let top = seq![sym::C_TL_RND] + horiz(row0len - 2) + seq![sym::C_TR_RND];
    seq![top] + framed
}

/// The rows of a capture: the inner rows framed by the dashed border,
/// between the named top edge and the bottom edge.
pub open spec fn spec_cap_rows(inner: Seq<Seq<char>>, eh: int, name: Seq<char>) -> Seq<
    Seq<char>,
> {
    let framed = Seq::new(
        inner.len(),
        |i: int|
            if i == eh {
                seq![sym::CROSS, sym::L_HORZ] + inner[i] + seq![sym::L_HORZ, sym::CROSS]
            } else {
                seq![sym::L_VERT_D, ' '] + inner[i] + seq![' ', sym::L_VERT_D]
            },
    );
    let len_full = (if inner.len() > 0 {
        framed[0].len() as int
    } else {
        2
    }) - 2;
    let lp = imax(len_full - name.len(), 0) / 2;
    let rp = imax(len_full - name.len() - lp, 0);
    let top = seq![sym::C_TL_RND] + horiz_d(lp) + name + horiz_d(rp) + seq![sym::C_TR_RND];
    let bottom = seq![sym::C_BL_RND] + horiz_d(len_full) + seq![sym::C_BR_RND];
    seq![top] + framed + seq![bottom]
}

/// One branch of a choice, horizontally centered to the choice's width
/// and framed: round corners at the first and last branch's entry rows, a
/// cross where the through-line meets an entry row, tees at other entry
/// rows and at the through-line row, vertical rails strictly between the
/// first and last entry rows, and plain padding outside them.
pub open spec fn spec_choice_frame(
    rows: Seq<Seq<char>>,
    eh: int,
    off: int,
    idx: int,
    m: int,
    mid: int,
    w: int,
) -> Seq<Seq<char>> {
    Seq::new(
        rows.len(),
        |nn: int|
            {
                let line = rows[nn];
                let sub_len = if rows.len() > 0 {
                    rows[0].len() as int
                } else {
                    0
                };
                let pad = imax(w - sub_len, 0);
                let lp = pad / 2;
                let rp = pad - pad / 2;
                if nn == eh {
                    let ls = if idx == 0 {
                        sym::C_TL_RND
                    } else if off + nn == mid {
                        sym::CROSS
                    } else if idx == m - 1 {
                        sym::C_BL_RND
                    } else {
                        sym::J_RIGHT
                    };
                    let rs = if idx == 0 {
                        sym::C_TR_RND
                    } else if off + nn == mid {
                        sym::CROSS
                    } else if idx == m - 1 {
                        sym::C_BR_RND
                    } else {
                        sym::J_LEFT
                    };
                    seq![ls] + horiz(lp) + line + horiz(rp) + seq![rs]
                } else if off + nn == mid {
                    seq![sym::J_LEFT] + blank(lp) + line + blank(rp) + seq![sym::J_RIGHT]
                } else if (nn < eh && idx == 0) || (nn > eh && idx == m - 1) {
                    seq![' '] + blank(lp) + line + blank(rp) + seq![' ']
                } else {
                    seq![sym::L_VERT] + blank(lp) + line + blank(rp) + seq![sym::L_VERT]
                }
            },
    )
}

/// The first `k` branches of a choice, stacked.
pub open spec fn spec_choice_fold(bs: Seq<NodeView>, k: int, mid: int, w: int, m: int) -> Seq<
    Seq<char>,
>
    decreases bs, k,
{
    if k <= 0 || k > bs.len() {
        Seq::empty()
    } else {
        let prev = spec_choice_fold(bs, k - 1, mid, w, m);
        prev + spec_choice_frame(
            spec_draw(bs[k - 1]),
            spec_entry(bs[k - 1]),
            prev.len() as int,
            k - 1,
            m,
            mid,
            w,
        )
    }
}

/// `rows` with `k` blank rows of width `w` put on top.
pub open spec fn pad_top(rows: Seq<Seq<char>>, k: int, w: int) -> Seq<Seq<char>> {
    Seq::new(
        (rows.len() + k) as nat,
        |i: int|
            if i < k {
                blank(w)
            } else {
                rows[i - k]
            },
    )
}

/// `rows` padded at the bottom with blank rows of width `w` up to `h`
/// rows.
pub open spec fn pad_bottom(rows: Seq<Seq<char>>, h: int, w: int) -> Seq<Seq<char>> {
    Seq::new(
        h as nat,
        |i: int|
            if i < rows.len() {
                rows[i]
            } else {
                blank(w)
            },
    )
}

/// The width of the first row, or 0 when there is none.
pub open spec fn row0_width(rows: Seq<Seq<char>>) -> int {
    if rows.len() > 0 {
        rows[0].len() as int
    } else {
        0
    }
}

/// One step of horizontal composition: aligns the accumulated rows and
/// the next node's rows vertically so the exit rail meets the node's
/// entry rail, makes the row counts equal, then joins row by row with a
/// two-column connector at the rail (none before the first node).
pub open spec fn spec_seq_step(
    rows: Seq<Seq<char>>,
    exit: int,
    nrows: Seq<Seq<char>>,
    neh: int,
    first: bool,
) -> (Seq<Seq<char>>, int) {
    let dw = row0_width(rows);
    let nw = row0_width(nrows);
    let exit2 = imax(exit, neh);
    let rows1 = if neh > exit {
        pad_top(rows, neh - exit, dw)
    } else {
        rows
    };
    let nrows1 = if neh < exit {
        pad_top(nrows, exit - neh, nw)
    } else {
        nrows
    };
    let h = imax(rows1.len() as int, nrows1.len() as int);
    let rows2 = pad_bottom(rows1, h, dw);
    let nrows2 = pad_bottom(nrows1, h, nw);
    (
        Seq::new(
            h as nat,
            |i: int|
                rows2[i] + (if first {
                    Seq::<char>::empty()
                } else if i == exit2 {
                    horiz(2)
                } else {
                    blank(2)
                }) + nrows2[i],
        ),
        exit2,
    )
}

/// The first `k` children of a sequence composed horizontally, starting
/// from one empty row with the exit rail at row 0.
pub open spec fn spec_seq_fold(cs: Seq<NodeView>, k: int) -> (Seq<Seq<char>>, int)
    decreases cs, k,
{
    if k <= 0 || k > cs.len() {
        (seq![Seq::<char>::empty()], 0)
    } else {
        let prev = spec_seq_fold(cs, k - 1);
        spec_seq_step(prev.0, prev.1, spec_draw(cs[k - 1]), spec_entry(cs[k - 1]), k - 1 == 0)
    }
}

/// The exact rows a node draws.
pub open spec fn spec_draw(n: NodeView) -> Seq<Seq<char>>
    decreases n, 0int,
{
    match n {
        NodeView::Sequence(cs) => spec_seq_fold(cs, cs.len() as int).0,
        NodeView::Start => seq![spec_start_row()],
        NodeView::End => seq![spec_end_row()],
        NodeView::Terminal(t) => spec_boxed_rows(t),
        NodeView::Anchor(t) => spec_anchor_rows(t),
        NodeView::Repetition(inner, rt) => spec_rep_rows(
            spec_draw(*inner),
            spec_entry(*inner),
            spec_desc(rt),
        ),
        NodeView::Optional(inner) => spec_opt_rows(spec_draw(*inner), spec_entry(*inner)),
        NodeView::Choice(bs) => spec_choice_fold(
            bs,
            bs.len() as int,
            (spec_total_height(bs) - 1) / 2,
            spec_max_width(bs),
            bs.len() as int,
        ),
        NodeView::Stack(inv, cs) => spec_stack_rows(inv, cs),
        NodeView::Capture(inner, name) => spec_cap_rows(
            spec_draw(*inner),
            spec_entry(*inner),
            name,
        ),
    }
}

/// How a vector of drawn rows matches its model.
pub open spec fn rows_match(r: Seq<String>, s: Seq<Seq<char>>) -> bool {
    r.len() == s.len() && forall|i: int| 0 <= i < s.len() ==> r[i]@ == s[i]
}

} // verus!

verus! {

impl Sequence {
    /// A sequence of the given children.
    #[must_use]
    pub fn new(children: Vec<Node>) -> (r: Self)
        ensures
            r.children == children,
    {
        Self { children }
    }

    /// Appends one child at the right edge.
    pub fn push(&mut self, child: Node)
        ensures
            final(self).children@ == old(self).children@.push(child),
    {
        self.children.push(child);
    }

    /// The children, in order.
    #[must_use]
    pub fn into_inner(self) -> (r: Vec<Node>)
        ensures
            r == self.children,
    {
        self.children
    }
}

impl Start {
    /// The start cap.
    #[must_use]
    pub fn new() -> Self {
        Start {  }
    }
}

impl End {
    /// The end cap.
    #[must_use]
    pub fn new() -> Self {
        End {  }
    }
}

impl Terminal {
    /// A terminal box around `text`.
    #[must_use]
    pub fn new(text: String) -> (r: Self)
        ensures
            r.text == text,
    {
        Terminal { text }
    }
}

impl Anchor {
    /// An anchor box around `text`.
    #[must_use]
    pub fn new(text: String) -> (r: Self)
        ensures
            r.text == text,
    {
        Anchor { text }
    }
}

impl Repetition {
    /// A repetition of `inner`, described by `repetition`.
    pub fn new(inner: Node, repetition: RepetitionType) -> (r: Self)
        ensures
            r.inner == inner,
            r.repetition == repetition,
    {
        Self { inner, repetition }
    }

    /// The repeated node.
    pub fn into_inner(self) -> (r: Node)
        ensures
            r == self.inner,
    {
        self.inner
    }
}

impl Optional {
    /// An optional occurrence of `inner`.
    pub fn new(inner: Node) -> (r: Self)
        ensures
            r.inner == inner,
    {
        Optional { inner }
    }
}

impl Choice {
    /// A choice between the given branches.
    pub fn new(inner: Vec<Node>) -> (r: Self)
        ensures
            r.inner == inner,
    {
        Choice { inner }
    }
}

impl Stack {
    /// A class box listing `characters`, negated when `invert` holds.
    pub fn new(invert: bool, characters: Vec<String>) -> (r: Self)
        ensures
            r.invert == invert,
            r.characters == characters,
    {
        Stack { invert, characters }
    }
}

impl Capture {
    /// A capture box around `inner`, labelled `name`.
    pub fn new(inner: Node, name: String) -> (r: Self)
        ensures
            r.inner == inner,
            r.name == name,
    {
        Self { inner, name }
    }
}

/// The rows of the start cap.
pub fn draw_start() -> (r: Vec<String>)
    ensures
        rows_match(r@, spec_draw(NodeView::Start)),
{
    let mut row = String::new();
    push_char(&mut row, 'S');
    push_char(&mut row, 'T');
    push_char(&mut row, 'A');
    push_char(&mut row, 'R');
    push_char(&mut row, 'T');
    push_char(&mut row, sym::START);
    proof {
        assert(row@ =~= spec_start_row());
    }
    let mut v: Vec<String> = Vec::new();
    v.push(row);
    v
}

/// The rows of the end cap.
pub fn draw_end() -> (r: Vec<String>)
    ensures
        rows_match(r@, spec_draw(NodeView::End)),
{
    let mut row = String::new();
    push_char(&mut row, sym::END);
    push_char(&mut row, 'E');
    push_char(&mut row, 'N');
    push_char(&mut row, 'D');
    proof {
        assert(row@ =~= spec_end_row());
    }
    let mut v: Vec<String> = Vec::new();
    v.push(row);
    v
}

/// The rows of a terminal box.
pub fn draw_terminal(t: &Terminal) -> (r: Vec<String>)
    requires
        t.text@.len() + 4 <= usize::MAX,
    ensures
        rows_match(r@, spec_draw(NodeView::Terminal(t.text@))),
{
    let l = t.text.as_str().unicode_len();
    let mut row0 = String::new();
    push_char(&mut row0, sym::C_TL_SQR);
    append_repeat(&mut row0, sym::L_HORZ, l + 2);
    push_char(&mut row0, sym::C_TR_SQR);
    let mut row1 = String::new();
    push_char(&mut row1, sym::J_LEFT);
    push_char(&mut row1, ' ');
    append_str(&mut row1, t.text.as_str());
    push_char(&mut row1, ' ');
    push_char(&mut row1, sym::J_RIGHT);
    let mut row2 = String::new();
    push_char(&mut row2, sym::C_BL_SQR);
    append_repeat(&mut row2, sym::L_HORZ, l + 2);
    push_char(&mut row2, sym::C_BR_SQR);
    proof {
        assert(row0@ =~= spec_boxed_rows(t.text@)[0]);
        assert(row1@ =~= spec_boxed_rows(t.text@)[1]);
        assert(row2@ =~= spec_boxed_rows(t.text@)[2]);
    }
    let mut v: Vec<String> = Vec::new();
    v.push(row0);
    v.push(row1);
    v.push(row2);
    v
}

/// The rows of an anchor box.
pub fn draw_anchor(a: &Anchor) -> (r: Vec<String>)
    requires
        a.text@.len() + 2 <= usize::MAX,
    ensures
        rows_match(r@, spec_draw(NodeView::Anchor(a.text@))),
{
    let l = a.text.as_str().unicode_len();
    let mut row0 = String::new();
    push_char(&mut row0, sym::C_TL_SQR_B);
    append_repeat(&mut row0, sym::L_HORZ_B, l);
    push_char(&mut row0, sym::C_TR_SQR_B);
    let mut row1 = String::new();
    push_char(&mut row1, sym::J_LEFT_B);
    append_str(&mut row1, a.text.as_str());
    push_char(&mut row1, sym::J_RIGHT_B);
    let mut row2 = String::new();
    push_char(&mut row2, sym::C_BL_SQR_B);
    append_repeat(&mut row2, sym::L_HORZ_B, l);
    push_char(&mut row2, sym::C_BR_SQR_B);
    proof {
        assert(row0@ =~= spec_anchor_rows(a.text@)[0]);
        assert(row1@ =~= spec_anchor_rows(a.text@)[1]);
        assert(row2@ =~= spec_anchor_rows(a.text@)[2]);
    }
    let mut v: Vec<String> = Vec::new();
    v.push(row0);
    v.push(row1);
    v.push(row2);
    v
}

/// The count-bar description of a repetition.
pub fn describe_repetition(rt: &RepetitionType) -> (r: String)
    requires
        !(rt is ZeroOrOne),
    ensures
        r@ == spec_desc(*rt),
{
    match rt {
        RepetitionType::OrMore(n) => {
            let mut s = String::new();
            push_char(&mut s, ' ');
            let d = decimal_string(*n);
            append_str(&mut s, d.as_str());
            push_char(&mut s, '+');
            push_char(&mut s, ' ');
            proof {
                assert(s@ =~= spec_desc(*rt));
            }
            s
        },
        RepetitionType::Exactly(n) => {
            let mut s = String::new();
            push_char(&mut s, ' ');
            let d = decimal_string(*n);
            append_str(&mut s, d.as_str());
            push_char(&mut s, ' ');
            proof {
                assert(s@ =~= spec_desc(*rt));
            }
            s
        },
        RepetitionType::Between(n, m) => {
            let mut s = String::new();
            push_char(&mut s, ' ');
            let d = decimal_string(*n);
            append_str(&mut s, d.as_str());
            push_char(&mut s, '-');
            let d2 = decimal_string(*m);
            append_str(&mut s, d2.as_str());
            push_char(&mut s, ' ');
            proof {
                assert(s@ =~= spec_desc(*rt));
            }
            s
        },
        RepetitionType::ZeroOrOne => {
            proof {
                assert(false);
            }
            String::new()
        },
    }
}

/// The rows of a stack box.
#[verifier::loop_isolation(false)]
pub fn draw_stack(st: &Stack) -> (r: Vec<String>)
    requires
        spec_wf(NodeView::Stack(st.invert, strs_view(st.characters@))),
        spec_dims_ok(NodeView::Stack(st.invert, strs_view(st.characters@))),
    ensures
        rows_match(r@, spec_draw(NodeView::Stack(st.invert, strs_view(st.characters@)))),
{
    let ghost cs = strs_view(st.characters@);
    let ghost srows = spec_stack_rows(st.invert, cs);
    proof {
        lemma_strlen_bounds(cs);
    }
    let m = list_max_strlen(&st.characters);
    let w: usize = if m + 2 >= 9 {
        m + 2
    } else {
        9
    };
    let eh: usize = (st.characters.len() + 3) / 2;
    let mut v: Vec<String> = Vec::new();
    let mut label = String::new();
    if st.invert {
        push_char(&mut label, 'N');
        push_char(&mut label, 'o');
        push_char(&mut label, 'n');
        push_char(&mut label, 'e');
        push_char(&mut label, ' ');
        push_char(&mut label, 'o');
        push_char(&mut label, 'f');
        push_char(&mut label, ':');
        append_repeat(&mut label, ' ', w - 8);
    } else {
        push_char(&mut label, 'O');
        push_char(&mut label, 'n');
        push_char(&mut label, 'e');
        push_char(&mut label, ' ');
        push_char(&mut label, 'o');
        push_char(&mut label, 'f');
        push_char(&mut label, ':');
        append_repeat(&mut label, ' ', w - 7);
    }
    proof {
        assert(label@ =~= srows[0]);
    }
    v.push(label);
    let mut top = String::new();
    push_char(&mut top, sym::C_TL_SQR);
    append_repeat(&mut top, sym::L_HORZ, w - 2);
    push_char(&mut top, sym::C_TR_SQR);
    proof {
        assert(top@ =~= srows[1]);
    }
    v.push(top);
    let mut k: usize = 0;
    while k < st.characters.len()
        invariant
            v@.len() == 2 + k,
            k <= st.characters@.len(),
            forall|i: int| 0 <= i < v@.len() ==> v@[i]@ == srows[i],
        decreases st.characters@.len() - k,
    {
        let sub = &st.characters[k];
        let sl = sub.as_str().unicode_len();
        proof {
            assert(cs[k as int] == st.characters@[k as int]@);
            assert(cs[k as int].len() <= spec_max_strlen(cs));
        }
        let pad: usize = w - 2 - sl;
        let lp: usize = pad / 2;
        let rp: usize = pad - lp;
        let mut row = String::new();
        if 2 + k == eh {
            push_char(&mut row, sym::J_LEFT);
        } else {
            push_char(&mut row, sym::L_VERT);
        }
        append_repeat(&mut row, ' ', lp);
        append_str(&mut row, sub.as_str());
        append_repeat(&mut row, ' ', rp);
        if 2 + k == eh {
            push_char(&mut row, sym::J_RIGHT);
        } else {
            push_char(&mut row, sym::L_VERT);
        }
        proof {
            assert(row@ =~= srows[2 + k as int]);
        }
        v.push(row);
        k = k + 1;
    }
    let mut bottom = String::new();
    push_char(&mut bottom, sym::C_BL_SQR);
    append_repeat(&mut bottom, sym::L_HORZ, w - 2);
    push_char(&mut bottom, sym::C_BR_SQR);
    proof {
        assert(bottom@ =~= srows[2 + cs.len() as int]);
    }
    v.push(bottom);
    proof {
        assert(v@.len() == srows.len());
    }
    v
}

} // verus!

verus! {

/// The rows of a repetition: frames its inner node with the return loop
/// and appends the count bar.
#[verifier::loop_isolation(false)]
pub fn draw_repetition(rp: &Repetition) -> (r: Vec<String>)
    requires
        spec_wf(NodeView::Repetition(Box::new(node_view(rp.inner)), rp.repetition)),
        spec_dims_ok(NodeView::Repetition(Box::new(node_view(rp.inner)), rp.repetition)),
    ensures
        rows_match(
            r@,
            spec_draw(NodeView::Repetition(Box::new(node_view(rp.inner)), rp.repetition)),
        ),
    decreases *rp,
{
    let ghost iv = spec_draw(node_view(rp.inner));
    let ghost frows = spec_rep_rows(
        iv,
        spec_entry(node_view(rp.inner)),
        spec_desc(rp.repetition),
    );
    let inner = node_draw(&rp.inner);
    let eh = node_entry(&rp.inner);
    let mut v: Vec<String> = Vec::new();
    let mut i: usize = 0;
    while i < inner.len()
        invariant
            v@.len() == i,
            i <= inner@.len(),
            forall|j: int| 0 <= j < i ==> v@[j]@ == frows[j],
        decreases inner@.len() - i,
    {
        let mut row = String::new();
        if i == eh {
            push_char(&mut row, sym::J_DOWN);
            push_char(&mut row, sym::L_HORZ);
            append_str(&mut row, inner[i].as_str());
            push_char(&mut row, sym::L_HORZ);
            push_char(&mut row, sym::J_DOWN);
        } else if i > eh {
            push_char(&mut row, sym::L_VERT);
            push_char(&mut row, ' ');
            append_str(&mut row, inner[i].as_str());
            push_char(&mut row, ' ');
            push_char(&mut row, sym::L_VERT);
        } else {
            push_char(&mut row, ' ');
            push_char(&mut row, ' ');
            append_str(&mut row, inner[i].as_str());
            push_char(&mut row, ' ');
            push_char(&mut row, ' ');
        }
        proof {
            assert(row@ =~= frows[i as int]);
        }
        v.push(row);
        i = i + 1;
    }
    let row0len: usize = if v.len() > 0 {
        v[0].as_str().unicode_len()
    } else {
        0
    };
    let desc = describe_repetition(&rp.repetition);
    let dlen = desc.as_str().unicode_len();
    let base: usize = if row0len >= dlen {
        row0len - dlen
    } else {
        0
    };
    let padn: usize = if base >= 2 {
        base - 2
    } else {
        0
    };
    let mut bottom = String::new();
    push_char(&mut bottom, sym::C_BL_RND);
    append_str(&mut bottom, desc.as_str());
    append_repeat(&mut bottom, sym::L_HORZ, padn);
    push_char(&mut bottom, sym::C_BR_RND);
    proof {
        assert(frows.len() == iv.len() + 1);
        assert(v@.len() == iv.len());
        if iv.len() > 0 {
            assert(v@[0]@ == frows[0]);
            assert(row0len as int == frows[0].len());
        }
        assert(dlen as int == spec_desc(rp.repetition).len());
        assert(padn as int == imax(
            (if iv.len() > 0 { frows[0].len() as int } else { 0 }) - spec_desc(rp.repetition).len() - 2,
            0,
        ));
        assert(bottom@ =~= seq![sym::C_BL_RND] + spec_desc(rp.repetition) + horiz(padn as int)
            + seq![sym::C_BR_RND]);
        assert(bottom@ =~= frows[iv.len() as int]);
    }
    v.push(bottom);
    v
}

/// The rows of an optional node: frames its inner node with the bypass
/// loop and puts the top bar above.
#[verifier::loop_isolation(false)]
pub fn draw_optional(op: &Optional) -> (r: Vec<String>)
    requires
        spec_wf(NodeView::Optional(Box::new(node_view(op.inner)))),
        spec_dims_ok(NodeView::Optional(Box::new(node_view(op.inner)))),
    ensures
        rows_match(r@, spec_draw(NodeView::Optional(Box::new(node_view(op.inner))))),
    decreases *op,
{
    let ghost iv = spec_draw(node_view(op.inner));
    let ghost orows = spec_opt_rows(iv, spec_entry(node_view(op.inner)));
    let inner = node_draw(&op.inner);
    let eh = node_entry(&op.inner);
    let mut framed: Vec<String> = Vec::new();
    let mut i: usize = 0;
    while i < inner.len()
        invariant
            framed@.len() == i,
            i <= inner@.len(),
            forall|j: int| 0 <= j < i ==> framed@[j]@ == orows[j + 1],
        decreases inner@.len() - i,
    {
        let mut row = String::new();
        if i == eh {
            push_char(&mut row, sym::J_UP);
            push_char(&mut row, sym::L_HORZ);
            append_str(&mut row, inner[i].as_str());
            push_char(&mut row, sym::L_HORZ);
            push_char(&mut row, sym::J_UP);
        } else if i < eh {
            push_char(&mut row, sym::L_VERT);
            push_char(&mut row, ' ');
            append_str(&mut row, inner[i].as_str());
            push_char(&mut row, ' ');
            push_char(&mut row, sym::L_VERT);
        } else {
            push_char(&mut row, ' ');
            push_char(&mut row, ' ');
            append_str(&mut row, inner[i].as_str());
            push_char(&mut row, ' ');
            push_char(&mut row, ' ');
        }
        proof {
            assert(row@ =~= orows[i as int + 1]);
        }
        framed.push(row);
        i = i + 1;
    }
    let row0len: usize = if framed.len() > 0 {
        framed[0].as_str().unicode_len()
    } else {
        2
    };
    let mut top = String::new();
    push_char(&mut top, sym::C_TL_RND);
    append_repeat(&mut top, sym::L_HORZ, row0len - 2);
    push_char(&mut top, sym::C_TR_RND);
    proof {
        assert(top@ =~= orows[0]);
    }
    let mut v: Vec<String> = Vec::new();
    v.push(top);
    let mut k: usize = 0;
    while k < framed.len()
        invariant
            v@.len() == k + 1,
            k <= framed@.len(),
            v@[0]@ == orows[0],
            forall|j: int| 0 <= j < framed@.len() ==> framed@[j]@ == orows[j + 1],
            forall|j: int| 1 <= j < v@.len() ==> v@[j]@ == orows[j],
        decreases framed@.len() - k,
    {
        v.push(framed[k].clone());
        k = k + 1;
    }
    v
}

/// The rows of a capture: frames its inner node with the dashed border
/// between the named top edge and the bottom edge.
#[verifier::loop_isolation(false)]
pub fn draw_capture(cp: &Capture) -> (r: Vec<String>)
    requires
        spec_wf(NodeView::Capture(Box::new(node_view(cp.inner)), cp.name@)),
        spec_dims_ok(NodeView::Capture(Box::new(node_view(cp.inner)), cp.name@)),
    ensures
        rows_match(r@, spec_draw(NodeView::Capture(Box::new(node_view(cp.inner)), cp.name@))),
    decreases *cp,
{
    let ghost iv = spec_draw(node_view(cp.inner));
    let ghost crows = spec_cap_rows(iv, spec_entry(node_view(cp.inner)), cp.name@);
    let inner = node_draw(&cp.inner);
    let eh = node_entry(&cp.inner);
    let mut framed: Vec<String> = Vec::new();
    let mut i: usize = 0;
    while i < inner.len()
        invariant
            framed@.len() == i,
            i <= inner@.len(),
            forall|j: int| 0 <= j < i ==> framed@[j]@ == crows[j + 1],
        decreases inner@.len() - i,
    {
        let mut row = String::new();
        if i == eh {
            push_char(&mut row, sym::CROSS);
            push_char(&mut row, sym::L_HORZ);
            append_str(&mut row, inner[i].as_str());
            push_char(&mut row, sym::L_HORZ);
            push_char(&mut row, sym::CROSS);
        } else {
            push_char(&mut row, sym::L_VERT_D);
            push_char(&mut row, ' ');
            append_str(&mut row, inner[i].as_str());
            push_char(&mut row, ' ');
            push_char(&mut row, sym::L_VERT_D);
        }
        proof {
            assert(row@ =~= crows[i as int + 1]);
        }
        framed.push(row);
        i = i + 1;
    }
    let fr0: usize = if framed.len() > 0 {
        framed[0].as_str().unicode_len()
    } else {
        2
    };
    let len_full: usize = fr0 - 2;
    let nlen = cp.name.as_str().unicode_len();
    let fit: usize = if len_full >= nlen {
        len_full - nlen
    } else {
        0
    };
    let lp: usize = fit / 2;
    let rp: usize = if len_full >= nlen + lp {
        len_full - nlen - lp
    } else {
        0
    };
    let mut top = String::new();
    push_char(&mut top, sym::C_TL_RND);
    append_repeat(&mut top, sym::L_HORZ_D, lp);
    append_str(&mut top, cp.name.as_str());
    append_repeat(&mut top, sym::L_HORZ_D, rp);
    push_char(&mut top, sym::C_TR_RND);
    proof {
        assert(top@ =~= crows[0]);
    }
    let mut v: Vec<String> = Vec::new();
    v.push(top);
    let mut k: usize = 0;
    while k < framed.len()
        invariant
            v@.len() == k + 1,
            k <= framed@.len(),
            v@[0]@ == crows[0],
            forall|j: int| 0 <= j < framed@.len() ==> framed@[j]@ == crows[j + 1],
            forall|j: int| 1 <= j < v@.len() ==> v@[j]@ == crows[j],
        decreases framed@.len() - k,
    {
        v.push(framed[k].clone());
        k = k + 1;
    }
    let mut bottom = String::new();
    push_char(&mut bottom, sym::C_BL_RND);
    append_repeat(&mut bottom, sym::L_HORZ_D, len_full);
    push_char(&mut bottom, sym::C_BR_RND);
    proof {
        assert(bottom@ =~= crows[iv.len() as int + 1]);
    }
    v.push(bottom);
    v
}

/// The rows of a choice: each branch drawn, centered to the widest, and
/// framed into the vertical rail.
#[verifier::loop_isolation(false)]
#[verifier::rlimit(100)]
pub fn draw_choice(c: &Choice) -> (r: Vec<String>)
    requires
        spec_wf(NodeView::Choice(node_views(c.inner@))),
        spec_dims_ok(NodeView::Choice(node_views(c.inner@))),
    ensures
        rows_match(r@, spec_draw(NodeView::Choice(node_views(c.inner@)))),
    decreases *c,
{
    let ghost bs = node_views(c.inner@);
    proof {
        lemma_node_views_index(c.inner@);
        lemma_list_index(bs);
        lemma_dims_list(bs);
    }
    let w = list_max_width(&c.inner);
    let th = list_total_height(&c.inner);
    let mid: usize = (th - 1) / 2;
    let m = c.inner.len();
    let ghost gm = m as int;
    let ghost gmid = mid as int;
    let ghost gw = w as int;
    let mut v: Vec<String> = Vec::new();
    let mut bi: usize = 0;
    while bi < m
        invariant
            v@.len() == spec_choice_fold(bs, bi as int, gmid, gw, gm).len(),
            bi <= bs.len(),
            rows_match(v@, spec_choice_fold(bs, bi as int, gmid, gw, gm)),
        decreases bs.len() - bi,
    {
        let ghost prev = spec_choice_fold(bs, bi as int, gmid, gw, gm);
        let ghost frame = spec_choice_frame(
            spec_draw(bs[bi as int]),
            spec_entry(bs[bi as int]),
            prev.len() as int,
            bi as int,
            gm,
            gmid,
            gw,
        );
        let sub = node_draw(&c.inner[bi]);
        let eh = node_entry(&c.inner[bi]);
        let sub_len: usize = if sub.len() > 0 {
            sub[0].as_str().unicode_len()
        } else {
            0
        };
        let pad: usize = if w >= sub_len {
            w - sub_len
        } else {
            0
        };
        let lp: usize = pad / 2;
        let rp: usize = pad - lp;
        let ghost off = v@.len() as int;
        let mut nn: usize = 0;
        while nn < sub.len()
            invariant
                v@.len() == off + nn,
                nn <= sub@.len(),
                forall|j: int| 0 <= j < off ==> v@[j]@ == prev[j],
                forall|j: int| 0 <= j < nn ==> v@[off + j]@ == frame[j],
            decreases sub@.len() - nn,
        {
            let mut row = String::new();
            if nn == eh {
                if bi == 0 {
                    push_char(&mut row, sym::C_TL_RND);
                } else if v.len() == mid {
                    push_char(&mut row, sym::CROSS);
                } else if bi == m - 1 {
                    push_char(&mut row, sym::C_BL_RND);
                } else {
                    push_char(&mut row, sym::J_RIGHT);
                }
                append_repeat(&mut row, sym::L_HORZ, lp);
                append_str(&mut row, sub[nn].as_str());
                append_repeat(&mut row, sym::L_HORZ, rp);
                if bi == 0 {
                    push_char(&mut row, sym::C_TR_RND);
                } else if v.len() == mid {
                    push_char(&mut row, sym::CROSS);
                } else if bi == m - 1 {
                    push_char(&mut row, sym::C_BR_RND);
                } else {
                    push_char(&mut row, sym::J_LEFT);
                }
            } else if v.len() == mid {
                push_char(&mut row, sym::J_LEFT);
                append_repeat(&mut row, ' ', lp);
                append_str(&mut row, sub[nn].as_str());
                append_repeat(&mut row, ' ', rp);
                push_char(&mut row, sym::J_RIGHT);
            } else if (nn < eh && bi == 0) || (nn > eh && bi == m - 1) {
                push_char(&mut row, ' ');
                append_repeat(&mut row, ' ', lp);
                append_str(&mut row, sub[nn].as_str());
                append_repeat(&mut row, ' ', rp);
                push_char(&mut row, ' ');
            } else {
                push_char(&mut row, sym::L_VERT);
                append_repeat(&mut row, ' ', lp);
                append_str(&mut row, sub[nn].as_str());
                append_repeat(&mut row, ' ', rp);
                push_char(&mut row, sym::L_VERT);
            }
            proof {
                assert(row@ =~= frame[nn as int]);
            }
            v.push(row);
            nn = nn + 1;
        }
        proof {
            assert(spec_choice_fold(bs, bi as int + 1, gmid, gw, gm) =~= prev + frame);
            assert(v@.len() == (prev + frame).len());
        }
        bi = bi + 1;
    }
    v
}

/// The rows a node draws.
pub fn node_draw(n: &Node) -> (r: Vec<String>)
    requires
        spec_wf(n@),
        spec_dims_ok(n@),
    ensures
        rows_match(r@, spec_draw(n@)),
    decreases *n,
{
    match n {
        Node::Sequence(q) => draw_sequence(q),
        Node::Start(_) => draw_start(),
        Node::End(_) => draw_end(),
        Node::Terminal(t) => draw_terminal(t),
        Node::Anchor(a) => draw_anchor(a),
        Node::Repetition(rp) => draw_repetition(rp),
        Node::Optional(op) => draw_optional(op),
        Node::Choice(c) => draw_choice(c),
        Node::Stack(st) => draw_stack(st),
        Node::Capture(cp) => draw_capture(cp),
    }
}

} // verus!

verus! {

/// The rows of a sequence: starts from one empty row with the rail at
/// row 0, then composes each child horizontally, aligning rails, making
/// row counts equal and joining with a two-column connector.
#[verifier::loop_isolation(false)]
#[verifier::rlimit(100)]
pub fn draw_sequence(q: &Sequence) -> (r: Vec<String>)
    requires
        spec_wf(NodeView::Sequence(node_views(q.children@))),
        spec_dims_ok(NodeView::Sequence(node_views(q.children@))),
    ensures
        rows_match(r@, spec_draw(NodeView::Sequence(node_views(q.children@)))),
    decreases *q,
{
    let ghost cs = node_views(q.children@);
    proof {
        lemma_node_views_index(q.children@);
        lemma_list_index(cs);
    }
    let mut diagram: Vec<String> = Vec::new();
    diagram.push(String::new());
    let mut exit: usize = 0;
    proof {
        assert(rows_match(diagram@, spec_seq_fold(cs, 0).0));
    }
    let mut n: usize = 0;
    while n < q.children.len()
        invariant
            n <= cs.len(),
            rows_match(diagram@, spec_seq_fold(cs, n as int).0),
            exit as int == spec_seq_fold(cs, n as int).1,
            diagram@.len() >= 1,
        decreases cs.len() - n,
    {
        let ghost prev = spec_seq_fold(cs, n as int);
        let ghost nv = spec_draw(cs[n as int]);
        let ghost gneh = spec_entry(cs[n as int]);
        let ghost st = spec_seq_step(prev.0, prev.1, nv, gneh, n == 0);
        let child = &q.children[n];
        let node_rows = node_draw(child);
        let neh = node_entry(child);
        let dw: usize = if diagram.len() > 0 {
            diagram[0].as_str().unicode_len()
        } else {
            0
        };
        let nw: usize = if node_rows.len() > 0 {
            node_rows[0].as_str().unicode_len()
        } else {
            0
        };
        proof {
            assert(dw as int == row0_width(prev.0));
            assert(nw as int == row0_width(nv));
        }
        let ghost grows1 = if gneh > prev.1 {
            pad_top(prev.0, gneh - prev.1, dw as int)
        } else {
            prev.0
        };
        let ghost gnrows1 = if gneh < prev.1 {
            pad_top(nv, prev.1 - gneh, nw as int)
        } else {
            nv
        };
        let ghost gh = imax(grows1.len() as int, gnrows1.len() as int);
        let ghost grows2 = pad_bottom(grows1, gh, dw as int);
        let ghost gnrows2 = pad_bottom(gnrows1, gh, nw as int);
        let k1: usize = if neh > exit {
            neh - exit
        } else {
            0
        };
        let mut rows1: Vec<String> = Vec::new();
        let mut i: usize = 0;
        while i < k1
            invariant
                rows1@.len() == i,
                i <= k1,
                forall|j: int| 0 <= j < i ==> rows1@[j]@ == blank(dw as int),
            decreases k1 - i,
        {
            rows1.push(repeat(' ', dw));
            i = i + 1;
        }
        let mut i2: usize = 0;
        while i2 < diagram.len()
            invariant
                rows1@.len() == k1 + i2,
                i2 <= diagram@.len(),
                forall|j: int| 0 <= j < k1 ==> rows1@[j]@ == blank(dw as int),
                forall|j: int| 0 <= j < i2 ==> rows1@[k1 + j]@ == diagram@[j]@,
            decreases diagram@.len() - i2,
        {
            rows1.push(diagram[i2].clone());
            i2 = i2 + 1;
        }
        proof {
            assert(rows1@.len() == grows1.len());
            assert(forall|j: int| 0 <= j < grows1.len() ==> rows1@[j]@ == #[trigger] grows1[j]);
        }
        let k2: usize = if neh < exit {
            exit - neh
        } else {
            0
        };
        let mut nrows1: Vec<String> = Vec::new();
        let mut i3: usize = 0;
        while i3 < k2
            invariant
                nrows1@.len() == i3,
                i3 <= k2,
                forall|j: int| 0 <= j < i3 ==> nrows1@[j]@ == blank(nw as int),
            decreases k2 - i3,
        {
            nrows1.push(repeat(' ', nw));
            i3 = i3 + 1;
        }
        let mut i4: usize = 0;
        while i4 < node_rows.len()
            invariant
                nrows1@.len() == k2 + i4,
                i4 <= node_rows@.len(),
                forall|j: int| 0 <= j < k2 ==> nrows1@[j]@ == blank(nw as int),
                forall|j: int| 0 <= j < i4 ==> nrows1@[k2 + j]@ == node_rows@[j]@,
            decreases node_rows@.len() - i4,
        {
            nrows1.push(node_rows[i4].clone());
            i4 = i4 + 1;
        }
        proof {
            assert(nrows1@.len() == gnrows1.len());
            assert(forall|j: int|
                0 <= j < gnrows1.len() ==> nrows1@[j]@ == #[trigger] gnrows1[j]);
        }
        let exit2: usize = if exit >= neh {
            exit
        } else {
            neh
        };
        let h: usize = if rows1.len() >= nrows1.len() {
            rows1.len()
        } else {
            nrows1.len()
        };
        proof {
            assert(h as int == gh);
            assert(exit2 as int == imax(prev.1, gneh));
        }
        let ghost r1pre = rows1@;
        while rows1.len() < h
            invariant
                r1pre.len() <= rows1@.len() <= h,
                forall|j: int| 0 <= j < r1pre.len() ==> rows1@[j] == r1pre[j],
                forall|j: int| r1pre.len() <= j < rows1@.len() ==> rows1@[j]@ == blank(
                    dw as int,
                ),
            decreases h - rows1.len(),
        {
            rows1.push(repeat(' ', dw));
        }
        let ghost n1pre = nrows1@;
        while nrows1.len() < h
            invariant
                n1pre.len() <= nrows1@.len() <= h,
                forall|j: int| 0 <= j < n1pre.len() ==> nrows1@[j] == n1pre[j],
                forall|j: int| n1pre.len() <= j < nrows1@.len() ==> nrows1@[j]@ == blank(
                    nw as int,
                ),
            decreases h - nrows1.len(),
        {
            nrows1.push(repeat(' ', nw));
        }
        proof {
            assert(rows1@.len() == h);
            assert(nrows1@.len() == h);
            assert(forall|j: int| 0 <= j < h ==> rows1@[j]@ == #[trigger] grows2[j]);
            assert(forall|j: int| 0 <= j < h ==> nrows1@[j]@ == #[trigger] gnrows2[j]);
        }
        let mut out: Vec<String> = Vec::new();
        let mut i5: usize = 0;
        while i5 < h
            invariant
                out@.len() == i5,
                i5 <= h,
                rows1@.len() == h,
                nrows1@.len() == h,
                forall|j: int| 0 <= j < i5 ==> out@[j]@ == st.0[j],
            decreases h - i5,
        {
            let mut row = rows1[i5].clone();
            if n > 0 {
                if i5 == exit2 {
                    append_repeat(&mut row, sym::L_HORZ, 2);
                } else {
                    append_repeat(&mut row, ' ', 2);
                }
            }
            append_str(&mut row, nrows1[i5].as_str());
            proof {
                assert(st.0[i5 as int] == grows2[i5 as int] + (if n == 0 {
                    Seq::<char>::empty()
                } else if i5 as int == st.1 {
                    horiz(2)
                } else {
                    blank(2)
                }) + gnrows2[i5 as int]);
                if n > 0 {
                    if i5 == exit2 {
                        assert(horiz(2) =~= seq![sym::L_HORZ, sym::L_HORZ]);
                    } else {
                        assert(blank(2) =~= seq![' ', ' ']);
                    }
                }
                assert(row@ =~= st.0[i5 as int]);
            }
            out.push(row);
            i5 = i5 + 1;
        }
        diagram = out;
        exit = exit2;
        proof {
            assert(st.0.len() == h as int);
            assert(rows_match(diagram@, st.0));
            assert(exit as int == st.1);
            assert(spec_seq_fold(cs, n as int + 1) == st);
            assert(diagram@.len() >= 1);
        }
        n = n + 1;
    }
    diagram
}

} // verus!

verus! {

/// The word a meta character class renders as.
pub open spec fn spec_meta_text(m: MetaCharacter) -> Seq<char> {
    match m {
        MetaCharacter::Word(p) => if p {
            seq!['W', 'o', 'r', 'd']
        } else {
            seq!['N', 'o', 'n', '-', 'W', 'o', 'r', 'd']
        },
        MetaCharacter::Digit(p) => if p {
            seq!['D', 'i', 'g', 'i', 't']
        } else {
            seq!['N', 'o', 'n', '-', 'D', 'i', 'g', 'i', 't']
        },
        MetaCharacter::Whitespace(p) => if p {
            seq!['W', 'h', 'i', 't', 'e', 's', 'p', 'a', 'c', 'e']
        } else {
            seq!['N', 'o', 'n', '-', 'W', 'h', 'i', 't', 'e', 's', 'p', 'a', 'c', 'e']
        },
        MetaCharacter::Any => seq!['A', 'n', 'y'],
    }
}

/// Whether a class member can be rendered: a literal, a same-class
/// range, or a meta class — never a nested class.
pub open spec fn rc_ok(c: CharacterTypeView) -> bool
    decreases c,
{
    match c {
        CharacterTypeView::Between(a, b) => rc_ok(*a) && rc_ok(*b),
        CharacterTypeView::Terminal(_) => true,
        CharacterTypeView::Meta(_) => true,
        _ => false,
    }
}

/// The text a class member renders as: ranges as `[lo-hi]`, literals
/// verbatim, meta members as words.
pub open spec fn spec_render_char(c: CharacterTypeView) -> Seq<char>
    decreases c,
{
    match c {
        CharacterTypeView::Between(a, b) => seq!['['] + spec_render_char(*a) + seq!['-']
            + spec_render_char(*b) + seq![']'],
        CharacterTypeView::Terminal(ch) => seq![ch],
        CharacterTypeView::Meta(m) => spec_meta_text(m),
        _ => Seq::empty(),
    }
}

/// Every member of the list can be rendered.
pub open spec fn rc_list_ok(s: Seq<CharacterTypeView>) -> bool
    decreases s,
{
    s.len() == 0 || (rc_list_ok(s.drop_last()) && rc_ok(s.last()))
}

/// The texts of a list of class members.
pub open spec fn spec_render_chars(s: Seq<CharacterTypeView>) -> Seq<Seq<char>>
    decreases s,
{
    if s.len() == 0 {
        Seq::empty()
    } else {
        spec_render_chars(s.drop_last()).push(spec_render_char(s.last()))
    }
}

/// The label of an anchor node.
pub open spec fn spec_anchor_text(a: AnchorType) -> Seq<char> {
    match a {
        AnchorType::Start => seq!['L', 'I', 'N', 'E', ' ', 'S', 'T', 'A', 'R', 'T'],
        AnchorType::End => seq!['L', 'I', 'N', 'E', ' ', 'E', 'N', 'D'],
        _ => Seq::empty(),
    }
}

/// Whether a tree can be turned into a diagram: every character class
/// payload is `Any`, `Not` or `Meta`, and every class member can be
/// rendered. A bare range or literal payload is a representation error.
pub open spec fn gen_ok(t: RegExView) -> bool
    decreases t,
{
    match t {
        RegExView::Element(v) => gen_list_ok(v),
        RegExView::Alternation(v) => gen_list_ok(v),
        RegExView::Repetition(_, x) => gen_ok(*x),
        RegExView::Character(c) => match c {
            CharacterTypeView::Any(b) => rc_list_ok(b),
            CharacterTypeView::Not(b) => rc_list_ok(b),
            CharacterTypeView::Meta(_) => true,
            _ => false,
        },
        RegExView::Anchor(_) => true,
        RegExView::Terminal(_) => true,
        RegExView::Capture(_, _, x) => gen_ok(*x),
    }
}

/// Every tree of the list can be turned into a diagram.
pub open spec fn gen_list_ok(v: Seq<RegExView>) -> bool
    decreases v,
{
    v.len() == 0 || (gen_list_ok(v.drop_last()) && gen_ok(v.last()))
}

/// The layout node a tree generates.
pub open spec fn spec_gen(t: RegExView) -> NodeView
    decreases t,
{
    match t {
        RegExView::Terminal(s) => NodeView::Terminal(s),
        RegExView::Repetition(rt, x) => if rt is ZeroOrOne {
            NodeView::Optional(Box::new(spec_gen(*x)))
        } else {
            NodeView::Repetition(Box::new(spec_gen(*x)), rt)
        },
        RegExView::Alternation(v) => NodeView::Choice(spec_gen_list(v)),
        RegExView::Element(v) => NodeView::Sequence(spec_gen_list(v)),
        RegExView::Anchor(a) => NodeView::Anchor(spec_anchor_text(a)),
        RegExView::Character(c) => match c {
            CharacterTypeView::Meta(m) => NodeView::Anchor(spec_meta_text(m)),
            CharacterTypeView::Any(b) => NodeView::Stack(false, spec_render_chars(b)),
            CharacterTypeView::Not(b) => NodeView::Stack(true, spec_render_chars(b)),
            _ => NodeView::Terminal(Seq::empty()),
        },
        RegExView::Capture(name, gi, x) => NodeView::Capture(
            Box::new(spec_gen(*x)),
            match name {
                Option::Some(nm) => nm,
                Option::None => seq!['G', 'r', 'o', 'u', 'p', ' '] + spec_decimal(gi as nat),
            },
        ),
    }
}

/// The layout nodes a list of trees generates.
pub open spec fn spec_gen_list(v: Seq<RegExView>) -> Seq<NodeView>
    decreases v,
{
    if v.len() == 0 {
        Seq::empty()
    } else {
        spec_gen_list(v.drop_last()).push(spec_gen(v.last()))
    }
}

/// The children of a whole diagram: the generated tree (an element's
/// children side by side, any other tree as one node) between the start
/// and end caps.
pub open spec fn spec_gen_diagram(t: RegExView) -> Seq<NodeView> {
    seq![NodeView::Start] + (match t {
        RegExView::Element(v) => spec_gen_list(v),
        _ => seq![spec_gen(t)],
    }) + seq![NodeView::End]
}

/// The word a meta character class renders as.
pub fn meta_text(m: &MetaCharacter) -> (r: String)
    ensures
        r@ == spec_meta_text(*m),
{
    let mut s = String::new();
    match m {
        MetaCharacter::Word(p) => {
            if *p {
                push_char(&mut s, 'W');
                push_char(&mut s, 'o');
                push_char(&mut s, 'r');
                push_char(&mut s, 'd');
            } else {
                push_char(&mut s, 'N');
                push_char(&mut s, 'o');
                push_char(&mut s, 'n');
                push_char(&mut s, '-');
                push_char(&mut s, 'W');
                push_char(&mut s, 'o');
                push_char(&mut s, 'r');
                push_char(&mut s, 'd');
            }
        },
        MetaCharacter::Digit(p) => {
            if *p {
                push_char(&mut s, 'D');
                push_char(&mut s, 'i');
                push_char(&mut s, 'g');
                push_char(&mut s, 'i');
                push_char(&mut s, 't');
            } else {
                push_char(&mut s, 'N');
                push_char(&mut s, 'o');
                push_char(&mut s, 'n');
                push_char(&mut s, '-');
                push_char(&mut s, 'D');
                push_char(&mut s, 'i');
                push_char(&mut s, 'g');
                push_char(&mut s, 'i');
                push_char(&mut s, 't');
            }
        },
        MetaCharacter::Whitespace(p) => {
            if *p {
                push_char(&mut s, 'W');
                push_char(&mut s, 'h');
                push_char(&mut s, 'i');
                push_char(&mut s, 't');
                push_char(&mut s, 'e');
                push_char(&mut s, 's');
                push_char(&mut s, 'p');
                push_char(&mut s, 'a');
                push_char(&mut s, 'c');
                push_char(&mut s, 'e');
            } else {
                push_char(&mut s, 'N');
                push_char(&mut s, 'o');
                push_char(&mut s, 'n');
                push_char(&mut s, '-');
                push_char(&mut s, 'W');
                push_char(&mut s, 'h');
                push_char(&mut s, 'i');
                push_char(&mut s, 't');
                push_char(&mut s, 'e');
                push_char(&mut s, 's');
                push_char(&mut s, 'p');
                push_char(&mut s, 'a');
                push_char(&mut s, 'c');
                push_char(&mut s, 'e');
            }
        },
        MetaCharacter::Any => {
            push_char(&mut s, 'A');
            push_char(&mut s, 'n');
            push_char(&mut s, 'y');
        },
    }
    proof {
        assert(s@ =~= spec_meta_text(*m));
    }
    s
}

/// The label of an anchor node.
pub fn anchor_text(a: &AnchorType) -> (r: String)
    ensures
        r@ == spec_anchor_text(*a),
{
    let mut s = String::new();
    match a {
        AnchorType::Start => {
            push_char(&mut s, 'L');
            push_char(&mut s, 'I');
            push_char(&mut s, 'N');
            push_char(&mut s, 'E');
            push_char(&mut s, ' ');
            push_char(&mut s, 'S');
            push_char(&mut s, 'T');
            push_char(&mut s, 'A');
            push_char(&mut s, 'R');
            push_char(&mut s, 'T');
        },
        AnchorType::End => {
            push_char(&mut s, 'L');
            push_char(&mut s, 'I');
            push_char(&mut s, 'N');
            push_char(&mut s, 'E');
            push_char(&mut s, ' ');
            push_char(&mut s, 'E');
            push_char(&mut s, 'N');
            push_char(&mut s, 'D');
        },
        _ => {},
    }
    proof {
        assert(s@ =~= spec_anchor_text(*a));
    }
    s
}

/// Maps a parsed regular expression onto a drawable tree and renders the
/// result.
#[derive(Default)]
pub struct RailroadRenderer {}

impl RailroadRenderer {
    /// A new renderer.
    pub fn new() -> RailroadRenderer {
        RailroadRenderer {  }
    }

    /// The text a class member renders as, or a representation error for
    /// a nested class.
    pub fn render_character(character: &CharacterType) -> (r: Result<String, Error>)
        ensures
            r is Ok <==> rc_ok(char_type_view(*character)),
            r matches Ok(st) ==> st@ == spec_render_char(char_type_view(*character)),
            r matches Err(e) ==> e == Error::InvalidParsing,
        decreases *character,
    {
        match character {
            CharacterType::Between(a, b) => {
                let ra = match Self::render_character(a) {
                    Ok(x) => x,
                    Err(e) => {
                        return Err(e);
                    },
                };
                let rb = match Self::render_character(b) {
                    Ok(x) => x,
                    Err(e) => {
                        return Err(e);
                    },
                };
                let mut st = String::new();
                push_char(&mut st, '[');
                append_str(&mut st, ra.as_str());
                push_char(&mut st, '-');
                append_str(&mut st, rb.as_str());
                push_char(&mut st, ']');
                proof {
                    assert(st@ =~= spec_render_char(char_type_view(*character)));
                }
                Ok(st)
            },
            CharacterType::Terminal(c) => {
                let mut st = String::new();
                push_char(&mut st, *c);
                proof {
                    assert(st@ =~= spec_render_char(char_type_view(*character)));
                }
                Ok(st)
            },
            CharacterType::Meta(m) => Ok(meta_text(m)),
            _ => Err(Error::InvalidParsing),
        }
    }

    /// The layout node of one tree, or a representation error where a
    /// character payload is a bare range or literal.
    #[verifier::loop_isolation(false)]
    pub fn generate_diagram_element(tree: &RegEx) -> (r: Result<Node, Error>)
        ensures
            r is Ok <==> gen_ok(regex_view(*tree)),
            r matches Ok(nd) ==> node_view(nd) == spec_gen(regex_view(*tree)),
            r matches Err(e) ==> e == Error::InvalidParsing,
        decreases *tree,
    {
        match tree {
            RegEx::Terminal(a) => Ok(Node::Terminal(Terminal { text: a.clone() })),
            RegEx::Repetition(repetition, a) => {
                let inner = match Self::generate_diagram_element(a) {
                    Ok(x) => x,
                    Err(e) => {
                        return Err(e);
                    },
                };
                match repetition {
                    RepetitionType::ZeroOrOne => Ok(
                        Node::Optional(Box::new(Optional { inner })),
                    ),
                    _ => Ok(
                        Node::Repetition(
                            Box::new(Repetition { inner, repetition: *repetition }),
                        ),
                    ),
                }
            },
            RegEx::Alternation(a) => {
                let ghost views = regex_views(a@);
                proof {
                    lemma_regex_views_index(a@);
                }
                let mut branches: Vec<Node> = Vec::new();
                let mut i: usize = 0;
                while i < a.len()
                    invariant
                        i <= a@.len(),
                        gen_list_ok(views.take(i as int)),
                        node_views(branches@) == spec_gen_list(views.take(i as int)),
                    decreases a@.len() - i,
                {
                    let el = match Self::generate_diagram_element(&a[i]) {
                        Ok(x) => x,
                        Err(e) => {
                            proof {
                                lemma_gen_list_ok_not(views, i as int);
                            }
                            return Err(e);
                        },
                    };
                    let ghost bpre = branches@;
                    branches.push(el);
                    proof {
                        assert(views.take((i + 1) as int).drop_last() =~= views.take(i as int));
                        assert(views.take((i + 1) as int).last() == views[i as int]);
                        lemma_node_views_push(bpre, branches@.last());
                        assert(branches@ =~= bpre.push(branches@.last()));
                    }
                    i = i + 1;
                }
                proof {
                    assert(views.take(views.len() as int) =~= views);
                }
                Ok(Node::Choice(Choice { inner: branches }))
            },
            RegEx::Element(a) => {
                let ghost views = regex_views(a@);
                proof {
                    lemma_regex_views_index(a@);
                }
                let mut children: Vec<Node> = Vec::new();
                let mut i: usize = 0;
                while i < a.len()
                    invariant
                        i <= a@.len(),
                        gen_list_ok(views.take(i as int)),
                        node_views(children@) == spec_gen_list(views.take(i as int)),
                    decreases a@.len() - i,
                {
                    let el = match Self::generate_diagram_element(&a[i]) {
                        Ok(x) => x,
                        Err(e) => {
                            proof {
                                lemma_gen_list_ok_not(views, i as int);
                            }
                            return Err(e);
                        },
                    };
                    let ghost bpre = children@;
                    children.push(el);
                    proof {
                        assert(views.take((i + 1) as int).drop_last() =~= views.take(i as int));
                        assert(views.take((i + 1) as int).last() == views[i as int]);
                        lemma_node_views_push(bpre, children@.last());
                        assert(children@ =~= bpre.push(children@.last()));
                    }
                    i = i + 1;
                }
                proof {
                    assert(views.take(views.len() as int) =~= views);
                }
                Ok(Node::Sequence(Sequence { children }))
            },
            RegEx::Anchor(a) => Ok(Node::Anchor(Anchor { text: anchor_text(a) })),
            RegEx::Character(a) => {
                match a {
                    CharacterType::Meta(m) => Ok(Node::Anchor(Anchor { text: meta_text(m) })),
                    CharacterType::Any(b) | CharacterType::Not(b) => {
                        let invert = match a {
                            CharacterType::Not(_) => true,
                            _ => false,
                        };
                        let ghost cviews = char_type_views(b@);
                        proof {
                            lemma_char_type_views_index(b@);
                        }
                        let mut characters: Vec<String> = Vec::new();
                        let mut i: usize = 0;
                        while i < b.len()
                            invariant
                                i <= b@.len(),
                                rc_list_ok(cviews.take(i as int)),
                                strs_view(characters@) == spec_render_chars(
                                    cviews.take(i as int),
                                ),
                            decreases b@.len() - i,
                        {
                            let member = match Self::render_character(&b[i]) {
                                Ok(x) => x,
                                Err(e) => {
                                    proof {
                                        lemma_rc_list_ok_not(cviews, i as int);
                                    }
                                    return Err(e);
                                },
                            };
                            let ghost cpre = characters@;
                            characters.push(member);
                            proof {
                                assert(cviews.take((i + 1) as int).drop_last() =~= cviews.take(
                                    i as int,
                                ));
                                assert(cviews.take((i + 1) as int).last() == cviews[i as int]);
                                assert(strs_view(characters@) =~= strs_view(cpre).push(
                                    characters@.last()@,
                                ));
                            }
                            i = i + 1;
                        }
                        proof {
                            assert(cviews.take(cviews.len() as int) =~= cviews);
                        }
                        Ok(Node::Stack(Stack { invert, characters }))
                    },
                    _ => Err(Error::InvalidParsing),
                }
            },
            RegEx::Capture(name, group, a) => {
                let inner = match Self::generate_diagram_element(a) {
                    Ok(x) => x,
                    Err(e) => {
                        return Err(e);
                    },
                };
                let label: String = match name {
                    Some(n) => n.clone(),
                    None => {
                        let mut label = String::new();
                        push_char(&mut label, 'G');
                        push_char(&mut label, 'r');
                        push_char(&mut label, 'o');
                        push_char(&mut label, 'u');
                        push_char(&mut label, 'p');
                        push_char(&mut label, ' ');
                        let d = decimal_string_usize(*group);
                        append_str(&mut label, d.as_str());
                        label
                    },
                };
                proof {
                    if name is None {
                        assert(label@ =~= seq!['G', 'r', 'o', 'u', 'p', ' '] + spec_decimal(
                            *group as nat,
                        ));
                    }
                }
                Ok(Node::Capture(Box::new(Capture { inner, name: label })))
            },
        }
    }

    /// The whole diagram of a tree: its generated nodes between the
    /// start and end caps.
    #[verifier::loop_isolation(false)]
    pub fn generate_diagram(tree: &RegEx) -> (r: Result<Sequence, Error>)
        ensures
            r is Ok <==> gen_ok(regex_view(*tree)),
            r matches Ok(sq) ==> node_views(sq.children@) == spec_gen_diagram(regex_view(*tree)),
            r matches Err(e) ==> e == Error::InvalidParsing,
    {
        let mut children: Vec<Node> = Vec::new();
        children.push(Node::Start(Start {  }));
        proof {
            reveal_with_fuel(node_views, 3);
            assert(children@.drop_last() =~= Seq::<Node>::empty());
            assert(node_views(children@) =~= seq![NodeView::Start]);
        }
        match tree {
            RegEx::Element(a) => {
                let ghost views = regex_views(a@);
                proof {
                    lemma_regex_views_index(a@);
                }
                let mut i: usize = 0;
                while i < a.len()
                    invariant
                        i <= a@.len(),
                        gen_list_ok(views.take(i as int)),
                        node_views(children@) == seq![NodeView::Start] + spec_gen_list(
                            views.take(i as int),
                        ),
                    decreases a@.len() - i,
                {
                    let el = match Self::generate_diagram_element(&a[i]) {
                        Ok(x) => x,
                        Err(e) => {
                            proof {
                                lemma_gen_list_ok_not(views, i as int);
                            }
                            return Err(e);
                        },
                    };
                    let ghost bpre = children@;
                    children.push(el);
                    proof {
                        assert(views.take((i + 1) as int).drop_last() =~= views.take(i as int));
                        assert(views.take((i + 1) as int).last() == views[i as int]);
                        lemma_node_views_push(bpre, children@.last());
                        assert(children@ =~= bpre.push(children@.last()));
                        assert(node_views(children@) =~= seq![NodeView::Start] + spec_gen_list(
                            views.take((i + 1) as int),
                        ));
                    }
                    i = i + 1;
                }
                proof {
                    assert(views.take(views.len() as int) =~= views);
                }
            },
            _ => {
                let el = match Self::generate_diagram_element(tree) {
                    Ok(x) => x,
                    Err(e) => {
                        return Err(e);
                    },
                };
                let ghost bpre = children@;
                children.push(el);
                proof {
                    lemma_node_views_push(bpre, children@.last());
                    assert(children@ =~= bpre.push(children@.last()));
                }
            },
        }
        let ghost bpre2 = children@;
        children.push(Node::End(End {  }));
        proof {
            lemma_node_views_push(bpre2, children@.last());
            assert(children@ =~= bpre2.push(children@.last()));
            assert(node_views(children@) =~= spec_gen_diagram(regex_view(*tree)));
        }
        Ok(Sequence { children })
    }

    /// Renders a generated diagram as equal-width text rows.
    pub fn render_diagram(diagram: &Sequence) -> (r: Result<Vec<String>, Error>)
        requires
            spec_wf(NodeView::Sequence(node_views(diagram.children@))),
            spec_dims_ok(NodeView::Sequence(node_views(diagram.children@))),
        ensures
            r matches Ok(rows) && rows_match(
                rows@,
                spec_draw(NodeView::Sequence(node_views(diagram.children@))),
            ),
    {
        Ok(draw_sequence(diagram))
    }
}

/// A list that fails its check at position `i` fails as a whole.
pub proof fn lemma_gen_list_ok_not(s: Seq<RegExView>, i: int)
    requires
        0 <= i < s.len(),
        !gen_ok(s[i]),
    ensures
        !gen_list_ok(s),
    decreases s,
{
    if s.len() > 0 {
        if i < s.len() - 1 {
            lemma_gen_list_ok_not(s.drop_last(), i);
        } else {
            assert(s.last() == s[i]);
        }
    }
}

/// A member list that fails its check at position `i` fails as a whole.
pub proof fn lemma_rc_list_ok_not(s: Seq<CharacterTypeView>, i: int)
    requires
        0 <= i < s.len(),
        !rc_ok(s[i]),
    ensures
        !rc_list_ok(s),
    decreases s,
{
    if s.len() > 0 {
        if i < s.len() - 1 {
            lemma_rc_list_ok_not(s.drop_last(), i);
        } else {
            assert(s.last() == s[i]);
        }
    }
}

} // verus!

verus! {

/// The width a prefix of a sequence composes to.
pub open spec fn spec_seq_width_upto(cs: Seq<NodeView>, k: int) -> int {
    if k <= 0 {
        0
    } else {
        spec_total_width(cs.take(k)) + 2 * (k - 1)
    }
}

/// The rows of the first `k` children of a sequence: exactly as many as
/// the tallest alignment needs, every row exactly as wide as the
/// children plus their connectors, and the exit rail at the highest
/// entry.
pub proof fn lemma_seq_fold_dims(cs: Seq<NodeView>, k: int)
    requires
        spec_wf_list(cs),
        spec_fits_list(cs),
        0 <= k <= cs.len(),
    ensures
        spec_seq_fold(cs, k).0.len() == spec_max_entry(cs.take(k)) + spec_seq_bot(cs.take(k)),
        spec_seq_fold(cs, k).1 == spec_max_entry(cs.take(k)),
        forall|i: int|
            0 <= i < spec_seq_fold(cs, k).0.len() ==> (#[trigger] spec_seq_fold(cs, k).0[i]).len()
                == spec_seq_width_upto(cs, k),
    decreases cs, k,
{
    if k <= 0 {
        assert(cs.take(0) =~= Seq::<NodeView>::empty());
        assert(spec_seq_fold(cs, 0).0 =~= seq![Seq::<char>::empty()]);
    } else {
        lemma_seq_fold_dims(cs, k - 1);
        lemma_list_index(cs);
        lemma_dims_list(cs);
        lemma_wf_list_take(cs, k - 1);
        lemma_dims_list(cs.take(k - 1));
        lemma_draw_dims(cs[k - 1]);
        lemma_dims(cs[k - 1]);
        assert(cs.take(k).drop_last() =~= cs.take(k - 1));
        assert(cs.take(k).last() == cs[k - 1]);
        let prev = spec_seq_fold(cs, k - 1);
        let nv = spec_draw(cs[k - 1]);
        let neh = spec_entry(cs[k - 1]);
        let wprev = spec_seq_width_upto(cs, k - 1);
        let wc = spec_width(cs[k - 1]);
        let tprev = spec_max_entry(cs.take(k - 1));
        let bprev = spec_seq_bot(cs.take(k - 1));
        assert(prev.0.len() == tprev + bprev);
        assert(prev.0.len() >= 1);
        assert(row0_width(prev.0) == wprev);
        assert(nv.len() == spec_height(cs[k - 1]));
        assert(nv.len() >= 1);
        assert(row0_width(nv) == wc);
        let st = spec_seq_step(prev.0, prev.1, nv, neh, k - 1 == 0);
        let rows1 = if neh > prev.1 {
            pad_top(prev.0, neh - prev.1, wprev)
        } else {
            prev.0
        };
        let nrows1 = if neh < prev.1 {
            pad_top(nv, prev.1 - neh, wc)
        } else {
            nv
        };
        assert(forall|i: int|
            0 <= i < rows1.len() ==> (#[trigger] rows1[i]).len() == wprev);
        assert(forall|i: int| 0 <= i < nrows1.len() ==> (#[trigger] nrows1[i]).len() == wc);
        let h = imax(rows1.len() as int, nrows1.len() as int);
        let rows2 = pad_bottom(rows1, h, wprev);
        let nrows2 = pad_bottom(nrows1, h, wc);
        assert(forall|i: int|
            0 <= i < rows2.len() ==> (#[trigger] rows2[i]).len() == wprev);
        assert(forall|i: int| 0 <= i < nrows2.len() ==> (#[trigger] nrows2[i]).len() == wc);
        assert(rows1.len() == imax(tprev, neh) + bprev);
        assert(nrows1.len() == imax(tprev, neh) + (spec_height(cs[k - 1]) - neh));
        assert(h == imax(tprev, neh) + imax(bprev, spec_height(cs[k - 1]) - neh));
        assert(spec_max_entry(cs.take(k)) == imax(tprev, neh));
        assert(spec_seq_bot(cs.take(k)) == imax(bprev, spec_height(cs[k - 1]) - neh));
        assert(st.0.len() == h);
        assert(st.1 == imax(tprev, neh));
        assert(spec_total_width(cs.take(k)) == spec_total_width(cs.take(k - 1)) + wc);
        assert(forall|i: int|
            0 <= i < st.0.len() ==> (#[trigger] st.0[i]).len() == spec_seq_width_upto(cs, k));
        assert(spec_seq_fold(cs, k) == st);
    }
}

/// The rows of the first `k` branches of a choice: their heights summed,
/// every row two columns wider than the widest branch.
pub proof fn lemma_choice_fold_dims(bs: Seq<NodeView>, k: int, mid: int, w: int, m: int)
    requires
        spec_wf_list(bs),
        spec_fits_list(bs),
        0 <= k <= bs.len(),
        w == spec_max_width(bs),
        m == bs.len(),
    ensures
        spec_choice_fold(bs, k, mid, w, m).len() == spec_total_height(bs.take(k)),
        forall|i: int|
            0 <= i < spec_choice_fold(bs, k, mid, w, m).len() ==> (#[trigger] spec_choice_fold(
                bs,
                k,
                mid,
                w,
                m,
            )[i]).len() == w + 2,
    decreases bs, k,
{
    if k <= 0 {
        assert(bs.take(0) =~= Seq::<NodeView>::empty());
    } else {
        lemma_choice_fold_dims(bs, k - 1, mid, w, m);
        lemma_list_index(bs);
        lemma_list_bounds(bs);
        lemma_draw_dims(bs[k - 1]);
        lemma_dims(bs[k - 1]);
        assert(bs.take(k).drop_last() =~= bs.take(k - 1));
        assert(bs.take(k).last() == bs[k - 1]);
        let prev = spec_choice_fold(bs, k - 1, mid, w, m);
        let rows = spec_draw(bs[k - 1]);
        assert(rows.len() == spec_height(bs[k - 1]));
        assert(rows.len() >= 1);
        assert(rows[0].len() == spec_width(bs[k - 1]));
        assert(spec_width(bs[k - 1]) <= w);
        let fr = spec_choice_frame(
            rows,
            spec_entry(bs[k - 1]),
            prev.len() as int,
            k - 1,
            m,
            mid,
            w,
        );
        assert(forall|i: int| 0 <= i < fr.len() ==> (#[trigger] fr[i]).len() == w + 2);
        assert(spec_total_height(bs.take(k)) == spec_total_height(bs.take(k - 1)) + spec_height(
            bs[k - 1],
        ));
        assert(spec_choice_fold(bs, k, mid, w, m) == prev + fr);
    }
}

/// Every drawing is a perfect rectangle: a constructible node whose
/// labels fit draws exactly `height()` rows, each exactly `width()`
/// columns wide, and its entry rail lies strictly inside those rows.
pub proof fn lemma_draw_dims(n: NodeView)
    requires
        spec_wf(n),
        spec_fits(n),
    ensures
        spec_draw(n).len() == spec_height(n),
        forall|i: int|
            0 <= i < spec_draw(n).len() ==> (#[trigger] spec_draw(n)[i]).len() == spec_width(n),
        0 <= spec_entry(n) < spec_height(n),
    decreases n, 1int,
{
    lemma_dims(n);
    match n {
        NodeView::Sequence(cs) => {
            lemma_seq_fold_dims(cs, cs.len() as int);
            assert(cs.take(cs.len() as int) =~= cs);
        },
        NodeView::Start => {
            assert(spec_draw(n)[0].len() == 6);
        },
        NodeView::End => {
            assert(spec_draw(n)[0].len() == 4);
        },
        NodeView::Terminal(t) => {
            assert(spec_draw(n)[0].len() == t.len() + 4);
            assert(spec_draw(n)[1].len() == t.len() + 4);
            assert(spec_draw(n)[2].len() == t.len() + 4);
        },
        NodeView::Anchor(t) => {
            assert(spec_draw(n)[0].len() == t.len() + 2);
            assert(spec_draw(n)[1].len() == t.len() + 2);
            assert(spec_draw(n)[2].len() == t.len() + 2);
        },
        NodeView::Repetition(inner, rt) => {
            lemma_draw_dims(*inner);
            lemma_dims(*inner);
            let iv = spec_draw(*inner);
            let eh = spec_entry(*inner);
            let fr = spec_rep_rows(iv, eh, spec_desc(rt));
            assert(iv.len() >= 1);
            assert(iv[0].len() == spec_width(*inner));
            assert(forall|i: int|
                0 <= i < iv.len() ==> (#[trigger] fr[i]).len() == spec_width(*inner) + 4);
            assert(fr[iv.len() as int].len() == spec_width(*inner) + 4);
            assert(forall|i: int|
                0 <= i < fr.len() ==> (#[trigger] fr[i]).len() == spec_width(*inner) + 4);
        },
        NodeView::Optional(inner) => {
            lemma_draw_dims(*inner);
            lemma_dims(*inner);
            let iv = spec_draw(*inner);
            assert(iv.len() >= 1);
            assert(iv[0].len() == spec_width(*inner));
            let fr = spec_opt_rows(iv, spec_entry(*inner));
            assert(fr[0].len() == spec_width(*inner) + 4);
            assert(forall|i: int|
                1 <= i < fr.len() ==> (#[trigger] fr[i]).len() == spec_width(*inner) + 4);
        },
        NodeView::Choice(bs) => {
            lemma_choice_fold_dims(
                bs,
                bs.len() as int,
                (spec_total_height(bs) - 1) / 2,
                spec_max_width(bs),
                bs.len() as int,
            );
            assert(bs.take(bs.len() as int) =~= bs);
        },
        NodeView::Stack(inv, cs) => {
            lemma_strlen_bounds(cs);
            let w = imax(spec_max_strlen(cs) + 2, 9);
            let rows = spec_stack_rows(inv, cs);
            assert(rows[0].len() == w);
            assert(rows[1].len() == w);
            assert(forall|i: int|
                2 <= i < 2 + cs.len() ==> (#[trigger] rows[i]).len() == w);
            assert(rows[2 + cs.len() as int].len() == w);
        },
        NodeView::Capture(inner, name) => {
            lemma_draw_dims(*inner);
            lemma_dims(*inner);
            let iv = spec_draw(*inner);
            assert(iv.len() >= 1);
            assert(iv[0].len() == spec_width(*inner));
            let fr = spec_cap_rows(iv, spec_entry(*inner), name);
            assert(fr[0].len() == spec_width(*inner) + 4);
            assert(forall|i: int|
                1 <= i < 1 + iv.len() ==> (#[trigger] fr[i]).len() == spec_width(*inner) + 4);
            assert(fr[1 + iv.len() as int].len() == spec_width(*inner) + 4);
        },
    }
}

} // verus!

verus! {

/// A concatenation of constructible nodes is constructible, exactly when
/// both parts are.
pub proof fn lemma_wf_list_concat(a: Seq<NodeView>, b: Seq<NodeView>)
    ensures
        spec_wf_list(a + b) <==> spec_wf_list(a) && spec_wf_list(b),
    decreases b,
{
    if b.len() == 0 {
        assert(a + b =~= a);
    } else {
        lemma_wf_list_concat(a, b.drop_last());
        assert((a + b).drop_last() =~= a + b.drop_last());
        assert((a + b).last() == b.last());
    }
}

/// A tree whose alternations all have at least two branches generates a
/// constructible layout node.
pub proof fn lemma_gen_wf(t: RegExView)
    requires
        crate::ast::ast_wf(t),
    ensures
        spec_wf(spec_gen(t)),
    decreases t, 1int,
{
    match t {
        RegExView::Element(v) => {
            lemma_gen_list_wf(v);
        },
        RegExView::Alternation(v) => {
            lemma_gen_list_wf(v);
        },
        RegExView::Repetition(rt, x) => {
            lemma_gen_wf(*x);
        },
        RegExView::Capture(_, _, x) => {
            lemma_gen_wf(*x);
        },
        _ => {},
    }
}

/// A list of such trees generates a constructible node list of the same
/// length.
pub proof fn lemma_gen_list_wf(v: Seq<RegExView>)
    requires
        crate::ast::ast_list_wf(v),
    ensures
        spec_wf_list(spec_gen_list(v)),
        spec_gen_list(v).len() == v.len(),
    decreases v, 0int,
{
    if v.len() > 0 {
        lemma_gen_list_wf(v.drop_last());
        lemma_gen_wf(v.last());
        let g = spec_gen_list(v.drop_last()).push(spec_gen(v.last()));
        assert(g.drop_last() =~= spec_gen_list(v.drop_last()));
        assert(g.last() == spec_gen(v.last()));
    }
}

/// A whole generated diagram — the generated tree between the start and
/// end caps — is a constructible sequence.
pub proof fn lemma_gen_diagram_wf(t: RegExView)
    requires
        crate::ast::ast_wf(t),
    ensures
        spec_wf(NodeView::Sequence(spec_gen_diagram(t))),
{
    reveal_with_fuel(spec_wf_list, 3);
    let mid = match t {
        RegExView::Element(v) => spec_gen_list(v),
        _ => seq![spec_gen(t)],
    };
    match t {
        RegExView::Element(v) => {
            lemma_gen_list_wf(v);
        },
        _ => {
            lemma_gen_wf(t);
            assert(seq![spec_gen(t)].drop_last() =~= Seq::<NodeView>::empty());
            assert(spec_wf_list(seq![spec_gen(t)]));
        },
    }
    assert(seq![NodeView::Start].drop_last() =~= Seq::<NodeView>::empty());
    assert(spec_wf_list(seq![NodeView::Start]));
    lemma_wf_list_concat(seq![NodeView::Start], mid);
    assert(seq![NodeView::End].drop_last() =~= Seq::<NodeView>::empty());
    assert(spec_wf_list(seq![NodeView::End]));
    lemma_wf_list_concat(seq![NodeView::Start] + mid, seq![NodeView::End]);
}

/// Composing a node whose entry rail lies below the current exit rail
/// pads the already-built diagram's top: the exit rail rises to the new
/// entry, and every previously drawn row reappears at its old position
/// shifted down by the difference, unchanged except for the connector
/// and the new node's columns appended at its right.
pub proof fn lemma_seq_step_preserves_rows(
    rows: Seq<Seq<char>>,
    exit: int,
    nrows: Seq<Seq<char>>,
    neh: int,
    first: bool,
    i: int,
)
    requires
        0 <= exit < neh,
        rows.len() > 0,
        0 <= i < rows.len(),
    ensures
        spec_seq_step(rows, exit, nrows, neh, first).1 == neh,
        spec_seq_step(rows, exit, nrows, neh, first).0.len() >= rows.len() + (neh - exit),
        spec_seq_step(rows, exit, nrows, neh, first).0[i + (neh - exit)].take(
            rows[i].len() as int,
        ) == rows[i],
{
    let k = neh - exit;
    let st = spec_seq_step(rows, exit, nrows, neh, first);
    let dw = row0_width(rows);
    let rows1 = pad_top(rows, k, dw);
    assert(rows1[i + k] == rows[i]);
    let h = imax(rows1.len() as int, (if neh < exit {
        pad_top(nrows, exit - neh, row0_width(nrows))
    } else {
        nrows
    }).len() as int);
    let rows2 = pad_bottom(rows1, h, dw);
    assert(rows2[i + k] == rows[i]);
    assert(st.0[i + k].take(rows[i].len() as int) =~= rows[i]);
}

} // verus!

verus! {

/// End to end: every tree the parser accepts generates a constructible
/// diagram — the sequence of its generated nodes between the start and
/// end caps is well-formed, so its exact dimensions and rows are given
/// by the drawing functions.
pub proof fn lemma_parsed_diagram_wf(s: Seq<char>, esc: Option<char>)
    ensures
        crate::parser::spec_parse(s, esc) matches crate::parser::Parsed::Good(v, ni, ncg)
            ==> spec_wf(NodeView::Sequence(spec_gen_diagram(v))),
{
    crate::parser::lemma_parse_ast_wf(s, esc);
    match crate::parser::spec_parse(s, esc) {
        crate::parser::Parsed::Good(v, ni, ncg) => {
            lemma_gen_diagram_wf(v);
        },
        _ => {},
    }
}

} // verus!

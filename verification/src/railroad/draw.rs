//! The capability every diagram primitive offers: locating a node
//! relative to its siblings and rendering it.

use vstd::prelude::*;
use vstd::string::StrSliceExecFns;
use crate::railroad::renderer::Anchor;
use crate::railroad::renderer::Capture;
use crate::railroad::renderer::Choice;
use crate::railroad::renderer::End;
use crate::railroad::renderer::Node;
use crate::railroad::renderer::NodeView;
use crate::railroad::renderer::Optional;
use crate::railroad::renderer::Repetition;
use crate::railroad::renderer::Sequence;
use crate::railroad::renderer::Stack;
use crate::railroad::renderer::Start;
use crate::railroad::renderer::Terminal;
use crate::railroad::renderer::draw_anchor;
use crate::railroad::renderer::draw_capture;
use crate::railroad::renderer::draw_choice;
use crate::railroad::renderer::draw_end;
use crate::railroad::renderer::draw_optional;
use crate::railroad::renderer::draw_repetition;
use crate::railroad::renderer::draw_sequence;
use crate::railroad::renderer::draw_stack;
use crate::railroad::renderer::draw_start;
use crate::railroad::renderer::draw_terminal;
use crate::railroad::renderer::lemma_dims_list;
use crate::railroad::renderer::lemma_strlen_bounds;
use crate::railroad::renderer::list_max_entry;
use crate::railroad::renderer::list_max_height;
use crate::railroad::renderer::list_max_strlen;
use crate::railroad::renderer::list_max_width;
use crate::railroad::renderer::list_seq_bot;
use crate::railroad::renderer::list_total_height;
use crate::railroad::renderer::list_total_width;
use crate::railroad::renderer::node_entry;
use crate::railroad::renderer::node_height;
use crate::railroad::renderer::node_view;
use crate::railroad::renderer::node_views;
use crate::railroad::renderer::node_width;
use crate::railroad::renderer::node_draw;
use crate::railroad::renderer::rows_match;
use crate::railroad::renderer::spec_dims_ok;
use crate::railroad::renderer::spec_dims_ok_list;
use crate::railroad::renderer::spec_draw;
use crate::railroad::renderer::spec_entry;
use crate::railroad::renderer::spec_height;
use crate::railroad::renderer::spec_width;
use crate::railroad::renderer::spec_max_entry;
use crate::railroad::renderer::spec_max_height;
use crate::railroad::renderer::spec_max_strlen;
use crate::railroad::renderer::spec_max_width;
use crate::railroad::renderer::spec_seq_bot;
use crate::railroad::renderer::spec_total_height;
use crate::railroad::renderer::spec_total_width;
use crate::railroad::renderer::spec_wf;
use crate::railroad::renderer::spec_wf_list;
use crate::railroad::renderer::strs_view;

verus! {

/// Methods for locating a node relative to others, alongside rendering
/// the node. Every implementor models itself as a layout node, and each
/// method agrees exactly with that model's dimension and drawing
/// functions.
pub trait Draw {
    /// The layout node this value draws as.
    spec fn node_model(&self) -> NodeView;

    /// The number of rows from this element's top to where the entering,
    /// connecting path is drawn.
    fn entry_height(&self) -> (r: usize)
        requires
            spec_wf(self.node_model()),
            spec_dims_ok(self.node_model()),
        ensures
            r as int == spec_entry(self.node_model()),
    ;

    /// This primitive's total height.
    fn height(&self) -> (r: usize)
        requires
            spec_wf(self.node_model()),
            spec_dims_ok(self.node_model()),
        ensures
            r as int == spec_height(self.node_model()),
    ;

    /// This primitive's total width.
    fn width(&self) -> (r: usize)
        requires
            spec_wf(self.node_model()),
            spec_dims_ok(self.node_model()),
        ensures
            r as int == spec_width(self.node_model()),
    ;

    /// Draw this element.
    fn draw(&self) -> (r: Vec<String>)
        requires
            spec_wf(self.node_model()),
            spec_dims_ok(self.node_model()),
        ensures
            rows_match(r@, spec_draw(self.node_model())),
    ;
}

impl Draw for Node {
    open spec fn node_model(&self) -> NodeView {
        node_view(*self)
    }

    fn entry_height(&self) -> (r: usize) {
        node_entry(self)
    }

    fn height(&self) -> (r: usize) {
        node_height(self)
    }

    fn width(&self) -> (r: usize) {
        node_width(self)
    }

    fn draw(&self) -> (r: Vec<String>) {
        node_draw(self)
    }
}

impl Draw for Sequence {
    open spec fn node_model(&self) -> NodeView {
        NodeView::Sequence(node_views(self.children@))
    }

    fn entry_height(&self) -> (r: usize) {
        list_max_entry(&self.children)
    }

    fn height(&self) -> (r: usize) {
        proof {
            lemma_dims_list(node_views(self.children@));
        }
        let t = list_max_entry(&self.children);
        let b = list_seq_bot(&self.children);
        t + b
    }

    fn width(&self) -> (r: usize) {
        if self.children.len() == 0 {
            0
        } else {
            proof {
                lemma_dims_list(node_views(self.children@));
                crate::railroad::renderer::lemma_node_views_index(self.children@);
            }
            let tw = list_total_width(&self.children);
            tw + 2 * (self.children.len() - 1)
        }
    }

    fn draw(&self) -> (r: Vec<String>) {
        draw_sequence(self)
    }
}

impl Draw for Start {
    open spec fn node_model(&self) -> NodeView {
        NodeView::Start
    }

    fn entry_height(&self) -> (r: usize) {
        0
    }

    fn height(&self) -> (r: usize) {
        1
    }

    fn width(&self) -> (r: usize) {
        6
    }

    fn draw(&self) -> (r: Vec<String>) {
        draw_start()
    }
}

impl Draw for End {
    open spec fn node_model(&self) -> NodeView {
        NodeView::End
    }

    fn entry_height(&self) -> (r: usize) {
        0
    }

    fn height(&self) -> (r: usize) {
        1
    }

    fn width(&self) -> (r: usize) {
        4
    }

    fn draw(&self) -> (r: Vec<String>) {
        draw_end()
    }
}

impl Draw for Terminal {
    open spec fn node_model(&self) -> NodeView {
        NodeView::Terminal(self.text@)
    }

    fn entry_height(&self) -> (r: usize) {
        1
    }

    fn height(&self) -> (r: usize) {
        3
    }

    fn width(&self) -> (r: usize) {
        self.text.as_str().unicode_len() + 4
    }

    fn draw(&self) -> (r: Vec<String>) {
        draw_terminal(self)
    }
}

impl Draw for Anchor {
    open spec fn node_model(&self) -> NodeView {
        NodeView::Anchor(self.text@)
    }

    fn entry_height(&self) -> (r: usize) {
        1
    }

    fn height(&self) -> (r: usize) {
        3
    }

    fn width(&self) -> (r: usize) {
        self.text.as_str().unicode_len() + 2
    }

    fn draw(&self) -> (r: Vec<String>) {
        draw_anchor(self)
    }
}

impl Draw for Repetition {
    open spec fn node_model(&self) -> NodeView {
        NodeView::Repetition(Box::new(node_view(self.inner)), self.repetition)
    }

    fn entry_height(&self) -> (r: usize) {
        node_entry(&self.inner)
    }

    fn height(&self) -> (r: usize) {
        node_height(&self.inner) + 1
    }

    fn width(&self) -> (r: usize) {
        node_width(&self.inner) + 4
    }

    fn draw(&self) -> (r: Vec<String>) {
        draw_repetition(self)
    }
}

impl Draw for Optional {
    open spec fn node_model(&self) -> NodeView {
        NodeView::Optional(Box::new(node_view(self.inner)))
    }

    fn entry_height(&self) -> (r: usize) {
        proof {
            crate::railroad::renderer::lemma_dims(node_view(self.inner));
        }
        node_entry(&self.inner) + 1
    }

    fn height(&self) -> (r: usize) {
        node_height(&self.inner) + 1
    }

    fn width(&self) -> (r: usize) {
        node_width(&self.inner) + 4
    }

    fn draw(&self) -> (r: Vec<String>) {
        draw_optional(self)
    }
}

impl Draw for Choice {
    open spec fn node_model(&self) -> NodeView {
        NodeView::Choice(node_views(self.inner@))
    }

    fn entry_height(&self) -> (r: usize) {
        proof {
            lemma_dims_list(node_views(self.inner@));
        }
        let th = list_total_height(&self.inner);
        (th - 1) / 2
    }

    fn height(&self) -> (r: usize) {
        list_total_height(&self.inner)
    }

    fn width(&self) -> (r: usize) {
        list_max_width(&self.inner) + 2
    }

    fn draw(&self) -> (r: Vec<String>) {
        draw_choice(self)
    }
}

impl Draw for Stack {
    open spec fn node_model(&self) -> NodeView {
        NodeView::Stack(self.invert, strs_view(self.characters@))
    }

    fn entry_height(&self) -> (r: usize) {
        (self.characters.len() + 3) / 2
    }

    fn height(&self) -> (r: usize) {
        self.characters.len() + 3
    }

    fn width(&self) -> (r: usize) {
        proof {
            lemma_strlen_bounds(strs_view(self.characters@));
        }
        let m = list_max_strlen(&self.characters);
        if m + 2 >= 9 {
            m + 2
        } else {
            9
        }
    }

    fn draw(&self) -> (r: Vec<String>) {
        draw_stack(self)
    }
}

impl Draw for Capture {
    open spec fn node_model(&self) -> NodeView {
        NodeView::Capture(Box::new(node_view(self.inner)), self.name@)
    }

    fn entry_height(&self) -> (r: usize) {
        proof {
            crate::railroad::renderer::lemma_dims(node_view(self.inner));
        }
        node_entry(&self.inner) + 1
    }

    fn height(&self) -> (r: usize) {
        node_height(&self.inner) + 2
    }

    fn width(&self) -> (r: usize) {
        node_width(&self.inner) + 4
    }

    fn draw(&self) -> (r: Vec<String>) {
        draw_capture(self)
    }
}

/// Aggregate measures over a group of layout nodes.
pub trait DrawGroup {
    /// The models of the nodes in the group, in order.
    spec fn models(&self) -> Seq<NodeView>;

    /// The maximum `entry_height()`-value.
    fn max_entry_height(&self) -> (r: usize)
        requires
            spec_wf_list(self.models()),
            spec_dims_ok_list(self.models()),
        ensures
            r as int == spec_max_entry(self.models()),
    ;

    /// The maximum `height()`-value.
    fn max_height(&self) -> (r: usize)
        requires
            spec_wf_list(self.models()),
            spec_dims_ok_list(self.models()),
        ensures
            r as int == spec_max_height(self.models()),
    ;

    /// The maximum `width()`-value.
    fn max_width(&self) -> (r: usize)
        requires
            spec_wf_list(self.models()),
            spec_dims_ok_list(self.models()),
        ensures
            r as int == spec_max_width(self.models()),
    ;

    /// The sum of all `width()`-values.
    fn total_width(&self) -> (r: usize)
        requires
            spec_wf_list(self.models()),
            spec_dims_ok_list(self.models()),
            spec_total_width(self.models()) <= usize::MAX,
        ensures
            r as int == spec_total_width(self.models()),
    ;

    /// The sum of all `height()`-values.
    fn total_height(&self) -> (r: usize)
        requires
            spec_wf_list(self.models()),
            spec_dims_ok_list(self.models()),
            spec_total_height(self.models()) <= usize::MAX,
        ensures
            r as int == spec_total_height(self.models()),
    ;
}

impl DrawGroup for Vec<Node> {
    open spec fn models(&self) -> Seq<NodeView> {
        node_views(self@)
    }

    fn max_entry_height(&self) -> (r: usize) {
        list_max_entry(self)
    }

    fn max_height(&self) -> (r: usize) {
        list_max_height(self)
    }

    fn max_width(&self) -> (r: usize) {
        list_max_width(self)
    }

    fn total_width(&self) -> (r: usize) {
        list_total_width(self)
    }

    fn total_height(&self) -> (r: usize) {
        list_total_height(self)
    }
}

} // verus!

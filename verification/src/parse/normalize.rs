//! Lowering of the pre-parse carriers: `<script type="statica/slot">`
//! becomes the `<slot>` it stood for.

use vstd::prelude::*;

use crate::parse::ast::{nodes_view, tag_is, Element, ElementView, Node, NodeView};
use crate::parse::attrs::{attr_lookup, attrs_clone, attrs_shift_remove, remove_attr_spec};

verus! {

/// A `<script type="statica/slot">` carrier.
pub open spec fn is_slot_carrier(e: ElementView) -> bool {
    tag_is(e.name, "script"@) && attr_lookup(e.attrs, "type"@) == Some("statica/slot"@)
}

/// Every carrier in `s`, at any depth, lowered to a `<slot>`.
pub open spec fn normalize_nodes_spec(s: Seq<NodeView>) -> Seq<NodeView>
    decreases s,
{
    Seq::new(s.len(), |i: int| if 0 <= i < s.len() { normalize_node_spec(s[i]) } else { NodeView::Text(Seq::empty()) })
}

pub open spec fn normalize_node_spec(n: NodeView) -> NodeView
    decreases n,
{
    match n {
        NodeView::Element(e) => {
            let kids = normalize_nodes_spec(e.children);
            if is_slot_carrier(e) {
                NodeView::Element(
                    ElementView { name: "slot"@, attrs: remove_attr_spec(e.attrs, "type"@), children: kids, void: false },
                )
            } else {
                NodeView::Element(ElementView { children: kids, ..e })
            }
        },
        _ => n,
    }
}

impl Element {
    /// A `<script type="statica/slot">` written by the pre-pass.
    pub fn is_statica_slot_carrier(&self) -> (r: bool)
        ensures
            r == is_slot_carrier(self@),
    {
        proof {
            reveal_strlit("type");
            reveal_strlit("statica/slot");
        }
        self.is_script() && self.has_attr_value("type", "statica/slot")
    }
}

fn normalize_node(node: &Node) -> (r: Node)
    ensures
        r@ == normalize_node_spec(node@),
    decreases node,
{
    match node {
        Node::Element(el) => {
            let mut kids: Vec<Node> = Vec::new();
            let mut i: usize = 0;
            while i < el.children.len()
                invariant
                    i <= el.children@.len(),
                    *node == Node::Element(*el),
                    kids@.len() == i,
                    forall|k: int| 0 <= k < i ==> (#[trigger] kids@[k])@ == normalize_node_spec(el.children@[k]@),
                decreases el.children@.len() - i,
            {
                proof {
                    assert(decreases_to!(*node => (*node)->Element_0));
                    assert(decreases_to!(el.children => el.children@));
                    assert(decreases_to!(el.children@ => el.children@[i as int]));
                }
                kids.push(normalize_node(&el.children[i]));
                i += 1;
            }
            proof {
                assert(nodes_view(kids@) =~= normalize_nodes_spec(nodes_view(el.children@)));
            }
            let mut attrs = attrs_clone(&el.attrs);
            if el.is_statica_slot_carrier() {
                attrs_shift_remove(&mut attrs, "type");
                proof {
                    reveal_strlit("slot");
                }
                Node::Element(Element { name: String::from_str("slot"), attrs, children: kids, void: false })
            } else {
                Node::Element(Element { name: el.name.clone(), attrs, children: kids, void: el.void })
            }
        },
        _ => node.copy(),
    }
}

/// Lower pre-pass carriers back to authoring nodes
/// (`<script type="statica/slot">` → `<slot>`, its `type` removed), at any
/// depth.
pub fn normalize_authoring_nodes(nodes: &mut Vec<Node>)
    ensures
        nodes_view(final(nodes)@) == normalize_nodes_spec(nodes_view(old(nodes)@)),
{
    let mut out: Vec<Node> = Vec::new();
    let mut i: usize = 0;
    while i < nodes.len()
        invariant
            i <= nodes@.len(),
            out@.len() == i,
            forall|k: int| 0 <= k < i ==> (#[trigger] out@[k])@ == normalize_node_spec(nodes@[k]@),
        decreases nodes@.len() - i,
    {
        out.push(normalize_node(&nodes[i]));
        i += 1;
    }
    proof {
        assert(nodes_view(out@) =~= normalize_nodes_spec(nodes_view(nodes@)));
    }
    *nodes = out;
}

} // verus!

//! Fragment scripts that use the `$` scope helper are wrapped so they run
//! with the runtime bound to their fragment instance.

use vstd::prelude::*;

use crate::parse::ast::{nodes_view, tag_is, Element, ElementView, Node, NodeView};
use crate::parse::attrs::{insert_attr_spec, attrs_clone, attrs_insert, attrs_shift_remove, remove_attr_spec};
use crate::scope::js::{wrap_script_with_scope, wrapped_script_spec};
use crate::text::{contains, str_contains};

verus! {

/// The text children of a script, concatenated in order.
pub open spec fn script_body(s: Seq<NodeView>) -> Seq<char>
    decreases s.len(),
{
    if s.len() == 0 {
        Seq::empty()
    } else {
        script_body(s.drop_last()) + match s.last() {
            NodeView::Text(t) => t,
            _ => Seq::empty(),
        }
    }
}

/// A script that calls the `$` helper.
pub open spec fn uses_scope_helper(body: Seq<char>) -> bool {
    contains(body, "$."@) || contains(body, "$("@) || contains(body, "__staticaScope"@)
}

/// A script already bound to a scope.
pub open spec fn already_scoped(body: Seq<char>) -> bool {
    contains(body, "__staticaScope"@) || contains(body, "__statica.scope"@)
}

/// The nodes with each helper-using script wrapped for `scope_id`.
pub open spec fn rewrite_scripts_spec(s: Seq<NodeView>, scope_id: Seq<char>, runtime: Seq<char>) -> Seq<NodeView>
    decreases s,
{
    Seq::new(
        s.len(),
        |i: int| if 0 <= i < s.len() { rewrite_script_node(s[i], scope_id, runtime) } else { NodeView::Text(Seq::empty()) },
    )
}

/// A script that uses the helper and is not yet scoped becomes a classic
/// script (`type` removed) marked `data-statica-scope`, whose one text child
/// is the wrapped body; other scripts stay as they are; other elements have
/// their children rewritten.
pub open spec fn rewrite_script_node(n: NodeView, scope_id: Seq<char>, runtime: Seq<char>) -> NodeView
    decreases n,
{
    match n {
        NodeView::Element(e) => if tag_is(e.name, "script"@) {
            let body = script_body(e.children);
            if uses_scope_helper(body) && !already_scoped(body) {
                NodeView::Element(
                    ElementView {
                        attrs: insert_attr_spec(remove_attr_spec(e.attrs, "type"@), "data-statica-scope"@, scope_id),
                        children: seq![NodeView::Text(wrapped_script_spec(runtime, body, scope_id))],
                        ..e
                    },
                )
            } else {
                n
            }
        } else {
            NodeView::Element(ElementView { children: rewrite_scripts_spec(e.children, scope_id, runtime), ..e })
        },
        _ => n,
    }
}

fn script_text(children: &Vec<Node>) -> (r: String)
    ensures
        r@ == script_body(nodes_view(children@)),
{
    let ghost cv = nodes_view(children@);
    let mut out = String::new();
    let mut i: usize = 0;
    proof {
        assert(cv.take(0) =~= Seq::<NodeView>::empty());
    }
    while i < children.len()
        invariant
            i <= children@.len(),
            cv == nodes_view(children@),
            cv.len() == children@.len(),
            out@ == script_body(cv.take(i as int)),
        decreases children@.len() - i,
    {
        proof {
            assert(cv.take(i + 1).drop_last() =~= cv.take(i as int));
            assert(cv.take(i + 1).last() == children@[i as int]@);
        }
        match &children[i] {
            Node::Text(t) => {
                out.append(t.as_str());
            },
            _ => {},
        }
        proof {
            assert(out@ =~= script_body(cv.take(i + 1)));
        }
        i += 1;
    }
    proof {
        assert(cv.take(i as int) =~= cv);
    }
    out
}

fn rewrite_node(node: &Node, scope_id: &str, runtime: &str) -> (r: Node)
    ensures
        r@ == rewrite_script_node(node@, scope_id@, runtime@),
    decreases node,
{
    match node {
        Node::Element(el) => {
            if el.is_script() {
                let body = script_text(&el.children);
                proof {
                    reveal_strlit("$.");
                    reveal_strlit("$(");
                    reveal_strlit("__staticaScope");
                    reveal_strlit("__statica.scope");
                }
                let uses = str_contains(body.as_str(), "$.") || str_contains(body.as_str(), "$(")
                    || str_contains(body.as_str(), "__staticaScope");
                let scoped = str_contains(body.as_str(), "__staticaScope") || str_contains(
                    body.as_str(),
                    "__statica.scope",
                );
                if uses && !scoped {
                    let mut attrs = attrs_clone(&el.attrs);
                    attrs_shift_remove(&mut attrs, "type");
                    attrs_insert(&mut attrs, String::from_str("data-statica-scope"), String::from_str(scope_id));
                    let wrapped = wrap_script_with_scope(runtime, body.as_str(), scope_id);
                    let mut kids: Vec<Node> = Vec::new();
                    kids.push(Node::Text(wrapped));
                    proof {
                        reveal_strlit("type");
                        reveal_strlit("data-statica-scope");
                        assert(nodes_view(kids@) =~= seq![NodeView::Text(wrapped_script_spec(runtime@, body@, scope_id@))]);
                    }
                    Node::Element(Element { name: el.name.clone(), attrs, children: kids, void: el.void })
                } else {
                    node.copy()
                }
            } else {
                let mut kids: Vec<Node> = Vec::new();
                let mut i: usize = 0;
                while i < el.children.len()
                    invariant
                        i <= el.children@.len(),
                        *node == Node::Element(*el),
                        kids@.len() == i,
                        forall|k: int|
                            0 <= k < i ==> (#[trigger] kids@[k])@ == rewrite_script_node(
                                el.children@[k]@,
                                scope_id@,
                                runtime@,
                            ),
                    decreases el.children@.len() - i,
                {
                    proof {
                        assert(decreases_to!(*node => (*node)->Element_0));
                        assert(decreases_to!(el.children => el.children@));
                        assert(decreases_to!(el.children@ => el.children@[i as int]));
                    }
                    kids.push(rewrite_node(&el.children[i], scope_id, runtime));
                    i += 1;
                }
                proof {
                    assert(nodes_view(kids@) =~= rewrite_scripts_spec(nodes_view(el.children@), scope_id@, runtime@));
                }
                Node::Element(Element { name: el.name.clone(), attrs: attrs_clone(&el.attrs), children: kids, void: el.void })
            }
        },
        _ => node.copy(),
    }
}

/// Rewrite fragment scripts that reference `$` to bind the inlined scope
/// helper: `runtime` is the helper's source, inlined into each wrapped
/// script. Scripts already bound to a scope are left alone.
pub fn rewrite_scripts_in_nodes(nodes: &mut Vec<Node>, scope_id: &str, runtime: &str)
    ensures
        nodes_view(final(nodes)@) == rewrite_scripts_spec(nodes_view(old(nodes)@), scope_id@, runtime@),
{
    let mut out: Vec<Node> = Vec::new();
    let mut i: usize = 0;
    while i < nodes.len()
        invariant
            i <= nodes@.len(),
            out@.len() == i,
            forall|k: int| 0 <= k < i ==> (#[trigger] out@[k])@ == rewrite_script_node(nodes@[k]@, scope_id@, runtime@),
        decreases nodes@.len() - i,
    {
        out.push(rewrite_node(&nodes[i], scope_id, runtime));
        i += 1;
    }
    proof {
        assert(nodes_view(out@) =~= rewrite_scripts_spec(nodes_view(nodes@), scope_id@, runtime@));
    }
    *nodes = out;
}

} // verus!

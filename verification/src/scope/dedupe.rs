//! One copy of each scoped stylesheet and of the inlined scope helper per
//! page: a fragment used several times contributes them once.

use vstd::prelude::*;

use crate::parse::ast::{nodes_view, tag_is, Document, Element, ElementView, Node, NodeView};
use crate::parse::attrs::{attr_lookup, attrs_clone};
use crate::text::{
    char_index, chars_of, contains, contains_str, str_contains, find_at, find_char_in, find_from, lemma_find_from_bounds, string_range,
    views,
};

verus! {

// ---------------------------------------------------------------------------
// Styles

/// The first text child.
pub open spec fn first_text(s: Seq<NodeView>) -> Option<Seq<char>>
    decreases s.len(),
{
    if s.len() == 0 {
        None
    } else {
        match s[0] {
            NodeView::Text(t) => Some(t),
            _ => first_text(s.drop_first()),
        }
    }
}

/// The key a `<style>` is told apart by: the scope id of its first
/// `[data-s="…"]` selector, else its whole text; none without text or with
/// an unterminated scope id.
pub open spec fn style_key_spec(e: ElementView) -> Option<Seq<char>> {
    match first_text(e.children) {
        None => None,
        Some(css) => match find_from(css, "[data-s=\""@, 0) {
            Some(pos) => match char_index(css.skip(pos + 9), '"') {
                Some(j) => Some(css.subrange(pos + 9, pos + 9 + j)),
                None => None,
            },
            None => Some(css),
        },
    }
}

/// The nodes with every `<style>` whose key was seen before removed, in
/// document order, and the keys seen afterwards.
pub open spec fn dedupe_styles_spec(s: Seq<NodeView>, seen: Seq<Seq<char>>) -> (Seq<NodeView>, Seq<Seq<char>>)
    decreases s,
{
    if s.len() == 0 {
        (Seq::empty(), seen)
    } else {
        proof {
            assert(decreases_to!(s => s[s.len() - 1]));
        }
        let p = dedupe_styles_spec(s.drop_last(), seen);
        let h = dedupe_style_node(s[s.len() - 1], p.1);
        (p.0 + h.0, h.1)
    }
}

pub open spec fn dedupe_style_node(n: NodeView, seen: Seq<Seq<char>>) -> (Seq<NodeView>, Seq<Seq<char>>)
    decreases n,
{
    match n {
        NodeView::Element(e) => {
            let key = if tag_is(e.name, "style"@) {
                style_key_spec(e)
            } else {
                None
            };
            match key {
                Some(k) => if seen.contains(k) {
                    (Seq::empty(), seen)
                } else {
                    let kids = dedupe_styles_spec(e.children, seen.push(k));
                    (seq![NodeView::Element(ElementView { children: kids.0, ..e })], kids.1)
                },
                None => {
                    let kids = dedupe_styles_spec(e.children, seen);
                    (seq![NodeView::Element(ElementView { children: kids.0, ..e })], kids.1)
                },
            }
        },
        _ => (seq![n], seen),
    }
}

fn first_text_of(children: &Vec<Node>) -> (r: Option<&String>)
    ensures
        match r {
            Some(t) => first_text(nodes_view(children@)) == Some(t@),
            None => first_text(nodes_view(children@)) is None,
        },
{
    let ghost cv = nodes_view(children@);
    let mut i: usize = 0;
    proof {
        assert(cv.skip(0) =~= cv);
    }
    while i < children.len()
        invariant
            i <= children@.len(),
            cv == nodes_view(children@),
            cv.len() == children@.len(),
            first_text(cv) == first_text(cv.skip(i as int)),
        decreases children@.len() - i,
    {
        proof {
            assert(cv.skip(i as int)[0] == children@[i as int]@);
            assert(cv.skip(i as int).drop_first() =~= cv.skip(i + 1));
        }
        match &children[i] {
            Node::Text(t) => {
                return Some(t);
            },
            _ => {},
        }
        i += 1;
    }
    None
}

fn style_key(el: &Element) -> (r: Option<String>)
    ensures
        match r {
            Some(k) => style_key_spec(el@) == Some(k@),
            None => style_key_spec(el@) is None,
        },
{
    match first_text_of(&el.children) {
        None => None,
        Some(css) => {
            let v = chars_of(css.as_str());
            let marker = chars_of("[data-s=\"");
            proof {
                reveal_strlit("[data-s=\"");
            }
            match find_at(v.as_slice(), 0, marker.as_slice()) {
                Some(pos) => {
                    proof {
                        lemma_find_from_bounds(v@, marker@, 0);
                        assert(marker@.len() == 9);
                        assert(crate::text::match_at(v@, marker@, pos as int));
                    }
                    let start = pos + 9;
                    match find_char_in(v.as_slice(), start, v.len(), '"') {
                        Some(j) => {
                            proof {
                                assert(v@.subrange(start as int, v@.len() as int) =~= v@.skip(start as int));
                            }
                            Some(string_range(v.as_slice(), start, j))
                        },
                        None => {
                            proof {
                                assert(v@.subrange(start as int, v@.len() as int) =~= v@.skip(start as int));
                            }
                            None
                        },
                    }
                },
                None => Some(css.clone()),
            }
        },
    }
}

fn dedupe_style(node: &Node, seen: &mut Vec<String>) -> (r: Option<Node>)
    ensures
        dedupe_style_node(node@, views(old(seen)@)) == (
            match r {
                Some(n) => seq![n@],
                None => Seq::<NodeView>::empty(),
            },
            views(final(seen)@),
        ),
    decreases node,
{
    match node {
        Node::Element(el) => {
            let key = if el.is_style() {
                style_key(el)
            } else {
                None
            };
            let ghost seen0 = views(seen@);
            match &key {
                Some(k) => {
                    if contains_str(seen.as_slice(), k.as_str()) {
                        return None;
                    }
                    seen.push(k.clone());
                    proof {
                        assert(views(seen@) =~= seen0.push(k@));
                    }
                },
                None => {},
            }
            let ghost seen1 = views(seen@);
            let ghost cv = nodes_view(el.children@);
            let mut kids: Vec<Node> = Vec::new();
            let mut i: usize = 0;
            proof {
                assert(cv.take(0) =~= Seq::<NodeView>::empty());
                assert(nodes_view(kids@) =~= Seq::<NodeView>::empty());
            }
            while i < el.children.len()
                invariant
                    i <= el.children@.len(),
                    *node == Node::Element(*el),
                    cv == nodes_view(el.children@),
                    cv.len() == el.children@.len(),
                    (nodes_view(kids@), views(seen@)) == dedupe_styles_spec(cv.take(i as int), seen1),
                decreases el.children@.len() - i,
            {
                proof {
                    assert(decreases_to!(*node => (*node)->Element_0));
                    assert(decreases_to!(el.children => el.children@));
                    assert(decreases_to!(el.children@ => el.children@[i as int]));
                    assert(cv.take(i + 1).drop_last() =~= cv.take(i as int));
                    assert(cv.take(i + 1)[i as int] == el.children@[i as int]@);
                }
                let ghost before = nodes_view(kids@);
                match dedupe_style(&el.children[i], seen) {
                    Some(n) => {
                        kids.push(n);
                        proof {
                            assert(nodes_view(kids@) =~= before + seq![n@]);
                        }
                    },
                    None => {
                        proof {
                            assert(nodes_view(kids@) =~= before + Seq::<NodeView>::empty());
                        }
                    },
                }
                i += 1;
            }
            proof {
                assert(cv.take(i as int) =~= cv);
            }
            Some(Node::Element(Element { name: el.name.clone(), attrs: attrs_clone(&el.attrs), children: kids, void: el.void }))
        },
        _ => Some(node.copy()),
    }
}

/// Keep the first `<style>` of each scope (or text) in document order and
/// remove the later copies, at any depth.
pub fn dedupe_styles_in_document(doc: &mut Document)
    ensures
        final(doc)@.children == dedupe_styles_spec(old(doc)@.children, Seq::empty()).0,
        final(doc)@.doctype == old(doc)@.doctype,
{
    let ghost cv = nodes_view(doc.children@);
    let mut seen: Vec<String> = Vec::new();
    let mut out: Vec<Node> = Vec::new();
    let mut i: usize = 0;
    proof {
        assert(cv.take(0) =~= Seq::<NodeView>::empty());
        assert(nodes_view(out@) =~= Seq::<NodeView>::empty());
        assert(views(seen@) =~= Seq::<Seq<char>>::empty());
    }
    while i < doc.children.len()
        invariant
            i <= doc.children@.len(),
            cv == nodes_view(doc.children@),
            cv.len() == doc.children@.len(),
            (nodes_view(out@), views(seen@)) == dedupe_styles_spec(cv.take(i as int), Seq::empty()),
        decreases doc.children@.len() - i,
    {
        proof {
            assert(cv.take(i + 1).drop_last() =~= cv.take(i as int));
            assert(cv.take(i + 1)[i as int] == doc.children@[i as int]@);
        }
        let ghost before = nodes_view(out@);
        match dedupe_style(&doc.children[i], &mut seen) {
            Some(n) => {
                out.push(n);
                proof {
                    assert(nodes_view(out@) =~= before + seq![n@]);
                }
            },
            None => {
                proof {
                    assert(nodes_view(out@) =~= before + Seq::<NodeView>::empty());
                }
            },
        }
        i += 1;
    }
    proof {
        assert(cv.take(i as int) =~= cv);
    }
    doc.children = out;
}

// ---------------------------------------------------------------------------
// The scope helper

/// A script body that carries the inlined scope helper.
pub open spec fn has_helper(body: Seq<char>) -> bool {
    contains(body, "function __staticaScope"@) || contains(body, "__statica.scope"@)
}

/// A later copy of the helper, cut down to the part after the helper: from
/// `(function (scriptEl)` on, else from `const $ =` on with `$` bound to
/// `scope` by the shared helper, else as it was.
pub open spec fn trimmed_helper(body: Seq<char>, scope: Seq<char>) -> Seq<char> {
    match find_from(body, "(function (scriptEl)"@, 0) {
        Some(i) => body.skip(i),
        None => match find_from(body, "const $ ="@, 0) {
            Some(i) => "const $ = __statica.scope(document.currentScript, \""@ + scope + "\");\n"@ + body.skip(i),
            None => body,
        },
    }
}

/// The scope a script is bound to (empty when unmarked).
pub open spec fn script_scope(e: ElementView) -> Seq<char> {
    match attr_lookup(e.attrs, "data-statica-scope"@) {
        Some(v) => v,
        None => Seq::empty(),
    }
}

/// What one element does to the helper: the new text of its first child,
/// if it changes, and whether a helper has been seen afterwards.
pub open spec fn helper_step(e: ElementView, seen: bool) -> (Option<Seq<char>>, bool) {
    if tag_is(e.name, "script"@) && e.children.len() > 0 && e.children[0] is Text && has_helper(
        e.children[0]->Text_0,
    ) {
        if seen {
            (Some(trimmed_helper(e.children[0]->Text_0, script_scope(e))), true)
        } else {
            (None, true)
        }
    } else {
        (None, seen)
    }
}

/// The nodes with every helper after the first one in document order cut
/// down (see [`trimmed_helper`]), and whether a helper was seen.
pub open spec fn dedupe_helpers_spec(s: Seq<NodeView>, seen: bool) -> (Seq<NodeView>, bool)
    decreases s,
{
    if s.len() == 0 {
        (Seq::empty(), seen)
    } else {
        proof {
            assert(decreases_to!(s => s[s.len() - 1]));
        }
        let p = dedupe_helpers_spec(s.drop_last(), seen);
        let h = dedupe_helper_node(s[s.len() - 1], p.1);
        (p.0.push(h.0), h.1)
    }
}

pub open spec fn dedupe_helper_node(n: NodeView, seen: bool) -> (NodeView, bool)
    decreases n,
{
    match n {
        NodeView::Element(e) => {
            let st = helper_step(e, seen);
            let kids = dedupe_helpers_spec(e.children, st.1);
            let children = match st.0 {
                Some(b) => kids.0.update(0, NodeView::Text(b)),
                None => kids.0,
            };
            (NodeView::Element(ElementView { children, ..e }), kids.1)
        },
        _ => (n, seen),
    }
}

fn trim_helper(body: &str, scope: &str) -> (r: String)
    ensures
        r@ == trimmed_helper(body@, scope@),
{
    let v = chars_of(body);
    let start = chars_of("(function (scriptEl)");
    let decl = chars_of("const $ =");
    proof {
        reveal_strlit("(function (scriptEl)");
        reveal_strlit("const $ =");
        lemma_find_from_bounds(v@, start@, 0);
        lemma_find_from_bounds(v@, decl@, 0);
    }
    match find_at(v.as_slice(), 0, start.as_slice()) {
        Some(i) => {
            proof {
                assert(v@.subrange(i as int, v@.len() as int) =~= v@.skip(i as int));
            }
            string_range(v.as_slice(), i, v.len())
        },
        None => match find_at(v.as_slice(), 0, decl.as_slice()) {
            Some(i) => {
                proof {
                    assert(v@.subrange(i as int, v@.len() as int) =~= v@.skip(i as int));
                }
                let mut out = String::from_str("const $ = __statica.scope(document.currentScript, \"");
                out.append(scope);
                out.append("\");\n");
                out.append(string_range(v.as_slice(), i, v.len()).as_str());
                out
            },
            None => String::from_str(body),
        },
    }
}

fn step_of(el: &Element, seen: bool) -> (r: (Option<String>, bool))
    ensures
        helper_step(el@, seen) == (
            match r.0 {
                Some(b) => Some(b@),
                None => None,
            },
            r.1,
        ),
{
    proof {
        reveal_strlit("function __staticaScope");
        reveal_strlit("__statica.scope");
        reveal_strlit("data-statica-scope");
    }
    if el.is_script() && el.children.len() > 0 {
        proof {
            assert(el@.children[0] == el.children@[0]@);
        }
        match &el.children[0] {
            Node::Text(body) => {
                if str_contains(body.as_str(), "function __staticaScope") || str_contains(
                    body.as_str(),
                    "__statica.scope",
                ) {
                    if seen {
                        let scope = match el.attr("data-statica-scope") {
                            Some(v) => v,
                            None => "",
                        };
                        proof {
                            reveal_strlit("");
                        }
                        (Some(trim_helper(body.as_str(), scope)), true)
                    } else {
                        (None, true)
                    }
                } else {
                    (None, seen)
                }
            },
            _ => (None, seen),
        }
    } else {
        (None, seen)
    }
}

fn dedupe_helper(node: &Node, seen: &mut bool) -> (r: Node)
    ensures
        dedupe_helper_node(node@, *old(seen)) == (r@, *final(seen)),
    decreases node,
{
    match node {
        Node::Element(el) => {
            let st = step_of(el, *seen);
            *seen = st.1;
            let ghost seen1 = *seen;
            let ghost cv = nodes_view(el.children@);
            let mut kids: Vec<Node> = Vec::new();
            let mut i: usize = 0;
            proof {
                assert(cv.take(0) =~= Seq::<NodeView>::empty());
                assert(nodes_view(kids@) =~= Seq::<NodeView>::empty());
            }
            while i < el.children.len()
                invariant
                    i <= el.children@.len(),
                    *node == Node::Element(*el),
                    cv == nodes_view(el.children@),
                    cv.len() == el.children@.len(),
                    kids@.len() == i,
                    (nodes_view(kids@), *seen) == dedupe_helpers_spec(cv.take(i as int), seen1),
                decreases el.children@.len() - i,
            {
                proof {
                    assert(decreases_to!(*node => (*node)->Element_0));
                    assert(decreases_to!(el.children => el.children@));
                    assert(decreases_to!(el.children@ => el.children@[i as int]));
                    assert(cv.take(i + 1).drop_last() =~= cv.take(i as int));
                    assert(cv.take(i + 1)[i as int] == el.children@[i as int]@);
                }
                let ghost before = nodes_view(kids@);
                let n = dedupe_helper(&el.children[i], seen);
                kids.push(n);
                proof {
                    assert(nodes_view(kids@) =~= before.push(n@));
                }
                i += 1;
            }
            proof {
                assert(cv.take(i as int) =~= cv);
            }
            let ghost walked = nodes_view(kids@);
            match st.0 {
                Some(b) => {
                    let ghost bv = b@;
                    kids.set(0, Node::Text(b));
                    proof {
                        assert(nodes_view(kids@) =~= walked.update(0, NodeView::Text(bv)));
                    }
                },
                None => {},
            }
            Node::Element(Element { name: el.name.clone(), attrs: attrs_clone(&el.attrs), children: kids, void: el.void })
        },
        _ => node.copy(),
    }
}

/// Keep the first inlined scope helper of the page and cut every later
/// copy down to its own part, bound to its scope through the shared helper.
pub fn dedupe_helpers_in_document(doc: &mut Document)
    ensures
        final(doc)@.children == dedupe_helpers_spec(old(doc)@.children, false).0,
        final(doc)@.doctype == old(doc)@.doctype,
{
    let ghost cv = nodes_view(doc.children@);
    let mut seen = false;
    let mut out: Vec<Node> = Vec::new();
    let mut i: usize = 0;
    proof {
        assert(cv.take(0) =~= Seq::<NodeView>::empty());
        assert(nodes_view(out@) =~= Seq::<NodeView>::empty());
    }
    while i < doc.children.len()
        invariant
            i <= doc.children@.len(),
            cv == nodes_view(doc.children@),
            cv.len() == doc.children@.len(),
            (nodes_view(out@), seen) == dedupe_helpers_spec(cv.take(i as int), false),
        decreases doc.children@.len() - i,
    {
        proof {
            assert(cv.take(i + 1).drop_last() =~= cv.take(i as int));
            assert(cv.take(i + 1)[i as int] == doc.children@[i as int]@);
        }
        let ghost before = nodes_view(out@);
        let n = dedupe_helper(&doc.children[i], &mut seen);
        out.push(n);
        proof {
            assert(nodes_view(out@) =~= before.push(n@));
        }
        i += 1;
    }
    proof {
        assert(cv.take(i as int) =~= cv);
    }
    doc.children = out;
}

} // verus!

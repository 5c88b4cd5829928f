//! Serialize the owned tree back to HTML text, and the text and attribute
//! escaping it uses.

use vstd::prelude::*;

use crate::parse::ast::{element_view, node_view, nodes_view, Document, DocumentView, Element, ElementView, Node, NodeView};
use crate::parse::attrs::{attr_entries, attrs_get_index, attrs_len};
use crate::text::{chars_of, push_char};

verus! {

/// Text-node escaping of one character.
pub open spec fn escape_text_char(c: char) -> Seq<char> {
    if c == '&' {
        "&amp;"@
    } else if c == '<' {
        "&lt;"@
    } else if c == '>' {
        "&gt;"@
    } else {
        seq![c]
    }
}

/// Attribute-value (double-quoted) escaping of one character.
pub open spec fn escape_attr_char(c: char) -> Seq<char> {
    if c == '&' {
        "&amp;"@
    } else if c == '"' {
        "&quot;"@
    } else if c == '<' {
        "&lt;"@
    } else {
        seq![c]
    }
}

/// `s` with every character replaced by its text escape.
pub open spec fn escape_text_spec(s: Seq<char>) -> Seq<char>
    decreases s.len(),
{
    if s.len() == 0 {
        Seq::empty()
    } else {
        escape_text_spec(s.drop_last()) + escape_text_char(s.last())
    }
}

/// `s` with every character replaced by its attribute escape.
pub open spec fn escape_attr_spec(s: Seq<char>) -> Seq<char>
    decreases s.len(),
{
    if s.len() == 0 {
        Seq::empty()
    } else {
        escape_attr_spec(s.drop_last()) + escape_attr_char(s.last())
    }
}

/// Escape `&`, `<` and `>` for a text node.
pub fn escape_text(s: &str) -> (r: String)
    ensures
        r@ == escape_text_spec(s@),
{
    let v = chars_of(s);
    let mut out = String::new();
    let mut i: usize = 0;
    proof {
        assert(v@.take(0) =~= Seq::<char>::empty());
    }
    while i < v.len()
        invariant
            i <= v@.len(),
            v@ == s@,
            out@ == escape_text_spec(v@.take(i as int)),
        decreases v@.len() - i,
    {
        let c = v[i];
        proof {
            assert(v@.take(i + 1).drop_last() =~= v@.take(i as int));
            assert(v@.take(i + 1).last() == c);
        }
        if c == '&' {
            out.append("&amp;");
        } else if c == '<' {
            out.append("&lt;");
        } else if c == '>' {
            out.append("&gt;");
        } else {
            push_char(&mut out, c);
        }
        i += 1;
    }
    proof {
        assert(v@.take(v@.len() as int) =~= v@);
    }
    out
}

/// Escape `&`, `"` and `<` for a double-quoted attribute value.
pub fn escape_attr(s: &str) -> (r: String)
    ensures
        r@ == escape_attr_spec(s@),
{
    let v = chars_of(s);
    let mut out = String::new();
    let mut i: usize = 0;
    proof {
        assert(v@.take(0) =~= Seq::<char>::empty());
    }
    while i < v.len()
        invariant
            i <= v@.len(),
            v@ == s@,
            out@ == escape_attr_spec(v@.take(i as int)),
        decreases v@.len() - i,
    {
        let c = v[i];
        proof {
            assert(v@.take(i + 1).drop_last() =~= v@.take(i as int));
            assert(v@.take(i + 1).last() == c);
        }
        if c == '&' {
            out.append("&amp;");
        } else if c == '"' {
            out.append("&quot;");
        } else if c == '<' {
            out.append("&lt;");
        } else {
            push_char(&mut out, c);
        }
        i += 1;
    }
    proof {
        assert(v@.take(v@.len() as int) =~= v@);
    }
    out
}

/// Escaped text holds no `<` or `>`: a text node cannot open or close a tag.
pub proof fn lemma_escaped_text_has_no_angle_brackets(s: Seq<char>)
    ensures
        !escape_text_spec(s).contains('<'),
        !escape_text_spec(s).contains('>'),
    decreases s.len(),
{
    if s.len() > 0 {
        lemma_escaped_text_has_no_angle_brackets(s.drop_last());
        let p = escape_text_spec(s.drop_last());
        let e = escape_text_char(s.last());
        reveal_strlit("&amp;");
        reveal_strlit("&lt;");
        reveal_strlit("&gt;");
        assert forall|i: int| 0 <= i < (p + e).len() implies (p + e)[i] != '<' && (p + e)[i] != '>' by {
            if i < p.len() {
                assert((p + e)[i] == p[i]);
                assert(!p.contains('<'));
                assert(p[i] != '<' && p[i] != '>') by {
                    if p[i] == '<' {
                        assert(p.contains('<'));
                    }
                    if p[i] == '>' {
                        assert(p.contains('>'));
                    }
                }
            } else {
                assert((p + e)[i] == e[i - p.len()]);
            }
        }
    }
}

/// An escaped attribute value holds no `"`: it cannot end its quotes early.
pub proof fn lemma_escaped_attr_has_no_quote(s: Seq<char>)
    ensures
        !escape_attr_spec(s).contains('"'),
    decreases s.len(),
{
    if s.len() > 0 {
        lemma_escaped_attr_has_no_quote(s.drop_last());
        let p = escape_attr_spec(s.drop_last());
        let e = escape_attr_char(s.last());
        reveal_strlit("&amp;");
        reveal_strlit("&lt;");
        reveal_strlit("&quot;");
        assert forall|i: int| 0 <= i < (p + e).len() implies (p + e)[i] != '"' by {
            if i < p.len() {
                assert((p + e)[i] == p[i]);
                if p[i] == '"' {
                    assert(p.contains('"'));
                }
            } else {
                assert((p + e)[i] == e[i - p.len()]);
            }
        }
    }
}

// ---------------------------------------------------------------------------
// Serializing the tree

/// ` name="value"` for each attribute, values escaped.
pub open spec fn attrs_html(a: Seq<(Seq<char>, Seq<char>)>) -> Seq<char>
    decreases a.len(),
{
    if a.len() == 0 {
        Seq::empty()
    } else {
        attrs_html(a.drop_last()) + " "@ + a.last().0 + "=\""@ + escape_attr_spec(a.last().1) + "\""@
    }
}

/// A node as HTML: text as held, comments in `<!--…-->`, elements with their
/// attributes and children (void elements self-closed).
pub open spec fn node_html(n: NodeView) -> Seq<char>
    decreases n,
{
    match n {
        NodeView::Text(t) => t,
        NodeView::Comment(c) => "<!--"@ + c + "-->"@,
        NodeView::Element(e) => element_html(e),
    }
}

pub open spec fn element_html(e: ElementView) -> Seq<char>
    decreases e,
{
    let open = "<"@ + e.name + attrs_html(e.attrs);
    if e.void {
        open + " />"@
    } else {
        open + ">"@ + nodes_html(e.children) + "</"@ + e.name + ">"@
    }
}

pub open spec fn nodes_html(s: Seq<NodeView>) -> Seq<char>
    decreases s,
{
    if s.len() == 0 {
        Seq::empty()
    } else {
        proof {
            assert(decreases_to!(s => s[s.len() - 1]));
        }
        nodes_html(s.drop_last()) + node_html(s[s.len() - 1])
    }
}

/// A document as HTML: `<!DOCTYPE …>` and a newline when it has one, then its nodes.
pub open spec fn document_html(d: DocumentView) -> Seq<char> {
    let head = match d.doctype {
        Some(dt) => "<!DOCTYPE "@ + dt + ">\n"@,
        None => Seq::empty(),
    };
    head + nodes_html(d.children)
}

fn write_attrs(el: &Element, out: &mut String)
    ensures
        final(out)@ == old(out)@ + attrs_html(attr_entries(el.attrs)),
{
    let ghost start = out@;
    let ghost a = attr_entries(el.attrs);
    let n = attrs_len(&el.attrs);
    let mut i: usize = 0;
    proof {
        assert(a.take(0) =~= Seq::<(Seq<char>, Seq<char>)>::empty());
    }
    while i < n
        invariant
            i <= n,
            n == a.len(),
            a == attr_entries(el.attrs),
            out@ == start + attrs_html(a.take(i as int)),
        decreases n - i,
    {
        match attrs_get_index(&el.attrs, i) {
            Some((k, v)) => {
                proof {
                    assert(a.take(i + 1).drop_last() =~= a.take(i as int));
                    assert(a.take(i + 1).last() == (k@, v@));
                }
                out.append(" ");
                out.append(k.as_str());
                out.append("=\"");
                let e = escape_attr(v.as_str());
                out.append(e.as_str());
                out.append("\"");
            },
            None => {},
        }
        i += 1;
    }
    proof {
        assert(a.take(n as int) =~= a);
    }
}

fn write_node(node: &Node, out: &mut String)
    ensures
        final(out)@ == old(out)@ + node_html(node@),
    decreases node,
{
    match node {
        Node::Text(t) => {
            out.append(t.as_str());
        },
        Node::Comment(c) => {
            out.append("<!--");
            out.append(c.as_str());
            out.append("-->");
        },
        Node::Element(el) => {
            proof {
                assert(decreases_to!(*node => (*node)->Element_0));
            }
            write_element(el, out);
        },
    }
}

fn write_element(el: &Element, out: &mut String)
    ensures
        final(out)@ == old(out)@ + element_html(el@),
    decreases el,
{
    let ghost start = out@;
    out.append("<");
    out.append(el.name.as_str());
    write_attrs(el, out);
    if el.void {
        out.append(" />");
        return;
    }
    out.append(">");
    let ghost mid = out@;
    let ghost kids = nodes_view(el.children@);
    let mut i: usize = 0;
    proof {
        assert(kids.take(0) =~= Seq::<NodeView>::empty());
    }
    while i < el.children.len()
        invariant
            i <= el.children@.len(),
            kids == nodes_view(el.children@),
            out@ == mid + nodes_html(kids.take(i as int)),
        decreases el.children@.len() - i,
    {
        proof {
            assert(decreases_to!(el.children => el.children@));
            assert(decreases_to!(el.children@ => el.children@[i as int]));
            assert(kids.take(i + 1).drop_last() =~= kids.take(i as int));
            assert(kids.take(i + 1)[i as int] == el.children@[i as int]@);
        }
        write_node(&el.children[i], out);
        i += 1;
    }
    proof {
        assert(kids.take(el.children@.len() as int) =~= kids);
    }
    out.append("</");
    out.append(el.name.as_str());
    out.append(">");
}

/// Serialize a list of nodes.
pub fn serialize_nodes(nodes: &[Node]) -> (r: String)
    ensures
        r@ == nodes_html(nodes_view(nodes@)),
{
    let ghost kids = nodes_view(nodes@);
    let mut out = String::new();
    let mut i: usize = 0;
    proof {
        assert(kids.take(0) =~= Seq::<NodeView>::empty());
    }
    while i < nodes.len()
        invariant
            i <= nodes@.len(),
            kids == nodes_view(nodes@),
            out@ == nodes_html(kids.take(i as int)),
        decreases nodes@.len() - i,
    {
        proof {
            assert(kids.take(i + 1).drop_last() =~= kids.take(i as int));
            assert(kids.take(i + 1)[i as int] == nodes@[i as int]@);
        }
        write_node(&nodes[i], &mut out);
        i += 1;
    }
    proof {
        assert(kids.take(nodes@.len() as int) =~= kids);
    }
    out
}

/// Serialize a document.
pub fn serialize_document(doc: &Document) -> (r: String)
    ensures
        r@ == document_html(doc@),
{
    let mut out = String::new();
    match &doc.doctype {
        Some(dt) => {
            out.append("<!DOCTYPE ");
            out.append(dt.as_str());
            out.append(">\n");
        },
        None => {},
    }
    let body = serialize_nodes(doc.children.as_slice());
    out.append(body.as_str());
    out
}

} // verus!

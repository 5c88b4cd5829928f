//! Render planning for mostly-static HTML trees: a document or fragment is
//! compiled once into static HTML chunks interleaved with the dynamic steps
//! (templates, slots, fragment mounts) that each render fills in.

use vstd::prelude::*;

use crate::context::{root_named, CanonicalRoot};
use crate::funnel::json::{is_authoring_link, is_rel_link};
use crate::text::{
    char_index, chars_of, contains, find_at, find_char_in, find_from, has_prefix, lemma_char_index,
    lemma_find_from_bounds, match_at, nonempty_parts, split_nonempty, split_on, str_contains, str_eq,
    str_starts_with, string_range, trim, trim_str, views,
};
use crate::parse::ast::{
    is_default_slot, is_mount, is_named_slot, nodes_view, tag_is, Document, Element, ElementView, Node, NodeView,
};
use crate::parse::attrs::{attr_entries, attr_lookup, attrs_get_index, attrs_len};
use crate::parse::serialize::{escape_attr, escape_attr_spec};
use crate::tokens::{REL_DATA, REL_FRAGMENT};

verus! {

/// How a page is rendered.
#[derive(Debug, Clone, Copy, PartialEq, Eq)]
pub enum PageRenderer {
    /// Evaluate a prepared [`RenderPlan`] by stitching static HTML chunks and dynamic ops.
    CompiledPlan,
    /// Clone and mutate the tree, then serialize the resulting document.
    AstMutation,
}

/// One step of a render plan.
#[derive(Debug)]
pub enum Op {
    /// HTML written as is.
    Static(String),
    /// An attribute value with `${path}` placeholders.
    AttrTemplate(String),
    /// A `data-t` template rendered as text.
    TextTemplate(String),
    /// `<slot name>`: the projected content for that name.
    NamedSlot(String),
    /// `<slot>`: the projected default content, else this fallback.
    DefaultSlot(Vec<Op>),
    /// `<slot id>`: mount a fragment (optionally once per `data-each` item).
    Mount { id: String, each: Option<String>, children: Vec<Op> },
}

/// Mathematical value of an [`Op`].
#[verifier::ext_equal]
pub enum OpView {
    Static(Seq<char>),
    AttrTemplate(Seq<char>),
    TextTemplate(Seq<char>),
    NamedSlot(Seq<char>),
    DefaultSlot(Seq<OpView>),
    Mount { id: Seq<char>, each: Option<Seq<char>>, children: Seq<OpView> },
}

pub open spec fn op_view(o: Op) -> OpView
    decreases o,
{
    match o {
        Op::Static(s) => OpView::Static(s@),
        Op::AttrTemplate(s) => OpView::AttrTemplate(s@),
        Op::TextTemplate(s) => OpView::TextTemplate(s@),
        Op::NamedSlot(s) => OpView::NamedSlot(s@),
        Op::DefaultSlot(v) => OpView::DefaultSlot(ops_view(v@)),
        Op::Mount { id, each, children } => OpView::Mount {
            id: id@,
            each: match each {
                Some(e) => Some(e@),
                None => None,
            },
            children: ops_view(children@),
        },
    }
}

pub open spec fn ops_view(s: Seq<Op>) -> Seq<OpView>
    decreases s,
{
    Seq::new(s.len(), |i: int| if 0 <= i < s.len() { op_view(s[i]) } else { OpView::Static(Seq::empty()) })
}

impl View for Op {
    type V = OpView;

    open spec fn view(&self) -> OpView {
        op_view(*self)
    }
}

/// A compiled document or fragment.
#[derive(Debug)]
pub struct RenderPlan {
    doctype: Option<String>,
    ops: Vec<Op>,
}

/// Mathematical value of a [`RenderPlan`].
#[verifier::ext_equal]
pub struct PlanOps {
    pub doctype: Option<Seq<char>>,
    pub ops: Seq<OpView>,
}

impl View for RenderPlan {
    type V = PlanOps;

    closed spec fn view(&self) -> PlanOps {
        PlanOps {
            doctype: match self.doctype {
                Some(d) => Some(d@),
                None => None,
            },
            ops: ops_view(self.ops@),
        }
    }
}

// ---------------------------------------------------------------------------
// Static text

/// Append static HTML: nothing for empty text; merged into a trailing
/// static chunk; else a new chunk.
pub open spec fn push_static_spec(ops: Seq<OpView>, text: Seq<char>) -> Seq<OpView> {
    if text.len() == 0 {
        ops
    } else if ops.len() > 0 && ops.last() is Static {
        ops.update(ops.len() - 1, OpView::Static(ops.last()->Static_0 + text))
    } else {
        ops.push(OpView::Static(text))
    }
}

fn push_static(ops: &mut Vec<Op>, text: &str)
    ensures
        ops_view(final(ops)@) == push_static_spec(ops_view(old(ops)@), text@),
{
    let ghost before = ops_view(ops@);
    if text.unicode_len() == 0 {
        return;
    }
    match ops.pop() {
        Some(Op::Static(prev)) => {
            let mut p = prev;
            p.append(text);
            ops.push(Op::Static(p));
            proof {
                assert(ops_view(ops@) =~= push_static_spec(before, text@));
            }
        },
        Some(other) => {
            ops.push(other);
            ops.push(Op::Static(String::from_str(text)));
            proof {
                assert(ops_view(ops@) =~= push_static_spec(before, text@));
            }
        },
        None => {
            ops.push(Op::Static(String::from_str(text)));
            proof {
                assert(ops_view(ops@) =~= push_static_spec(before, text@));
            }
        },
    }
}

impl RenderPlan {
    /// The plan's steps.
    pub fn ops(&self) -> (r: &[Op])
        ensures
            ops_view(r@) == self@.ops,
    {
        self.ops.as_slice()
    }

    /// Write `<!DOCTYPE …>` and a newline when the plan has a doctype.
    pub fn write_doctype(&self, out: &mut String)
        ensures
            final(out)@ == old(out)@ + match self@.doctype {
                Some(d) => "<!DOCTYPE "@ + d + ">\n"@,
                None => Seq::empty(),
            },
    {
        match &self.doctype {
            Some(d) => {
                out.append("<!DOCTYPE ");
                out.append(d.as_str());
                out.append(">\n");
            },
            None => {},
        }
    }
}

// ---------------------------------------------------------------------------
// Compiling

/// `(target, template)` of each `data-t-{target}` attribute, in order.
pub open spec fn translated_targets(a: Seq<(Seq<char>, Seq<char>)>) -> Seq<(Seq<char>, Seq<char>)>
    decreases a.len(),
{
    if a.len() == 0 {
        Seq::empty()
    } else {
        translated_targets(a.drop_last()) + if has_prefix(a.last().0, "data-t-"@) {
            seq![(a.last().0.skip(7), a.last().1)]
        } else {
            Seq::empty()
        }
    }
}

/// The template for attribute `name`, from the first marker targeting it.
pub open spec fn target_lookup(ts: Seq<(Seq<char>, Seq<char>)>, name: Seq<char>) -> Option<Seq<char>>
    decreases ts.len(),
{
    if ts.len() == 0 {
        None
    } else if ts[0].0 == name {
        Some(ts[0].1)
    } else {
        target_lookup(ts.drop_first(), name)
    }
}

/// Script and style contents are raw text.
pub open spec fn is_raw_text(e: ElementView) -> bool {
    tag_is(e.name, "script"@) || tag_is(e.name, "style"@)
}

/// Attributes that never reach the output: translation markers, and
/// `data-bind` on `<html>`.
pub open spec fn attr_skipped(e: ElementView, name: Seq<char>) -> bool {
    (name == "data-bind"@ && tag_is(e.name, "html"@)) || name == "data-t"@ || has_prefix(name, "data-t-"@)
}

/// One attribute of `e`: skipped, or ` name="…"` whose value is its
/// translation template, an attribute template, or the escaped value.
pub open spec fn attr_op(ops: Seq<OpView>, e: ElementView, kv: (Seq<char>, Seq<char>)) -> Seq<OpView> {
    if attr_skipped(e, kv.0) {
        ops
    } else {
        let o1 = push_static_spec(push_static_spec(push_static_spec(ops, " "@), kv.0), "=\""@);
        let o2 = match target_lookup(translated_targets(e.attrs), kv.0) {
            Some(t) => o1.push(OpView::TextTemplate(t)),
            None => if contains(kv.1, "${"@) && !is_raw_text(e) {
                o1.push(OpView::AttrTemplate(kv.1))
            } else {
                push_static_spec(o1, escape_attr_spec(kv.1))
            },
        };
        push_static_spec(o2, "\""@)
    }
}

pub open spec fn attrs_ops(ops: Seq<OpView>, e: ElementView, a: Seq<(Seq<char>, Seq<char>)>) -> Seq<OpView>
    decreases a.len(),
{
    if a.len() == 0 {
        ops
    } else {
        attr_op(attrs_ops(ops, e, a.drop_last()), e, a.last())
    }
}

/// Translated attributes the element does not have yet, appended.
pub open spec fn extra_targets_ops(ops: Seq<OpView>, e: ElementView, ts: Seq<(Seq<char>, Seq<char>)>) -> Seq<OpView>
    decreases ts.len(),
{
    if ts.len() == 0 {
        ops
    } else {
        let pre = extra_targets_ops(ops, e, ts.drop_last());
        let t = ts.last();
        if attr_lookup(e.attrs, t.0) is Some {
            pre
        } else {
            push_static_spec(
                push_static_spec(push_static_spec(push_static_spec(pre, " "@), t.0), "=\""@).push(OpView::TextTemplate(t.1)),
                "\""@,
            )
        }
    }
}

/// Raw text children (script, style) as static text; other children dropped.
pub open spec fn raw_children_ops(ops: Seq<OpView>, s: Seq<NodeView>) -> Seq<OpView>
    decreases s.len(),
{
    if s.len() == 0 {
        ops
    } else {
        let pre = raw_children_ops(ops, s.drop_last());
        match s.last() {
            NodeView::Text(t) => push_static_spec(pre, t),
            _ => pre,
        }
    }
}

/// A `<slot>` with `id` and no `name`: a fragment mount.
/// Compile nodes after `ops`.
pub open spec fn nodes_ops(ops: Seq<OpView>, s: Seq<NodeView>) -> Seq<OpView>
    decreases s,
{
    if s.len() == 0 {
        ops
    } else {
        proof {
            assert(decreases_to!(s => s[s.len() - 1]));
        }
        node_ops(nodes_ops(ops, s.drop_last()), s[s.len() - 1])
    }
}

/// Compile one node after `ops`: text and comments as static HTML, authoring
/// links dropped, slots as their slot steps, other elements as HTML.
pub open spec fn node_ops(ops: Seq<OpView>, n: NodeView) -> Seq<OpView>
    decreases n,
{
    match n {
        NodeView::Text(t) => push_static_spec(ops, t),
        NodeView::Comment(c) => push_static_spec(ops, "<!--"@ + c + "-->"@),
        NodeView::Element(e) => if is_authoring_link(e) {
            ops
        } else if is_mount(e) {
            ops.push(OpView::Mount {
                id: attr_lookup(e.attrs, "id"@)->0,
                each: attr_lookup(e.attrs, "data-each"@),
                children: nodes_ops(Seq::empty(), e.children),
            })
        } else if is_named_slot(e) {
            ops.push(OpView::NamedSlot(attr_lookup(e.attrs, "name"@)->0))
        } else if is_default_slot(e) {
            ops.push(OpView::DefaultSlot(nodes_ops(Seq::empty(), e.children)))
        } else {
            element_ops(ops, e)
        },
    }
}

/// An element as HTML: start tag with its attributes, then (unless void) the
/// `data-t` template, the raw text, or the compiled children, and the end tag.
pub open spec fn element_ops(ops: Seq<OpView>, e: ElementView) -> Seq<OpView>
    decreases e,
{
    let o1 = push_static_spec(push_static_spec(ops, "<"@), e.name);
    let o2 = extra_targets_ops(attrs_ops(o1, e, e.attrs), e, translated_targets(e.attrs));
    if e.void {
        push_static_spec(o2, " />"@)
    } else {
        let o3 = push_static_spec(o2, ">"@);
        let o4 = match attr_lookup(e.attrs, "data-t"@) {
            Some(t) => o3.push(OpView::TextTemplate(t)),
            None => if is_raw_text(e) {
                raw_children_ops(o3, e.children)
            } else {
                nodes_ops(o3, e.children)
            },
        };
        push_static_spec(push_static_spec(push_static_spec(o4, "</"@), e.name), ">"@)
    }
}

fn translated_list(el: &Element) -> (r: Vec<(String, String)>)
    ensures
        r@.map_values(|p: (String, String)| (p.0@, p.1@)) == translated_targets(el@.attrs),
{
    let ghost e = attr_entries(el.attrs);
    let n = attrs_len(&el.attrs);
    let mut out: Vec<(String, String)> = Vec::new();
    let mut i: usize = 0;
    proof {
        assert(e.take(0) =~= Seq::<(Seq<char>, Seq<char>)>::empty());
        assert(out@.map_values(|p: (String, String)| (p.0@, p.1@)) =~= Seq::<(Seq<char>, Seq<char>)>::empty());
    }
    while i < n
        invariant
            i <= n,
            n == e.len(),
            e == attr_entries(el.attrs),
            out@.map_values(|p: (String, String)| (p.0@, p.1@)) == translated_targets(e.take(i as int)),
        decreases n - i,
    {
        match attrs_get_index(&el.attrs, i) {
            Some((k, v)) => {
                proof {
                    assert(e.take(i + 1).drop_last() =~= e.take(i as int));
                    assert(e.take(i + 1).last() == (k@, v@));
                    reveal_strlit("data-t-");
                }
                let ghost before = out@.map_values(|p: (String, String)| (p.0@, p.1@));
                if str_starts_with(k.as_str(), "data-t-") {
                    let t = k.as_str().substring_char(7, k.unicode_len());
                    out.push((String::from_str(t), v.clone()));
                    proof {
                        assert(out@.map_values(|p: (String, String)| (p.0@, p.1@)) =~= before + seq![(k@.skip(7), v@)]);
                    }
                } else {
                    proof {
                        assert(before + Seq::<(Seq<char>, Seq<char>)>::empty() =~= before);
                    }
                }
            },
            None => {},
        }
        i += 1;
    }
    proof {
        assert(e.take(n as int) =~= e);
    }
    out
}

fn lookup_target<'a>(ts: &'a Vec<(String, String)>, name: &str) -> (r: Option<&'a String>)
    ensures
        match r {
            Some(t) => target_lookup(ts@.map_values(|p: (String, String)| (p.0@, p.1@)), name@) == Some(t@),
            None => target_lookup(ts@.map_values(|p: (String, String)| (p.0@, p.1@)), name@) is None,
        },
{
    let ghost tv = ts@.map_values(|p: (String, String)| (p.0@, p.1@));
    let mut i: usize = 0;
    proof {
        assert(tv.skip(0) =~= tv);
    }
    while i < ts.len()
        invariant
            i <= ts@.len(),
            tv == ts@.map_values(|p: (String, String)| (p.0@, p.1@)),
            target_lookup(tv, name@) == target_lookup(tv.skip(i as int), name@),
        decreases ts@.len() - i,
    {
        proof {
            assert(tv.skip(i as int)[0] == (ts@[i as int].0@, ts@[i as int].1@));
            assert(tv.skip(i as int).drop_first() =~= tv.skip(i + 1));
        }
        if str_eq(ts[i].0.as_str(), name) {
            return Some(&ts[i].1);
        }
        i += 1;
    }
    proof {
        assert(tv.skip(i as int) =~= Seq::<(Seq<char>, Seq<char>)>::empty());
    }
    None
}

fn is_skipped(el: &Element, name: &str) -> (r: bool)
    ensures
        r == attr_skipped(el@, name@),
{
    (str_eq(name, "data-bind") && el.name_is_html()) || str_eq(name, "data-t") || str_starts_with(name, "data-t-")
}

fn compile_attrs(el: &Element, ops: &mut Vec<Op>)
    ensures
        ops_view(final(ops)@) == extra_targets_ops(
            attrs_ops(ops_view(old(ops)@), el@, el@.attrs),
            el@,
            translated_targets(el@.attrs),
        ),
{
    let ghost start = ops_view(ops@);
    let ghost e = attr_entries(el.attrs);
    let ts = translated_list(el);
    let ghost tv = ts@.map_values(|p: (String, String)| (p.0@, p.1@));
    let raw = el.is_script() || el.is_style();
    let n = attrs_len(&el.attrs);
    let mut i: usize = 0;
    proof {
        assert(e.take(0) =~= Seq::<(Seq<char>, Seq<char>)>::empty());
    }
    while i < n
        invariant
            i <= n,
            n == e.len(),
            e == attr_entries(el.attrs),
            e == el@.attrs,
            tv == ts@.map_values(|p: (String, String)| (p.0@, p.1@)),
            tv == translated_targets(el@.attrs),
            raw == is_raw_text(el@),
            ops_view(ops@) == attrs_ops(start, el@, e.take(i as int)),
        decreases n - i,
    {
        match attrs_get_index(&el.attrs, i) {
            Some((k, v)) => {
                proof {
                    assert(e.take(i + 1).drop_last() =~= e.take(i as int));
                    assert(e.take(i + 1).last() == (k@, v@));
                    reveal_strlit("${");
                }
                if !is_skipped(el, k.as_str()) {
                    push_static(ops, " ");
                    push_static(ops, k.as_str());
                    push_static(ops, "=\"");
                    match lookup_target(&ts, k.as_str()) {
                        Some(t) => {
                            ops.push(Op::TextTemplate(t.clone()));
                        },
                        None => {
                            if str_contains(v.as_str(), "${") && !raw {
                                ops.push(Op::AttrTemplate(v.clone()));
                            } else {
                                let esc = escape_attr(v.as_str());
                                push_static(ops, esc.as_str());
                            }
                        },
                    }
                    push_static(ops, "\"");
                }
            },
            None => {},
        }
        i += 1;
    }
    proof {
        assert(e.take(n as int) =~= e);
    }
    let ghost mid = ops_view(ops@);
    let mut j: usize = 0;
    proof {
        assert(tv.take(0) =~= Seq::<(Seq<char>, Seq<char>)>::empty());
    }
    while j < ts.len()
        invariant
            j <= ts@.len(),
            tv == ts@.map_values(|p: (String, String)| (p.0@, p.1@)),
            ops_view(ops@) == extra_targets_ops(mid, el@, tv.take(j as int)),
        decreases ts@.len() - j,
    {
        proof {
            assert(tv.take(j + 1).drop_last() =~= tv.take(j as int));
            assert(tv.take(j + 1).last() == (ts@[j as int].0@, ts@[j as int].1@));
        }
        let (name, value) = (&ts[j].0, &ts[j].1);
        if el.attr(name.as_str()).is_none() {
            push_static(ops, " ");
            push_static(ops, name.as_str());
            push_static(ops, "=\"");
            ops.push(Op::TextTemplate(value.clone()));
            push_static(ops, "\"");
        }
        j += 1;
    }
    proof {
        assert(tv.take(ts@.len() as int) =~= tv);
    }
}

fn compile_raw_children(el: &Element, ops: &mut Vec<Op>)
    ensures
        ops_view(final(ops)@) == raw_children_ops(ops_view(old(ops)@), nodes_view(el.children@)),
{
    let ghost start = ops_view(ops@);
    let ghost kids = nodes_view(el.children@);
    let mut i: usize = 0;
    proof {
        assert(kids.take(0) =~= Seq::<NodeView>::empty());
    }
    while i < el.children.len()
        invariant
            i <= el.children@.len(),
            kids == nodes_view(el.children@),
            ops_view(ops@) == raw_children_ops(start, kids.take(i as int)),
        decreases el.children@.len() - i,
    {
        proof {
            assert(kids.take(i + 1).drop_last() =~= kids.take(i as int));
            assert(kids.take(i + 1).last() == el.children@[i as int]@);
        }
        match &el.children[i] {
            Node::Text(t) => push_static(ops, t.as_str()),
            _ => {},
        }
        i += 1;
    }
    proof {
        assert(kids.take(el.children@.len() as int) =~= kids);
    }
}

fn compile_node(node: &Node, ops: &mut Vec<Op>)
    ensures
        ops_view(final(ops)@) == node_ops(ops_view(old(ops)@), node@),
    decreases node,
{
    let ghost start = ops_view(ops@);
    match node {
        Node::Text(t) => {
            push_static(ops, t.as_str());
            proof {
                assert(ops_view(ops@) == node_ops(start, node@));
            }
        },
        Node::Comment(c) => {
            let mut s = String::from_str("<!--");
            s.append(c.as_str());
            s.append("-->");
            push_static(ops, s.as_str());
            proof {
                assert(ops_view(ops@) == node_ops(start, node@));
            }
        },
        Node::Element(el) => {
            proof {
                assert(decreases_to!(*node => (*node)->Element_0));
            }
            let authoring = el.is_link() && match el.attr("rel") {
                Some(rel) => crate::text::has_word(rel, REL_DATA) || crate::text::has_word(rel, REL_FRAGMENT),
                None => false,
            };
            let ghost pre = ops_view(ops@);
            proof {
                assert(node@ == NodeView::Element(el@));
            }
            if authoring {
                proof {
                    assert(is_authoring_link(el@));
                }
                return;
            }
            let slot = el.is_slot();
            let id = el.attr("id");
            let name = el.attr("name");
            if slot && id.is_some() && name.is_none() {
                let mut children: Vec<Op> = Vec::new();
                proof {
                    assert(ops_view(children@) =~= Seq::<OpView>::empty());
                }
                compile_children(el, &mut children);
                let each = match el.attr("data-each") {
                    Some(e) => Some(String::from_str(e)),
                    None => None,
                };
                let id_s = match id {
                    Some(i) => String::from_str(i),
                    None => String::new(),
                };
                let ghost cv = ops_view(children@);
                ops.push(Op::Mount { id: id_s, each, children });
                proof {
                    assert(is_mount(el@));
                    assert(ops_view(ops@) =~= pre.push(OpView::Mount {
                        id: attr_lookup(el@.attrs, "id"@)->0,
                        each: attr_lookup(el@.attrs, "data-each"@),
                        children: cv,
                    }));
                }
            } else if slot && name.is_some() && id.is_none() {
                let name_s = match name {
                    Some(n) => String::from_str(n),
                    None => String::new(),
                };
                ops.push(Op::NamedSlot(name_s));
                proof {
                    assert(ops_view(ops@) =~= pre.push(OpView::NamedSlot(attr_lookup(el@.attrs, "name"@)->0)));
                }
            } else if slot && name.is_none() && id.is_none() {
                let mut children: Vec<Op> = Vec::new();
                proof {
                    assert(ops_view(children@) =~= Seq::<OpView>::empty());
                }
                compile_children(el, &mut children);
                let ghost cv = ops_view(children@);
                ops.push(Op::DefaultSlot(children));
                proof {
                    assert(ops_view(ops@) =~= pre.push(OpView::DefaultSlot(cv)));
                }
            } else {
                compile_element(el, ops);
            }
            proof {
                assert(ops_view(ops@) == node_ops(start, node@));
            }
        },
    }
}

fn compile_children(el: &Element, ops: &mut Vec<Op>)
    ensures
        ops_view(final(ops)@) == nodes_ops(ops_view(old(ops)@), nodes_view(el.children@)),
    decreases el, 0nat,
{
    let ghost start = ops_view(ops@);
    let ghost kids = nodes_view(el.children@);
    let mut i: usize = 0;
    proof {
        assert(kids.take(0) =~= Seq::<NodeView>::empty());
    }
    while i < el.children.len()
        invariant
            i <= el.children@.len(),
            kids == nodes_view(el.children@),
            ops_view(ops@) == nodes_ops(start, kids.take(i as int)),
        decreases el.children@.len() - i,
    {
        proof {
            assert(decreases_to!(el.children => el.children@));
            assert(decreases_to!(el.children@ => el.children@[i as int]));
            assert(kids.take(i + 1).drop_last() =~= kids.take(i as int));
            assert(kids.take(i + 1)[i as int] == el.children@[i as int]@);
        }
        compile_node(&el.children[i], ops);
        i += 1;
    }
    proof {
        assert(kids.take(el.children@.len() as int) =~= kids);
    }
}

fn compile_element(el: &Element, ops: &mut Vec<Op>)
    ensures
        ops_view(final(ops)@) == element_ops(ops_view(old(ops)@), el@),
    decreases el, 1nat,
{
    push_static(ops, "<");
    push_static(ops, el.name.as_str());
    compile_attrs(el, ops);
    if el.void {
        push_static(ops, " />");
        return;
    }
    push_static(ops, ">");
    match el.attr("data-t") {
        Some(t) => {
            ops.push(Op::TextTemplate(String::from_str(t)));
        },
        None => {
            if el.is_script() || el.is_style() {
                compile_raw_children(el, ops);
            } else {
                compile_children(el, ops);
            }
        },
    }
    push_static(ops, "</");
    push_static(ops, el.name.as_str());
    push_static(ops, ">");
}

fn compile_nodes(nodes: &[Node]) -> (r: Vec<Op>)
    ensures
        ops_view(r@) == nodes_ops(Seq::empty(), nodes_view(nodes@)),
{
    let ghost kids = nodes_view(nodes@);
    let mut ops: Vec<Op> = Vec::new();
    let mut i: usize = 0;
    proof {
        assert(kids.take(0) =~= Seq::<NodeView>::empty());
        assert(ops_view(ops@) =~= Seq::<OpView>::empty());
    }
    while i < nodes.len()
        invariant
            i <= nodes@.len(),
            kids == nodes_view(nodes@),
            ops_view(ops@) == nodes_ops(Seq::empty(), kids.take(i as int)),
        decreases nodes@.len() - i,
    {
        proof {
            assert(kids.take(i + 1).drop_last() =~= kids.take(i as int));
            assert(kids.take(i + 1)[i as int] == nodes@[i as int]@);
        }
        compile_node(&nodes[i], &mut ops);
        i += 1;
    }
    proof {
        assert(kids.take(nodes@.len() as int) =~= kids);
    }
    ops
}

impl RenderPlan {
    /// Compile a whole document.
    pub fn compile_document(doc: &Document) -> (r: Self)
        ensures
            r@.doctype == doc@.doctype,
            r@.ops == nodes_ops(Seq::empty(), doc@.children),
    {
        let doctype = match &doc.doctype {
            Some(d) => Some(d.clone()),
            None => None,
        };
        RenderPlan { doctype, ops: compile_nodes(doc.children.as_slice()) }
    }

    /// Compile a fragment's template children (no doctype).
    pub fn compile_fragment(children: &[Node]) -> (r: Self)
        ensures
            r@.doctype is None,
            r@.ops == nodes_ops(Seq::empty(), nodes_view(children@)),
    {
        RenderPlan { doctype: None, ops: compile_nodes(children) }
    }
}

// ---------------------------------------------------------------------------
// Linked data roots

/// The data root a bound path reads: its first segment, unless that is
/// `this` or a canonical page-context root.
pub open spec fn path_root_spec(path: Seq<char>) -> Option<Seq<char>> {
    let parts = nonempty_parts(split_on(trim(path), '.'));
    if parts.len() > 0 && parts[0] != "this"@ && root_named(parts[0]) is None {
        Some(parts[0])
    } else {
        None
    }
}

/// The `${…}` paths of a template from position `pos` on (an unclosed `${`
/// ends the scan).
pub open spec fn template_paths_from(s: Seq<char>, pos: int) -> Seq<Seq<char>>
    decreases s.len() + 1 - pos,
{
    if pos < 0 || pos > s.len() {
        Seq::empty()
    } else {
        match find_from(s, "${"@, pos) {
            None => Seq::empty(),
            Some(k) => {
                proof {
                    reveal_strlit("${");
                    lemma_find_from_bounds(s, "${"@, pos);
                }
                match char_index(s.subrange(k + 2, s.len() as int), '}') {
                    None => Seq::empty(),
                    Some(e) => {
                        proof {
                            lemma_char_index(s.subrange(k + 2, s.len() as int), '}');
                        }
                        seq![s.subrange(k + 2, k + 2 + e)] + template_paths_from(s, k + 3 + e)
                    },
                }
            },
        }
    }
}

/// The roots among some paths, in order.
pub open spec fn roots_of(paths: Seq<Seq<char>>) -> Seq<Seq<char>>
    decreases paths.len(),
{
    if paths.len() == 0 {
        Seq::empty()
    } else {
        roots_of(paths.drop_last()) + match path_root_spec(paths.last()) {
            Some(r) => seq![r],
            None => Seq::empty(),
        }
    }
}

/// Every root a plan's steps read, in order (with repeats).
pub open spec fn ops_roots(s: Seq<OpView>) -> Seq<Seq<char>>
    decreases s,
{
    if s.len() == 0 {
        Seq::empty()
    } else {
        proof {
            assert(decreases_to!(s => s[s.len() - 1]));
        }
        ops_roots(s.drop_last()) + op_roots(s[s.len() - 1])
    }
}

pub open spec fn op_roots(o: OpView) -> Seq<Seq<char>>
    decreases o,
{
    match o {
        OpView::Static(_) => Seq::empty(),
        OpView::AttrTemplate(t) => roots_of(template_paths_from(t, 0)),
        OpView::TextTemplate(t) => roots_of(template_paths_from(t, 0)),
        OpView::NamedSlot(name) => roots_of(seq![name]),
        OpView::DefaultSlot(children) => ops_roots(children),
        OpView::Mount { id, each, children } => match each {
            Some(e) => roots_of(seq![e]) + ops_roots(children),
            None => ops_roots(children),
        },
    }
}

/// The texts a list of strings holds.
pub open spec fn text_set(v: Seq<String>) -> Set<Seq<char>> {
    Set::new(|x: Seq<char>| exists|i: int| 0 <= i < v.len() && v[i]@ == x)
}

/// Whether no text occurs twice.
pub open spec fn no_repeats(v: Seq<String>) -> bool {
    forall|i: int, j: int| 0 <= i < j < v.len() ==> #[trigger] v[i]@ != #[trigger] v[j]@
}

/// The members of a sequence, as a set.
pub open spec fn seq_set(s: Seq<Seq<char>>) -> Set<Seq<char>> {
    Set::new(|x: Seq<char>| s.contains(x))
}

proof fn lemma_seq_set_append(a: Seq<Seq<char>>, b: Seq<Seq<char>>)
    ensures
        seq_set(a + b) == seq_set(a) + seq_set(b),
{
    assert forall|x: Seq<char>| seq_set(a + b).contains(x) <==> (seq_set(a) + seq_set(b)).contains(x) by {
        if (a + b).contains(x) {
            let i = choose|i: int| 0 <= i < (a + b).len() && (a + b)[i] == x;
            if i < a.len() {
                assert(a[i] == x);
            } else {
                assert(b[i - a.len()] == x);
            }
        }
        if a.contains(x) {
            let i = choose|i: int| 0 <= i < a.len() && a[i] == x;
            assert((a + b)[i] == x);
        }
        if b.contains(x) {
            let i = choose|i: int| 0 <= i < b.len() && b[i] == x;
            assert((a + b)[a.len() + i] == x);
        }
    }
    assert(seq_set(a + b) =~= seq_set(a) + seq_set(b));
}

/// Add `r` unless it is already there.
fn add_root(roots: &mut Vec<String>, r: String)
    requires
        no_repeats(old(roots)@),
    ensures
        no_repeats(final(roots)@),
        text_set(final(roots)@) == text_set(old(roots)@).insert(r@),
{
    let mut i: usize = 0;
    while i < roots.len()
        invariant
            i <= roots@.len(),
            no_repeats(roots@),
            forall|j: int| 0 <= j < i ==> roots@[j]@ != r@,
        decreases roots@.len() - i,
    {
        if str_eq(roots[i].as_str(), r.as_str()) {
            proof {
                assert(text_set(roots@).contains(r@));
                assert(text_set(roots@).insert(r@) =~= text_set(roots@));
            }
            return;
        }
        i += 1;
    }
    let ghost before = roots@;
    let ghost rv = r@;
    roots.push(r);
    proof {
        assert forall|x: Seq<char>| text_set(roots@).contains(x) <==> text_set(before).insert(rv).contains(x) by {
            if text_set(roots@).contains(x) {
                let j = choose|j: int| 0 <= j < roots@.len() && roots@[j]@ == x;
                if j < before.len() {
                    assert(before[j]@ == x);
                }
            }
            if text_set(before).contains(x) {
                let j = choose|j: int| 0 <= j < before.len() && before[j]@ == x;
                assert(roots@[j]@ == x);
            }
            if x == rv {
                assert(roots@[before.len() as int]@ == x);
            }
        }
        assert(text_set(roots@) =~= text_set(before).insert(rv));
    }
}

fn collect_path_root(path: &str, roots: &mut Vec<String>)
    requires
        no_repeats(old(roots)@),
    ensures
        no_repeats(final(roots)@),
        text_set(final(roots)@) == text_set(old(roots)@) + seq_set(roots_of(seq![path@])),
{
    proof {
        reveal_strlit("this");
        assert(seq![path@].drop_last() =~= Seq::<Seq<char>>::empty());
        assert(roots_of(Seq::<Seq<char>>::empty()) == Seq::<Seq<char>>::empty());
    }
    let t = trim_str(path);
    let parts = split_nonempty(t.as_str(), '.');
    if parts.len() > 0 && !str_eq(parts[0].as_str(), "this") && CanonicalRoot::from_str(parts[0].as_str()).is_none() {
        proof {
            assert(views(parts@)[0] == parts@[0]@);
            assert(seq![path@].last() == path@);
            assert(path_root_spec(path@) == Some(parts@[0]@));
            assert(roots_of(seq![path@]) =~= seq![parts@[0]@]);
            assert forall|y: Seq<char>| seq![parts@[0]@].contains(y) <==> y == parts@[0]@ by {
                if y == parts@[0]@ {
                    assert(seq![parts@[0]@][0] == y);
                }
            }
            assert(seq_set(seq![parts@[0]@]) =~= Set::<Seq<char>>::empty().insert(parts@[0]@));
            assert(text_set(roots@) + Set::<Seq<char>>::empty().insert(parts@[0]@) =~= text_set(roots@).insert(parts@[0]@));
        }
        add_root(roots, parts[0].clone());
    } else {
        proof {
            if parts@.len() > 0 {
                assert(views(parts@)[0] == parts@[0]@);
            }
            assert(seq![path@].last() == path@);
            assert(path_root_spec(path@) is None);
            assert(roots_of(seq![path@]) =~= Seq::<Seq<char>>::empty());
            assert(seq_set(Seq::<Seq<char>>::empty()) =~= Set::<Seq<char>>::empty());
            assert(text_set(roots@) + Set::<Seq<char>>::empty() =~= text_set(roots@));
        }
    }
}

proof fn lemma_roots_of_append(a: Seq<Seq<char>>, b: Seq<Seq<char>>)
    ensures
        roots_of(a + b) == roots_of(a) + roots_of(b),
    decreases b.len(),
{
    if b.len() == 0 {
        assert(a + b =~= a);
        assert(roots_of(a) + roots_of(b) =~= roots_of(a));
    } else {
        lemma_roots_of_append(a, b.drop_last());
        assert((a + b).drop_last() =~= a + b.drop_last());
        assert((a + b).last() == b.last());
        let tail = match path_root_spec(b.last()) {
            Some(r) => seq![r],
            None => Seq::<Seq<char>>::empty(),
        };
        assert(roots_of(a) + roots_of(b.drop_last()) + tail =~= roots_of(a) + (roots_of(b.drop_last()) + tail));
    }
}

fn collect_template_roots(template: &str, roots: &mut Vec<String>)
    requires
        no_repeats(old(roots)@),
    ensures
        no_repeats(final(roots)@),
        text_set(final(roots)@) == text_set(old(roots)@) + seq_set(roots_of(template_paths_from(template@, 0))),
{
    let v = chars_of(template);
    let pat = chars_of("${");
    proof {
        reveal_strlit("${");
    }
    let ghost start = text_set(roots@);
    let ghost all = template_paths_from(v@, 0);
    let ghost mut done: Seq<Seq<char>> = Seq::empty();
    let mut pos: usize = 0;
    let mut go = true;
    proof {
        assert(roots_of(done) =~= Seq::<Seq<char>>::empty());
        assert(start + seq_set(Seq::<Seq<char>>::empty()) =~= start);
        assert(done + template_paths_from(v@, 0) =~= all);
    }
    while go
        invariant
            v@ == template@,
            pat@ == "${"@,
            pos <= v@.len(),
            no_repeats(roots@),
            all == template_paths_from(v@, 0),
            go ==> all == done + template_paths_from(v@, pos as int),
            !go ==> all == done,
            text_set(roots@) == start + seq_set(roots_of(done)),
        decreases 2 * (v@.len() + 1 - pos) + (if go { 1int } else { 0int }),
    {
        match find_at(v.as_slice(), pos, pat.as_slice()) {
            None => {
                proof {
                    assert(template_paths_from(v@, pos as int) =~= Seq::<Seq<char>>::empty());
                    assert(done + Seq::<Seq<char>>::empty() =~= done);
                }
                go = false;
            },
            Some(k) => {
                proof {
                    reveal_strlit("${");
                    lemma_find_from_bounds(v@, "${"@, pos as int);
                    assert("${"@.len() == 2);
                    assert(match_at(v@, "${"@, k as int));
                    assert(k + 2 <= v@.len());
                }
                let n = v.len();
                match find_char_in(v.as_slice(), k + 2, n, '}') {
                    None => {
                        proof {
                            assert(template_paths_from(v@, pos as int) =~= Seq::<Seq<char>>::empty());
                            assert(done + Seq::<Seq<char>>::empty() =~= done);
                        }
                        go = false;
                    },
                    Some(end) => {
                        let path = string_range(v.as_slice(), k + 2, end);
                        let ghost before_done = done;
                        proof {
                            let e = (end - (k + 2)) as int;
                            assert(v@.subrange(k + 2, k + 2 + e) == path@);
                            assert(template_paths_from(v@, pos as int) == seq![path@] + template_paths_from(v@, (end + 1) as int));
                            lemma_roots_of_append(done, seq![path@]);
                            lemma_seq_set_append(roots_of(done), roots_of(seq![path@]));
                            done = done + seq![path@];
                            assert(all =~= done + template_paths_from(v@, (end + 1) as int));
                            assert(start + seq_set(roots_of(done)) =~= start + seq_set(roots_of(before_done)) + seq_set(roots_of(seq![path@])));
                        }
                        collect_path_root(path.as_str(), roots);
                        pos = end + 1;
                    },
                }
            },
        }
    }
}

fn collect_op(op: &Op, roots: &mut Vec<String>)
    requires
        no_repeats(old(roots)@),
    ensures
        no_repeats(final(roots)@),
        text_set(final(roots)@) == text_set(old(roots)@) + seq_set(op_roots(op@)),
    decreases op,
{
    let ghost start = text_set(roots@);
    match op {
        Op::Static(_) => {
            proof {
                assert(seq_set(Seq::<Seq<char>>::empty()) =~= Set::<Seq<char>>::empty());
                assert(start + Set::<Seq<char>>::empty() =~= start);
            }
        },
        Op::AttrTemplate(t) => collect_template_roots(t.as_str(), roots),
        Op::TextTemplate(t) => collect_template_roots(t.as_str(), roots),
        Op::NamedSlot(name) => collect_path_root(name.as_str(), roots),
        Op::DefaultSlot(children) => {
            proof {
                assert(decreases_to!(*op => (*op)->DefaultSlot_0));
            }
            collect_children_roots(op, children, roots);
        },
        Op::Mount { id: _, each, children } => {
            match each {
                Some(e) => collect_path_root(e.as_str(), roots),
                None => {
                    proof {
                        assert(start + seq_set(Seq::<Seq<char>>::empty()) =~= start);
                    }
                },
            }
            let ghost mid = text_set(roots@);
            proof {
                assert(decreases_to!(*op => (*op)->Mount_children));
            }
            collect_children_roots(op, children, roots);
            proof {
                let er = match each {
                    Some(e) => roots_of(seq![e@]),
                    None => Seq::<Seq<char>>::empty(),
                };
                lemma_seq_set_append(er, ops_roots(ops_view(children@)));
                match each {
                    Some(e) => {},
                    None => {
                        assert(er + ops_roots(ops_view(children@)) =~= ops_roots(ops_view(children@)));
                        assert(seq_set(er) =~= Set::<Seq<char>>::empty());
                        assert(mid =~= start);
                    },
                }
                assert(text_set(roots@) =~= start + seq_set(op_roots(op@)));
            }
        },
    }
}

fn collect_children_roots(op: &Op, children: &Vec<Op>, roots: &mut Vec<String>)
    requires
        no_repeats(old(roots)@),
        decreases_to!(*op => *children),
    ensures
        no_repeats(final(roots)@),
        text_set(final(roots)@) == text_set(old(roots)@) + seq_set(ops_roots(ops_view(children@))),
    decreases op, 0nat,
{
    let ghost start = text_set(roots@);
    let ghost cv = ops_view(children@);
    let mut i: usize = 0;
    proof {
        assert(cv.take(0) =~= Seq::<OpView>::empty());
        assert(start + seq_set(Seq::<Seq<char>>::empty()) =~= start);
    }
    while i < children.len()
        invariant
            i <= children@.len(),
            cv == ops_view(children@),
            decreases_to!(*op => *children),
            no_repeats(roots@),
            text_set(roots@) == start + seq_set(ops_roots(cv.take(i as int))),
        decreases children@.len() - i,
    {
        proof {
            assert(decreases_to!(*children => children@));
            assert(decreases_to!(children@ => children@[i as int]));
            assert(cv.take(i + 1).drop_last() =~= cv.take(i as int));
            assert(cv.take(i + 1)[i as int] == children@[i as int]@);
            lemma_seq_set_append(ops_roots(cv.take(i as int)), op_roots(children@[i as int]@));
        }
        collect_op(&children[i], roots);
        proof {
            assert(start + seq_set(ops_roots(cv.take(i + 1))) =~= start + seq_set(ops_roots(cv.take(i as int))) + seq_set(op_roots(children@[i as int]@)));
        }
        i += 1;
    }
    proof {
        assert(cv.take(children@.len() as int) =~= cv);
    }
}

impl RenderPlan {
    /// The data roots the plan reads (each once), so a page knows which
    /// sources to load.
    pub fn linked_roots(&self) -> (r: Vec<String>)
        ensures
            no_repeats(r@),
            text_set(r@) == seq_set(ops_roots(self@.ops)),
    {
        let mut roots: Vec<String> = Vec::new();
        let ghost cv = ops_view(self.ops@);
        let mut i: usize = 0;
        proof {
            assert(cv.take(0) =~= Seq::<OpView>::empty());
            assert(text_set(roots@) =~= seq_set(Seq::<Seq<char>>::empty()));
        }
        while i < self.ops.len()
            invariant
                i <= self.ops@.len(),
                cv == ops_view(self.ops@),
                cv == self@.ops,
                no_repeats(roots@),
                text_set(roots@) == seq_set(ops_roots(cv.take(i as int))),
            decreases self.ops@.len() - i,
        {
            proof {
                assert(cv.take(i + 1).drop_last() =~= cv.take(i as int));
                assert(cv.take(i + 1)[i as int] == self.ops@[i as int]@);
                lemma_seq_set_append(ops_roots(cv.take(i as int)), op_roots(self.ops@[i as int]@));
            }
            collect_op(&self.ops[i], &mut roots);
            i += 1;
        }
        proof {
            assert(cv.take(self.ops@.len() as int) =~= cv);
        }
        roots
    }
}

} // verus!

//! Owned HTML tree: documents, nodes and elements with ordered attributes,
//! and the authoring vocabulary read from them (slot roles, loop and bind
//! directives, translation markers, statica link relations, void elements).

use vstd::prelude::*;

use crate::parse::attrs::{attr_entries, attr_lookup, attrs_clone, attrs_get, AttrMap};
use crate::text::{
    chars_of, has_prefix, has_word, lower_seq, lower_string, str_eq, str_starts_with, trim, trim_range,
    trim_str, words,
};
use crate::tokens::{DATA_BIND, DATA_EACH, DATA_T, DATA_T_ATTR_PREFIX, REL_DATA, REL_FONT, REL_FRAGMENT, REL_LAYOUT};

verus! {

/// Authoring role of a `<slot>` element.
#[derive(Debug, Clone, PartialEq, Eq)]
pub enum SlotKind {
    /// `<slot name="field">` receives projected children with `slot="field"`.
    Named(String),
    /// `<slot>` receives children passed by the fragment mount.
    Default,
    /// `<slot id="fragment-id">` mounts a statica fragment.
    FragmentMount(String),
}

/// The role of a `<slot>` from its `name` and `id` attributes (none when both are set).
pub fn slot_kind(name: Option<&str>, id: Option<&str>) -> (r: Option<SlotKind>)
    ensures
        match (name, id) {
            (Some(n), None) => r matches Some(SlotKind::Named(x)) && x@ == n@,
            (None, None) => r == Some(SlotKind::Default),
            (None, Some(i)) => r matches Some(SlotKind::FragmentMount(x)) && x@ == i@,
            (Some(_), Some(_)) => r is None,
        },
{
    match (name, id) {
        (Some(n), None) => Some(SlotKind::Named(String::from_str(n))),
        (None, None) => Some(SlotKind::Default),
        (None, Some(i)) => Some(SlotKind::FragmentMount(String::from_str(i))),
        (Some(_), Some(_)) => None,
    }
}

/// Loop directive from `data-each="path.to.items"` on a fragment mount.
#[derive(Debug, Clone, PartialEq, Eq)]
pub struct EachDirective(String);

impl View for EachDirective {
    type V = Seq<char>;

    closed spec fn view(&self) -> Seq<char> {
        self.0@
    }
}

impl EachDirective {
    /// A directive for a non-blank expression.
    pub fn new(expr: String) -> (r: Option<Self>)
        ensures
            match r {
                Some(d) => trim(expr@).len() > 0 && d@ == expr@,
                None => trim(expr@).len() == 0,
            },
    {
        if trim_str(expr.as_str()).unicode_len() == 0 {
            None
        } else {
            Some(EachDirective(expr))
        }
    }

    pub fn expr(&self) -> (r: &str)
        ensures
            r@ == self@,
    {
        self.0.as_str()
    }
}

/// statica-owned link relations.
#[derive(Debug, Clone, Copy, PartialEq, Eq)]
pub enum StaticaLinkRel {
    Data,
    Fragment,
    Font,
    Layout,
}

/// HTML void elements (no end tag), any ASCII case.
pub open spec fn is_void_spec(name: Seq<char>) -> bool {
    let n = lower_seq(name);
    n == "area"@ || n == "base"@ || n == "br"@ || n == "col"@ || n == "embed"@ || n == "hr"@ || n == "img"@
        || n == "input"@ || n == "link"@ || n == "meta"@ || n == "param"@ || n == "source"@ || n == "track"@
        || n == "wbr"@
}

pub fn is_void_element(name: &str) -> (r: bool)
    ensures
        r == is_void_spec(name@),
{
    let l = lower_string(name);
    let n = l.as_str();
    str_eq(n, "area") || str_eq(n, "base") || str_eq(n, "br") || str_eq(n, "col") || str_eq(n, "embed")
        || str_eq(n, "hr") || str_eq(n, "img") || str_eq(n, "input") || str_eq(n, "link") || str_eq(n, "meta")
        || str_eq(n, "param") || str_eq(n, "source") || str_eq(n, "track") || str_eq(n, "wbr")
}

// ---------------------------------------------------------------------------
// The tree

/// A parsed document: an optional doctype and the top-level nodes.
#[derive(Debug)]
pub struct Document {
    pub doctype: Option<String>,
    pub children: Vec<Node>,
}

/// A node of the tree.
#[derive(Debug)]
pub enum Node {
    Element(Element),
    Text(String),
    Comment(String),
}

/// An element with ordered attributes.
#[derive(Debug)]
pub struct Element {
    pub name: String,
    pub attrs: AttrMap,
    pub children: Vec<Node>,
    /// True for void/self-closing HTML elements (`link`, `meta`, …).
    pub void: bool,
}

/// Mathematical value of a [`Node`].
#[verifier::ext_equal]
pub enum NodeView {
    Element(ElementView),
    Text(Seq<char>),
    Comment(Seq<char>),
}

/// Mathematical value of an [`Element`].
#[verifier::ext_equal]
pub struct ElementView {
    pub name: Seq<char>,
    pub attrs: Seq<(Seq<char>, Seq<char>)>,
    pub children: Seq<NodeView>,
    pub void: bool,
}

/// Mathematical value of a [`Document`].
#[verifier::ext_equal]
pub struct DocumentView {
    pub doctype: Option<Seq<char>>,
    pub children: Seq<NodeView>,
}

pub open spec fn node_view(n: Node) -> NodeView
    decreases n,
{
    match n {
        Node::Element(e) => NodeView::Element(element_view(e)),
        Node::Text(t) => NodeView::Text(t@),
        Node::Comment(c) => NodeView::Comment(c@),
    }
}

pub open spec fn element_view(e: Element) -> ElementView
    decreases e,
{
    ElementView { name: e.name@, attrs: attr_entries(e.attrs), children: nodes_view(e.children@), void: e.void }
}

pub open spec fn nodes_view(s: Seq<Node>) -> Seq<NodeView>
    decreases s,
{
    Seq::new(s.len(), |i: int| if 0 <= i < s.len() { node_view(s[i]) } else { NodeView::Text(Seq::empty()) })
}

impl View for Node {
    type V = NodeView;

    open spec fn view(&self) -> NodeView {
        node_view(*self)
    }
}

impl View for Element {
    type V = ElementView;

    open spec fn view(&self) -> ElementView {
        element_view(*self)
    }
}

impl View for Document {
    type V = DocumentView;

    open spec fn view(&self) -> DocumentView {
        DocumentView {
            doctype: match self.doctype {
                Some(d) => Some(d@),
                None => None,
            },
            children: nodes_view(self.children@),
        }
    }
}

impl Document {
    /// An empty document.
    pub fn new() -> (r: Self)
        ensures
            r@.doctype is None,
            r@.children.len() == 0,
    {
        let r = Document { doctype: None, children: Vec::new() };
        proof {
            assert(nodes_view(r.children@) =~= Seq::<NodeView>::empty());
        }
        r
    }
}

impl Node {
    /// A copy of this node and everything under it.
    pub fn copy(&self) -> (r: Node)
        ensures
            r@ == self@,
        decreases self,
    {
        match self {
            Node::Element(e) => {
                proof {
                    assert(decreases_to!(*self => (*self)->Element_0));
                }
                Node::Element(e.copy())
            },
            Node::Text(t) => Node::Text(t.clone()),
            Node::Comment(c) => Node::Comment(c.clone()),
        }
    }
}

/// Copies of a list of nodes.
pub fn copy_nodes(nodes: &[Node]) -> (r: Vec<Node>)
    ensures
        nodes_view(r@) == nodes_view(nodes@),
{
    let mut out: Vec<Node> = Vec::new();
    let mut i: usize = 0;
    while i < nodes.len()
        invariant
            i <= nodes@.len(),
            out@.len() == i,
            forall|k: int| 0 <= k < i ==> (#[trigger] out@[k])@ == nodes@[k]@,
        decreases nodes@.len() - i,
    {
        out.push(nodes[i].copy());
        i += 1;
    }
    proof {
        assert(nodes_view(out@) =~= nodes_view(nodes@));
    }
    out
}

/// Whether a tag name equals `tag` (lowercase) ignoring ASCII case.
pub open spec fn tag_is(name: Seq<char>, tag: Seq<char>) -> bool {
    lower_seq(name) == tag
}

fn name_is(name: &str, tag: &str) -> (r: bool)
    ensures
        r == tag_is(name@, tag@),
{
    let l = lower_string(name);
    str_eq(l.as_str(), tag)
}

/// The statica relation a `rel` attribute names, checked in the order
/// data, fragment, font, layout.
pub open spec fn link_rel_spec(rel: Seq<char>) -> Option<StaticaLinkRel> {
    let ws = words(rel);
    if ws.contains(REL_DATA@) {
        Some(StaticaLinkRel::Data)
    } else if ws.contains(REL_FRAGMENT@) {
        Some(StaticaLinkRel::Fragment)
    } else if ws.contains(REL_FONT@) {
        Some(StaticaLinkRel::Font)
    } else if ws.contains(REL_LAYOUT@) {
        Some(StaticaLinkRel::Layout)
    } else {
        None
    }
}

/// The trimmed, non-blank value of an attribute.
pub open spec fn directive_spec(v: Option<Seq<char>>) -> Option<Seq<char>> {
    match v {
        Some(x) => if trim(x).len() > 0 {
            Some(trim(x))
        } else {
            None
        },
        None => None,
    }
}

/// The trimmed `s`, as a slice of it.
pub fn trim_slice(s: &str) -> (r: &str)
    ensures
        r@ == trim(s@),
{
    let v = chars_of(s);
    let (a, b) = trim_range(v.as_slice(), 0, v.len());
    proof {
        assert(v@.subrange(0, v@.len() as int) =~= v@);
    }
    s.substring_char(a, b)
}

/// A fragment mount: `<slot id>` without `name`.
pub open spec fn is_mount(e: ElementView) -> bool {
    tag_is(e.name, "slot"@) && attr_lookup(e.attrs, "id"@) is Some && attr_lookup(e.attrs, "name"@) is None
}

/// A named slot: `<slot name>` without `id`.
pub open spec fn is_named_slot(e: ElementView) -> bool {
    tag_is(e.name, "slot"@) && attr_lookup(e.attrs, "name"@) is Some && attr_lookup(e.attrs, "id"@) is None
}

/// The default slot: `<slot>` with neither `name` nor `id`.
pub open spec fn is_default_slot(e: ElementView) -> bool {
    tag_is(e.name, "slot"@) && attr_lookup(e.attrs, "name"@) is None && attr_lookup(e.attrs, "id"@) is None
}

impl Element {
    /// The value of attribute `name`.
    pub fn attr(&self, name: &str) -> (r: Option<&str>)
        ensures
            match r {
                Some(v) => attr_lookup(self@.attrs, name@) == Some(v@),
                None => attr_lookup(self@.attrs, name@) is None,
            },
    {
        match attrs_get(&self.attrs, name) {
            Some(v) => Some(v.as_str()),
            None => None,
        }
    }

    /// Whether attribute `name` is present with exactly `value`.
    pub fn has_attr_value(&self, name: &str, value: &str) -> (r: bool)
        ensures
            r == (attr_lookup(self@.attrs, name@) == Some(value@)),
    {
        match self.attr(name) {
            Some(v) => str_eq(v, value),
            None => false,
        }
    }

    pub fn is_slot(&self) -> (r: bool)
        ensures
            r == tag_is(self@.name, "slot"@),
    {
        name_is(self.name.as_str(), "slot")
    }

    /// The authoring role of a `<slot>`: named, default, or fragment mount
    /// (none for other elements, or when both `name` and `id` are set).
    pub fn slot_kind(&self) -> (r: Option<SlotKind>)
        ensures
            !tag_is(self@.name, "slot"@) ==> r is None,
            tag_is(self@.name, "slot"@) ==> match (attr_lookup(self@.attrs, "name"@), attr_lookup(self@.attrs, "id"@)) {
                (Some(n), None) => r matches Some(SlotKind::Named(x)) && x@ == n,
                (None, None) => r == Some(SlotKind::Default),
                (None, Some(i)) => r matches Some(SlotKind::FragmentMount(x)) && x@ == i,
                (Some(_), Some(_)) => r is None,
            },
    {
        if !self.is_slot() {
            return None;
        }
        slot_kind(self.attr("name"), self.attr("id"))
    }

    /// The `data-each` loop of a fragment mount, when it is not blank.
    pub fn each_directive(&self) -> (r: Option<EachDirective>)
        ensures
            match attr_lookup(self@.attrs, DATA_EACH@) {
                Some(x) => match r {
                    Some(d) => trim(x).len() > 0 && d@ == x,
                    None => trim(x).len() == 0,
                },
                None => r is None,
            },
    {
        match self.attr(DATA_EACH) {
            Some(expr) => EachDirective::new(String::from_str(expr)),
            None => None,
        }
    }

    /// The trimmed `data-bind` expression, when it is not blank.
    pub fn bind_directive(&self) -> (r: Option<&str>)
        ensures
            match r {
                Some(x) => directive_spec(attr_lookup(self@.attrs, DATA_BIND@)) == Some(x@),
                None => directive_spec(attr_lookup(self@.attrs, DATA_BIND@)) is None,
            },
    {
        match self.attr(DATA_BIND) {
            Some(v) => {
                let t = trim_slice(v);
                if t.unicode_len() == 0 {
                    None
                } else {
                    Some(t)
                }
            },
            None => None,
        }
    }

    /// The `data-t` translation key template.
    pub fn text_directive(&self) -> (r: Option<&str>)
        ensures
            match r {
                Some(x) => attr_lookup(self@.attrs, DATA_T@) == Some(x@),
                None => attr_lookup(self@.attrs, DATA_T@) is None,
            },
    {
        self.attr(DATA_T)
    }

    /// The attribute a `data-t-{attr}` marker translates.
    pub fn translated_attr_target(name: &str) -> (r: Option<&str>)
        ensures
            match r {
                Some(t) => has_prefix(name@, DATA_T_ATTR_PREFIX@) && t@ == name@.skip(DATA_T_ATTR_PREFIX@.len() as int),
                None => !has_prefix(name@, DATA_T_ATTR_PREFIX@),
            },
    {
        proof {
            reveal_strlit("data-t-");
        }
        if str_starts_with(name, DATA_T_ATTR_PREFIX) {
            Some(name.substring_char(7, name.unicode_len()))
        } else {
            None
        }
    }

    /// Whether an attribute name is a translation marker (`data-t` or `data-t-{attr}`).
    pub fn is_translation_attr(name: &str) -> (r: bool)
        ensures
            r == (name@ == DATA_T@ || has_prefix(name@, DATA_T_ATTR_PREFIX@)),
    {
        str_eq(name, DATA_T) || Self::translated_attr_target(name).is_some()
    }

    /// The statica relation of a `<link>`, from its `rel` words.
    pub fn statica_link_rel(&self) -> (r: Option<StaticaLinkRel>)
        ensures
            r == (if tag_is(self@.name, "link"@) {
                match attr_lookup(self@.attrs, "rel"@) {
                    Some(rel) => link_rel_spec(rel),
                    None => None,
                }
            } else {
                None
            }),
    {
        if !self.is_link() {
            return None;
        }
        let rel = match self.attr("rel") {
            Some(r) => r,
            None => {
                return None;
            },
        };
        if has_word(rel, REL_DATA) {
            Some(StaticaLinkRel::Data)
        } else if has_word(rel, REL_FRAGMENT) {
            Some(StaticaLinkRel::Fragment)
        } else if has_word(rel, REL_FONT) {
            Some(StaticaLinkRel::Font)
        } else if has_word(rel, REL_LAYOUT) {
            Some(StaticaLinkRel::Layout)
        } else {
            None
        }
    }

    pub fn is_template(&self) -> (r: bool)
        ensures
            r == tag_is(self@.name, "template"@),
    {
        name_is(self.name.as_str(), "template")
    }

    pub fn is_script(&self) -> (r: bool)
        ensures
            r == tag_is(self@.name, "script"@),
    {
        name_is(self.name.as_str(), "script")
    }

    pub fn is_style(&self) -> (r: bool)
        ensures
            r == tag_is(self@.name, "style"@),
    {
        name_is(self.name.as_str(), "style")
    }

    pub fn is_link(&self) -> (r: bool)
        ensures
            r == tag_is(self@.name, "link"@),
    {
        name_is(self.name.as_str(), "link")
    }

    /// Whether this is the `<html>` element.
    pub fn name_is_html(&self) -> (r: bool)
        ensures
            r == tag_is(self@.name, "html"@),
    {
        name_is(self.name.as_str(), "html")
    }

    /// A copy of this element and everything under it.
    pub fn copy(&self) -> (r: Element)
        ensures
            r@ == self@,
        decreases self,
    {
        let mut children: Vec<Node> = Vec::new();
        let mut i: usize = 0;
        while i < self.children.len()
            invariant
                i <= self.children@.len(),
                children@.len() == i,
                forall|k: int| 0 <= k < i ==> (#[trigger] children@[k])@ == self.children@[k]@,
            decreases self.children@.len() - i,
        {
            proof {
                assert(decreases_to!(self.children => self.children@));
                assert(decreases_to!(self.children@ => self.children@[i as int]));
            }
            children.push(self.children[i].copy());
            i += 1;
        }
        let r = Element {
            name: self.name.clone(),
            attrs: attrs_clone(&self.attrs),
            children,
            void: self.void,
        };
        proof {
            assert(nodes_view(r.children@) =~= nodes_view(self.children@));
        }
        r
    }
}

// ---------------------------------------------------------------------------
// Searching the tree

/// The elements of a node list in document (pre)order.
pub open spec fn elements_in(s: Seq<Node>) -> Seq<Element>
    decreases s,
{
    if s.len() == 0 {
        Seq::empty()
    } else {
        proof {
            assert(decreases_to!(s => s[s.len() - 1]));
        }
        elements_in(s.drop_last()) + elements_of(s[s.len() - 1])
    }
}

/// A node's elements in document order: itself, then its descendants.
pub open spec fn elements_of(n: Node) -> Seq<Element>
    decreases n,
{
    match n {
        Node::Element(e) => seq![e] + elements_in(e.children@),
        _ => Seq::empty(),
    }
}

/// The elements a list of references points at.
pub open spec fn deref_all(s: Seq<&Element>) -> Seq<Element> {
    s.map_values(|e: &Element| *e)
}

/// The entries of `s` whose flag in `keep` is set, in order.
pub open spec fn kept<T>(s: Seq<T>, keep: Seq<bool>) -> Seq<T>
    decreases s.len(),
{
    if s.len() == 0 {
        Seq::empty()
    } else {
        kept(s.drop_last(), keep.drop_last()) + if keep.last() {
            seq![s.last()]
        } else {
            Seq::empty()
        }
    }
}

pub proof fn lemma_kept_append<T>(a: Seq<T>, ka: Seq<bool>, b: Seq<T>, kb: Seq<bool>)
    requires
        a.len() == ka.len(),
        b.len() == kb.len(),
    ensures
        kept(a + b, ka + kb) == kept(a, ka) + kept(b, kb),
    decreases b.len(),
{
    if b.len() == 0 {
        assert(a + b =~= a);
        assert(ka + kb =~= ka);
        assert(kept(a, ka) + kept(b, kb) =~= kept(a, ka));
    } else {
        lemma_kept_append(a, ka, b.drop_last(), kb.drop_last());
        assert((a + b).drop_last() =~= a + b.drop_last());
        assert((ka + kb).drop_last() =~= ka + kb.drop_last());
        assert((a + b).last() == b.last());
        assert((ka + kb).last() == kb.last());
        let tail = if kb.last() { seq![b.last()] } else { Seq::empty() };
        assert(kept(a, ka) + kept(b.drop_last(), kb.drop_last()) + tail =~= kept(a, ka) + (kept(b.drop_last(), kb.drop_last()) + tail));
    }
}

/// Whether `keep` records, for each element of `els`, an answer `pred` gave for it.
pub open spec fn answers<F: Fn(&Element) -> bool>(pred: F, els: Seq<Element>, keep: Seq<bool>) -> bool {
    &&& keep.len() == els.len()
    &&& forall|i: int| 0 <= i < els.len() ==> pred.ensures((&els[i],), #[trigger] keep[i])
}

proof fn lemma_answers_append<F: Fn(&Element) -> bool>(pred: F, a: Seq<Element>, ka: Seq<bool>, b: Seq<Element>, kb: Seq<bool>)
    requires
        answers(pred, a, ka),
        answers(pred, b, kb),
    ensures
        answers(pred, a + b, ka + kb),
{
    assert forall|i: int| 0 <= i < (a + b).len() implies pred.ensures((&(a + b)[i],), #[trigger] (ka + kb)[i]) by {
        if i < a.len() {
            assert((a + b)[i] == a[i] && (ka + kb)[i] == ka[i]);
        } else {
            assert((a + b)[i] == b[i - a.len()] && (ka + kb)[i] == kb[i - a.len()]);
        }
    }
}

fn find_in_node<'a, F: Fn(&Element) -> bool>(node: &'a Node, pred: &F, out: &mut Vec<&'a Element>) -> (keep: Ghost<Seq<bool>>)
    requires
        forall|e: &Element| pred.requires((e,)),
    ensures
        answers(*pred, elements_of(*node), keep@),
        deref_all(final(out)@) == deref_all(old(out)@) + kept(elements_of(*node), keep@),
    decreases node,
{
    match node {
        Node::Element(el) => {
            let b = pred(el);
            let ghost start = deref_all(out@);
            if b {
                out.push(el);
                proof {
                    assert(deref_all(out@) =~= start + seq![*el]);
                }
            } else {
                proof {
                    assert(deref_all(out@) =~= start + Seq::<Element>::empty());
                }
            }
            let ghost head = deref_all(out@);
            let ghost mut acc: Seq<bool> = Seq::empty();
            let mut i: usize = 0;
            proof {
                assert(el.children@.take(0) =~= Seq::<Node>::empty());
                assert(kept(Seq::<Element>::empty(), Seq::<bool>::empty()) =~= Seq::<Element>::empty());
                assert(head =~= head + kept(elements_in(el.children@.take(0)), acc));
                assert(start + seq![*el] =~= start + seq![*el]);
            }
            while i < el.children.len()
                invariant
                    i <= el.children@.len(),
                    forall|e: &Element| pred.requires((e,)),
                    *node == Node::Element(*el),
                    answers(*pred, elements_in(el.children@.take(i as int)), acc),
                    deref_all(out@) == head + kept(elements_in(el.children@.take(i as int)), acc),
                decreases el.children@.len() - i,
            {
                proof {
                    assert(decreases_to!(*node => (*node)->Element_0));
                    assert(decreases_to!(el.children => el.children@));
                    assert(decreases_to!(el.children@ => el.children@[i as int]));
                }
                let k = find_in_node(&el.children[i], pred, out);
                proof {
                    let pre = elements_in(el.children@.take(i as int));
                    let cur = elements_of(el.children@[i as int]);
                    assert(el.children@.take(i + 1).drop_last() =~= el.children@.take(i as int));
                    assert(el.children@.take(i + 1)[i as int] == el.children@[i as int]);
                    assert(elements_in(el.children@.take(i + 1)) == pre + cur);
                    lemma_kept_append(pre, acc, cur, k@);
                    lemma_answers_append(*pred, pre, acc, cur, k@);
                    acc = acc + k@;
                }
                i += 1;
            }
            proof {
                assert(el.children@.take(el.children@.len() as int) =~= el.children@);
                let rest = elements_in(el.children@);
                lemma_kept_append(seq![*el], seq![b], rest, acc);
                lemma_answers_append(*pred, seq![*el], seq![b], rest, acc);
                assert(kept(seq![*el], seq![b]) =~= if b { seq![*el] } else { Seq::<Element>::empty() }) by {
                    assert(seq![*el].drop_last() =~= Seq::<Element>::empty());
                    assert(seq![b].drop_last() =~= Seq::<bool>::empty());
                }
                assert(answers(*pred, seq![*el], seq![b])) by {
                    assert(seq![*el][0] == *el);
                }
            }
            Ghost(seq![b] + acc)
        },
        _ => {
            proof {
                assert(kept(Seq::<Element>::empty(), Seq::<bool>::empty()) =~= Seq::<Element>::empty());
                assert(deref_all(out@) =~= deref_all(out@) + Seq::<Element>::empty());
            }
            Ghost(Seq::empty())
        },
    }
}

/// Elements of `nodes`, in document order, for which `pred` answers true.
pub fn find_in_nodes<'a, F: Fn(&Element) -> bool>(nodes: &'a [Node], pred: &F) -> (r: (Vec<&'a Element>, Ghost<Seq<bool>>))
    requires
        forall|e: &Element| pred.requires((e,)),
    ensures
        answers(*pred, elements_in(nodes@), r.1@),
        deref_all(r.0@) == kept(elements_in(nodes@), r.1@),
{
    let mut out: Vec<&'a Element> = Vec::new();
    let ghost mut acc: Seq<bool> = Seq::empty();
    let mut i: usize = 0;
    proof {
        assert(nodes@.take(0) =~= Seq::<Node>::empty());
        assert(kept(Seq::<Element>::empty(), Seq::<bool>::empty()) =~= Seq::<Element>::empty());
        assert(deref_all(out@) =~= Seq::<Element>::empty());
    }
    while i < nodes.len()
        invariant
            i <= nodes@.len(),
            forall|e: &Element| pred.requires((e,)),
            answers(*pred, elements_in(nodes@.take(i as int)), acc),
            deref_all(out@) == kept(elements_in(nodes@.take(i as int)), acc),
        decreases nodes@.len() - i,
    {
        let k = find_in_node(&nodes[i], pred, &mut out);
        proof {
            let pre = elements_in(nodes@.take(i as int));
            let cur = elements_of(nodes@[i as int]);
            assert(nodes@.take(i + 1).drop_last() =~= nodes@.take(i as int));
            assert(nodes@.take(i + 1)[i as int] == nodes@[i as int]);
            lemma_kept_append(pre, acc, cur, k@);
            lemma_answers_append(*pred, pre, acc, cur, k@);
            acc = acc + k@;
        }
        i += 1;
    }
    proof {
        assert(nodes@.take(nodes@.len() as int) =~= nodes@);
    }
    (out, Ghost(acc))
}

impl Document {
    /// Elements, in document order, for which `pred` answers true.
    pub fn find<F: Fn(&Element) -> bool>(&self, pred: F) -> (r: Vec<&Element>)
        requires
            forall|e: &Element| pred.requires((e,)),
        ensures
            exists|keep: Seq<bool>| answers(pred, elements_in(self.children@), keep) && deref_all(r@) == kept(elements_in(self.children@), keep),
    {
        let (out, keep) = find_in_nodes(self.children.as_slice(), &pred);
        out
    }
}

/// When `pred` computes `p`, the elements it keeps are those `p` holds of.
pub proof fn lemma_kept_is_filter<F: Fn(&Element) -> bool>(pred: F, els: Seq<Element>, keep: Seq<bool>, p: spec_fn(Element) -> bool)
    requires
        answers(pred, els, keep),
        forall|e: &Element, b: bool| pred.ensures((e,), b) ==> b == p(*e),
    ensures
        kept(els, keep) == els.filter(p),
    decreases els.len(),
{
    reveal(Seq::filter);
    if els.len() > 0 {
        let n = els.len() - 1;
        assert(answers(pred, els.drop_last(), keep.drop_last())) by {
            assert forall|i: int| 0 <= i < els.drop_last().len() implies pred.ensures((&els.drop_last()[i],), #[trigger] keep.drop_last()[i]) by {
                assert(els.drop_last()[i] == els[i]);
                assert(keep.drop_last()[i] == keep[i]);
            }
        }
        lemma_kept_is_filter(pred, els.drop_last(), keep.drop_last(), p);
        assert(pred.ensures((&els[n],), keep[n]));
        assert(keep.last() == p(els.last()));
        let sub = els.drop_last().filter(p);
        assert(els.filter(p) == (if p(els.last()) { sub.push(els.last()) } else { sub }));
        if keep.last() {
            assert(kept(els, keep) =~= sub.push(els.last()));
        } else {
            assert(kept(els, keep) =~= sub);
        }
    } else {
        assert(els.filter(p) == els);
        assert(kept(els, keep) =~= els);
    }
}

} // verus!

//! Web app manifest: the starter manifest text, what is read from a
//! manifest for the page head, and the PWA head tags added to each page.
//!
//! Writing the starter file and reading the manifest from disk are the
//! application's job.

use vstd::prelude::*;

use crate::parse::attrs::insert_attr_spec;
use crate::funnel::json::{is_rel_link, read_field, read_field_spec};
use crate::funnel::value::{JsonView, Value};
use crate::parse::ast::{nodes_view, tag_is, trim_slice, Document, DocumentView, Element, ElementView, Node, NodeView};
use crate::parse::attrs::{attr_entries, attr_lookup, attrs_insert, attrs_new};
use crate::text::{has_word, lower_seq, lower_string, str_eq, trim, words};

verus! {

/// Project-relative path to the editable manifest file.
pub const MANIFEST_FILE: &'static str = "public/manifest.webmanifest";

/// URL path emitted in HTML (manifest lives at site root after copy from `public/`).
pub const MANIFEST_HREF: &'static str = "/manifest.webmanifest";

/// The starter manifest written when a project turns the manifest on.
pub const DEFAULT_MANIFEST: &'static str = "{\n  \"name\": \"My Site\",\n  \"short_name\": \"Site\",\n  \"description\": \"\",\n  \"start_url\": \"/\",\n  \"display\": \"standalone\",\n  \"background_color\": \"#ffffff\",\n  \"theme_color\": \"#111827\",\n  \"icons\": [\n    {\n      \"src\": \"/icon-192.png\",\n      \"sizes\": \"192x192\",\n      \"type\": \"image/png\",\n      \"purpose\": \"any\"\n    }\n  ]\n}\n";

/// The starter manifest text ([`DEFAULT_MANIFEST`]).
pub fn default_manifest() -> (r: &'static str)
    ensures
        r@ == DEFAULT_MANIFEST@,
{
    DEFAULT_MANIFEST
}

/// Values read from the manifest JSON for automatic head-tag injection.
#[derive(Debug, Clone, Default, PartialEq, Eq)]
pub struct ManifestMeta {
    pub theme_color: Option<String>,
    pub apple_touch_icon: Option<String>,
}

/// A string member, trimmed, when not blank.
pub open spec fn trimmed_str_member(v: JsonView, key: Seq<char>) -> Option<Seq<char>> {
    match read_field_spec(v, key) {
        Some(JsonView::String(s)) => if trim(s).len() > 0 {
            Some(trim(s))
        } else {
            None
        },
        _ => None,
    }
}

/// An icon usable as the Apple touch icon: its `purpose` is absent, empty
/// or includes `any`, and it has a non-blank `src`.
pub open spec fn touch_icon_of(icon: JsonView) -> Option<Seq<char>> {
    let purpose = match read_field_spec(icon, "purpose"@) {
        Some(JsonView::String(p)) => p,
        _ => Seq::empty(),
    };
    if purpose.len() > 0 && !words(purpose).contains("any"@) {
        None
    } else {
        trimmed_str_member(icon, "src"@)
    }
}

/// The first usable icon of a list.
pub open spec fn first_touch_icon(icons: Seq<JsonView>) -> Option<Seq<char>>
    decreases icons.len(),
{
    if icons.len() == 0 {
        None
    } else {
        match touch_icon_of(icons[0]) {
            Some(s) => Some(s),
            None => first_touch_icon(icons.drop_first()),
        }
    }
}

/// What the head tags use from a manifest: its `theme_color`, and the first
/// usable entry of `icons`.
pub open spec fn manifest_meta_spec(v: JsonView) -> (Option<Seq<char>>, Option<Seq<char>>) {
    let icon = match read_field_spec(v, "icons"@) {
        Some(JsonView::Array(icons)) => first_touch_icon(icons),
        _ => None,
    };
    (trimmed_str_member(v, "theme_color"@), icon)
}

pub open spec fn opt_str_view(o: Option<String>) -> Option<Seq<char>> {
    match o {
        Some(s) => Some(s@),
        None => None,
    }
}

fn trimmed_member(v: &Value, key: &str) -> (r: Option<String>)
    ensures
        opt_str_view(r) == trimmed_str_member(v@, key@),
{
    match read_field(v, key) {
        Some(Value::String(s)) => {
            let t = trim_slice(s.as_str());
            if t.unicode_len() > 0 {
                Some(String::from_str(t))
            } else {
                None
            }
        },
        _ => None,
    }
}

fn touch_icon(icon: &Value) -> (r: Option<String>)
    ensures
        opt_str_view(r) == touch_icon_of(icon@),
{
    proof {
        reveal_strlit("any");
        reveal_strlit("");
    }
    let purpose: &str = match read_field(icon, "purpose") {
        Some(Value::String(p)) => p.as_str(),
        _ => "",
    };
    if purpose.unicode_len() > 0 && !has_word(purpose, "any") {
        None
    } else {
        trimmed_member(icon, "src")
    }
}

/// Read theme color and the default icon from a parsed manifest.
pub fn manifest_meta_from_value(value: &Value) -> (r: ManifestMeta)
    ensures
        (opt_str_view(r.theme_color), opt_str_view(r.apple_touch_icon)) == manifest_meta_spec(value@),
{
    let theme_color = trimmed_member(value, "theme_color");
    let apple_touch_icon = match read_field(value, "icons") {
        Some(Value::Array(icons)) => {
            let ghost iv = crate::funnel::value::elems_view(icons@);
            let mut found: Option<String> = None;
            let mut i: usize = 0;
            proof {
                assert(iv.skip(0) =~= iv);
            }
            while i < icons.len() && found.is_none()
                invariant
                    i <= icons@.len(),
                    iv == crate::funnel::value::elems_view(icons@),
                    found is None ==> first_touch_icon(iv) == first_touch_icon(iv.skip(i as int)),
                    found is Some ==> opt_str_view(found) == first_touch_icon(iv),
                decreases icons@.len() - i,
            {
                proof {
                    assert(iv.skip(i as int)[0] == icons@[i as int]@);
                    assert(iv.skip(i as int).drop_first() =~= iv.skip(i + 1));
                }
                found = touch_icon(&icons[i]);
                i += 1;
            }
            proof {
                if found is None {
                    assert(iv.skip(i as int) =~= Seq::<JsonView>::empty());
                }
            }
            found
        },
        _ => None,
    };
    ManifestMeta { theme_color, apple_touch_icon }
}

// ---------------------------------------------------------------------------
// Head tags

/// A `<link>` child whose `rel` words include `rel`.
pub open spec fn has_link_rel(children: Seq<NodeView>, rel: Seq<char>) -> bool {
    exists|i: int| 0 <= i < children.len() && children[i] is Element && is_rel_link(#[trigger] children[i]->Element_0, rel)
}

/// A `<meta>` child whose `name` equals `name` ignoring ASCII case.
pub open spec fn has_meta_name(children: Seq<NodeView>, name: Seq<char>) -> bool {
    exists|i: int|
        0 <= i < children.len() && children[i] is Element && tag_is(#[trigger] children[i]->Element_0.name, "meta"@)
            && match attr_lookup(children[i]->Element_0.attrs, "name"@) {
            Some(n) => lower_seq(n) == lower_seq(name),
            None => false,
        }
}

/// A void element with the given attributes, in order.
pub open spec fn void_view(name: Seq<char>, attrs: Seq<(Seq<char>, Seq<char>)>) -> NodeView {
    NodeView::Element(ElementView { name, attrs, children: Seq::empty(), void: true })
}

/// The head's children with the missing PWA tags appended: the manifest
/// link, then the theme color, then the Apple touch icon.
pub open spec fn head_tags_spec(c: Seq<NodeView>, theme: Option<Seq<char>>, icon: Option<Seq<char>>) -> Seq<NodeView> {
    let c1 = if !has_link_rel(c, "manifest"@) {
        c.push(void_view("link"@, seq![("rel"@, "manifest"@), ("href"@, MANIFEST_HREF@)]))
    } else {
        c
    };
    let c2 = match theme {
        Some(color) => if !has_meta_name(c1, "theme-color"@) {
            c1.push(void_view("meta"@, seq![("name"@, "theme-color"@), ("content"@, color)]))
        } else {
            c1
        },
        None => c1,
    };
    match icon {
        Some(href) => if !has_link_rel(c2, "apple-touch-icon"@) {
            c2.push(void_view("link"@, seq![("rel"@, "apple-touch-icon"@), ("href"@, href)]))
        } else {
            c2
        },
        None => c2,
    }
}

/// Position of the first `<head>` child of an element.
pub open spec fn head_index(c: Seq<NodeView>) -> Option<int>
    decreases c.len(),
{
    if c.len() == 0 {
        None
    } else if c[0] is Element && tag_is(c[0]->Element_0.name, "head"@) {
        Some(0)
    } else {
        match head_index(c.drop_first()) {
            Some(i) => Some(i + 1),
            None => None,
        }
    }
}

/// Where the head is: the first top-level `<html>` that has a `<head>`
/// child, and that child.
pub open spec fn head_path(c: Seq<NodeView>) -> Option<(int, int)>
    decreases c.len(),
{
    if c.len() == 0 {
        None
    } else if c[0] is Element && tag_is(c[0]->Element_0.name, "html"@) && head_index(c[0]->Element_0.children) is Some {
        Some((0, head_index(c[0]->Element_0.children)->0))
    } else {
        match head_path(c.drop_first()) {
            Some((i, j)) => Some((i + 1, j)),
            None => None,
        }
    }
}

/// The document after [`inject_manifest_tags`].
pub open spec fn inject_spec(d: DocumentView, theme: Option<Seq<char>>, icon: Option<Seq<char>>) -> DocumentView {
    match head_path(d.children) {
        Some((i, j)) => {
            let html = d.children[i]->Element_0;
            let head = html.children[j]->Element_0;
            let head2 = NodeView::Element(ElementView { children: head_tags_spec(head.children, theme, icon), ..head });
            let html2 = NodeView::Element(ElementView { children: html.children.update(j, head2), ..html });
            DocumentView { children: d.children.update(i, html2), ..d }
        },
        None => d,
    }
}

proof fn lemma_head_index(c: Seq<NodeView>)
    ensures
        match head_index(c) {
            Some(i) => 0 <= i < c.len() && c[i] is Element && tag_is(c[i]->Element_0.name, "head"@)
                && forall|j: int| 0 <= j < i ==> !(c[j] is Element && tag_is(c[j]->Element_0.name, "head"@)),
            None => forall|j: int| 0 <= j < c.len() ==> !(c[j] is Element && tag_is(c[j]->Element_0.name, "head"@)),
        },
    decreases c.len(),
{
    if c.len() > 0 {
        lemma_head_index(c.drop_first());
        assert forall|j: int| 1 <= j < c.len() implies c[j] == c.drop_first()[j - 1] by {}
    }
}

proof fn lemma_head_path(c: Seq<NodeView>)
    ensures
        match head_path(c) {
            Some((i, j)) => 0 <= i < c.len() && c[i] is Element && tag_is(c[i]->Element_0.name, "html"@)
                && head_index(c[i]->Element_0.children) == Some(j)
                && forall|k: int| 0 <= k < i ==> !(c[k] is Element && tag_is(c[k]->Element_0.name, "html"@) && head_index(c[k]->Element_0.children) is Some),
            None => forall|k: int| 0 <= k < c.len() ==> !(c[k] is Element && tag_is(c[k]->Element_0.name, "html"@) && head_index(c[k]->Element_0.children) is Some),
        },
    decreases c.len(),
{
    if c.len() > 0 {
        lemma_head_path(c.drop_first());
        assert forall|j: int| 1 <= j < c.len() implies c[j] == c.drop_first()[j - 1] by {}
    }
}

fn has_link_rel_exec(children: &Vec<Node>, rel: &str) -> (r: bool)
    ensures
        r == has_link_rel(nodes_view(children@), rel@),
{
    let ghost kv = nodes_view(children@);
    let mut i: usize = 0;
    while i < children.len()
        invariant
            i <= children@.len(),
            kv == nodes_view(children@),
            forall|j: int| 0 <= j < i ==> !(kv[j] is Element && is_rel_link(#[trigger] kv[j]->Element_0, rel@)),
        decreases children@.len() - i,
    {
        proof {
            assert(kv[i as int] == children@[i as int]@);
        }
        let hit = match &children[i] {
            Node::Element(el) => el.is_link() && match el.attr("rel") {
                Some(r) => has_word(r, rel),
                None => false,
            },
            _ => false,
        };
        if hit {
            return true;
        }
        i += 1;
    }
    false
}

fn has_meta_name_exec(children: &Vec<Node>, name: &str) -> (r: bool)
    ensures
        r == has_meta_name(nodes_view(children@), name@),
{
    let ghost kv = nodes_view(children@);
    let lname = lower_string(name);
    let mut i: usize = 0;
    while i < children.len()
        invariant
            i <= children@.len(),
            kv == nodes_view(children@),
            lname@ == lower_seq(name@),
            forall|j: int|
                0 <= j < i ==> !(kv[j] is Element && tag_is(#[trigger] kv[j]->Element_0.name, "meta"@)
                    && match attr_lookup(kv[j]->Element_0.attrs, "name"@) {
                    Some(n) => lower_seq(n) == lower_seq(name@),
                    None => false,
                }),
        decreases children@.len() - i,
    {
        proof {
            assert(kv[i as int] == children@[i as int]@);
        }
        let hit = match &children[i] {
            Node::Element(el) => {
                let is_meta = {
                    let l = lower_string(el.name.as_str());
                    str_eq(l.as_str(), "meta")
                };
                is_meta && match el.attr("name") {
                    Some(n) => {
                        let ln = lower_string(n);
                        str_eq(ln.as_str(), lname.as_str())
                    },
                    None => false,
                }
            },
            _ => false,
        };
        if hit {
            proof {
                assert(kv[i as int] is Element && tag_is(kv[i as int]->Element_0.name, "meta"@)
                    && match attr_lookup(kv[i as int]->Element_0.attrs, "name"@) {
                    Some(n) => lower_seq(n) == lower_seq(name@),
                    None => false,
                });
            }
            return true;
        }
        i += 1;
    }
    false
}

fn void_element(name: &str, k1: &str, v1: &str, k2: &str, v2: &str) -> (r: Node)
    requires
        k1@ != k2@,
    ensures
        r@ == void_view(name@, seq![(k1@, v1@), (k2@, v2@)]),
{
    let mut attrs = attrs_new();
    attrs_insert(&mut attrs, String::from_str(k1), String::from_str(v1));
    proof {
        crate::parse::attrs::lemma_attr_index_bounds(attr_entries(attrs), k2@);
    }
    attrs_insert(&mut attrs, String::from_str(k2), String::from_str(v2));
    let kids: Vec<Node> = Vec::new();
    proof {
        assert(nodes_view(kids@) =~= Seq::<NodeView>::empty());
        assert(attr_entries(attrs) =~= seq![(k1@, v1@), (k2@, v2@)]);
    }
    Node::Element(Element { name: String::from_str(name), attrs, children: kids, void: true })
}

fn add_head_tags(head: &mut Vec<Node>, meta: &ManifestMeta)
    ensures
        nodes_view(final(head)@) == head_tags_spec(nodes_view(old(head)@), opt_str_view(meta.theme_color), opt_str_view(meta.apple_touch_icon)),
{
    proof {
        reveal_strlit("rel");
        reveal_strlit("href");
        reveal_strlit("name");
        reveal_strlit("content");
        assert("rel"@ != "href"@) by {
            assert("rel"@[0] != "href"@[0]);
        }
        assert("name"@ != "content"@) by {
            assert("name"@[0] != "content"@[0]);
        }
    }
    let ghost c0 = nodes_view(head@);
    if !has_link_rel_exec(head, "manifest") {
        let n = void_element("link", "rel", "manifest", "href", MANIFEST_HREF);
        let ghost nv = n@;
        head.push(n);
        proof {
            assert(nodes_view(head@) =~= c0.push(nv));
        }
    }
    let ghost c1 = nodes_view(head@);
    match &meta.theme_color {
        Some(color) => {
            if !has_meta_name_exec(head, "theme-color") {
                let n = void_element("meta", "name", "theme-color", "content", color.as_str());
                let ghost nv = n@;
                head.push(n);
                proof {
                    assert(nodes_view(head@) =~= c1.push(nv));
                }
            }
        },
        None => {},
    }
    let ghost c2 = nodes_view(head@);
    match &meta.apple_touch_icon {
        Some(icon) => {
            if !has_link_rel_exec(head, "apple-touch-icon") {
                let n = void_element("link", "rel", "apple-touch-icon", "href", icon.as_str());
                let ghost nv = n@;
                head.push(n);
                proof {
                    assert(nodes_view(head@) =~= c2.push(nv));
                }
            }
        },
        None => {},
    }
}

fn head_child_index(children: &Vec<Node>) -> (r: Option<usize>)
    ensures
        match r {
            Some(j) => j < children@.len() && head_index(nodes_view(children@)) == Some(j as int) && children@[j as int] is Element,
            None => head_index(nodes_view(children@)) is None,
        },
{
    let ghost kv = nodes_view(children@);
    proof {
        lemma_head_index(kv);
    }
    let mut j: usize = 0;
    while j < children.len()
        invariant
            j <= children@.len(),
            kv == nodes_view(children@),
            forall|k: int| 0 <= k < j ==> !(kv[k] is Element && tag_is(kv[k]->Element_0.name, "head"@)),
        decreases children@.len() - j,
    {
        proof {
            assert(kv[j as int] == children@[j as int]@);
        }
        let hit = match &children[j] {
            Node::Element(el) => {
                let l = lower_string(el.name.as_str());
                str_eq(l.as_str(), "head")
            },
            _ => false,
        };
        if hit {
            proof {
                lemma_head_index(kv);
                match head_index(kv) {
                    Some(k) => {
                        if k < j {
                            assert(!(kv[k] is Element && tag_is(kv[k]->Element_0.name, "head"@)));
                        }
                        if k > j {
                            assert(kv[j as int] is Element && tag_is(kv[j as int]->Element_0.name, "head"@));
                        }
                    },
                    None => {
                        assert(kv[j as int] is Element && tag_is(kv[j as int]->Element_0.name, "head"@));
                    },
                }
            }
            return Some(j);
        }
        j += 1;
    }
    proof {
        match head_index(kv) {
            Some(k) => {
                assert(!(kv[k] is Element && tag_is(kv[k]->Element_0.name, "head"@)));
            },
            None => {},
        }
    }
    None
}

/// Inject manifest / theme-color / apple-touch-icon tags into `<head>` when absent.
pub fn inject_manifest_tags(doc: &mut Document, meta: &ManifestMeta)
    ensures
        final(doc)@ == inject_spec(old(doc)@, opt_str_view(meta.theme_color), opt_str_view(meta.apple_touch_icon)),
{
    let ghost kv = nodes_view(doc.children@);
    proof {
        lemma_head_path(kv);
    }
    let mut i: usize = 0;
    while i < doc.children.len()
        invariant
            i <= doc.children@.len(),
            *doc == *old(doc),
            kv == nodes_view(doc.children@),
            forall|k: int| 0 <= k < i ==> !(kv[k] is Element && tag_is(kv[k]->Element_0.name, "html"@) && head_index(kv[k]->Element_0.children) is Some),
        decreases doc.children@.len() - i,
    {
        proof {
            assert(kv[i as int] == doc.children@[i as int]@);
        }
        let upd: Option<Node> = match &doc.children[i] {
            Node::Element(html) => {
                let is_html = html.name_is_html();
                if is_html {
                    match head_child_index(&html.children) {
                        Some(j) => {
                            let mut e = html.copy();
                            proof {
                                lemma_head_index(nodes_view(html.children@));
                                assert(nodes_view(html.children@)[j as int] == html.children@[j as int]@);
                            }
                            let mut head_el = match &html.children[j] {
                                Node::Element(h) => h.copy(),
                                _ => {
                                    proof {
                                        assert(false);
                                    }
                                    return;
                                },
                            };
                            proof {
                                lemma_head_index(nodes_view(html.children@));
                                assert(nodes_view(html.children@)[j as int] == html.children@[j as int]@);
                            }
                            add_head_tags(&mut head_el.children, meta);
                            let ghost hv = Node::Element(head_el)@;
                            e.children.set(j, Node::Element(head_el));
                            proof {
                                assert(nodes_view(e.children@) =~= nodes_view(html.children@).update(j as int, hv));
                            }
                            Some(Node::Element(e))
                        },
                        None => None,
                    }
                } else {
                    None
                }
            },
            _ => None,
        };
        match upd {
            Some(u) => {
                proof {
                    lemma_head_path(kv);
                    match head_path(kv) {
                        Some((k, _)) => {
                            if k < i {
                                assert(!(kv[k] is Element && tag_is(kv[k]->Element_0.name, "html"@) && head_index(kv[k]->Element_0.children) is Some));
                            }
                            if k > i {
                                assert(kv[i as int] is Element && tag_is(kv[i as int]->Element_0.name, "html"@) && head_index(kv[i as int]->Element_0.children) is Some);
                            }
                        },
                        None => {
                            assert(kv[i as int] is Element && tag_is(kv[i as int]->Element_0.name, "html"@) && head_index(kv[i as int]->Element_0.children) is Some);
                        },
                    }
                }
                let ghost uv = u@;
                doc.children.set(i, u);
                proof {
                    assert(nodes_view(doc.children@) =~= kv.update(i as int, uv));
                }
                return;
            },
            None => {},
        }
        i += 1;
    }
    proof {
        match head_path(kv) {
            Some((k, _)) => {
                assert(!(kv[k] is Element && tag_is(kv[k]->Element_0.name, "html"@) && head_index(kv[k]->Element_0.children) is Some));
            },
            None => {},
        }
    }
}

} // verus!

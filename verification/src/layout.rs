//! Page layouts: a page that links `<link rel="statica/layout" href>` is
//! poured into that layout: its `<head>` fills the layout's `head` slot,
//! its body fills the default slot and the named slots its children name.
//! Links to data and fragments inside the layout are rewritten relative to
//! the layout file.
//!
//! Finding the layout file and parsing it is the caller's part; this module
//! finds the link and does the rest.

use vstd::prelude::*;

use crate::aliases::{path_join, path_join_spec, resolve_path, resolve_path_spec, site_view, AliasOptions};
use crate::error::{Error, ErrorView};
use crate::loc::{diag_at, diag_at_file, str_views};
use crate::parse::ast::{
    link_rel_spec, nodes_view, tag_is, Document, DocumentView, Element, ElementView, Node, NodeView, StaticaLinkRel,
};
use crate::bind::slots::{
    fill_result, fill_terminates, named_extend, slot_target, ProjectionView, SlotProjection,
};
use crate::parse::ast::copy_nodes;
use crate::parse::attrs::{
    attr_lookup, attrs_clone, attrs_insert, attrs_shift_remove, insert_attr_spec, remove_attr_spec,
};
use crate::paths::{parent, parent_spec, strip_prefix_str, strip_prefix_text};
use crate::text::{chars_of, lower_string, skip_char_run, str_eq, string_range, trim_start_char};
use crate::tokens::{ATTR_SLOT, DATA_BIND};
use crate::tokens::{rel_double_quoted, rel_single_quoted, REL_LAYOUT};
use crate::funnel::template::has_template_tokens;
use crate::text::{find_from, has_prefix, str_starts_with, trim, trim_str};

verus! {

/// A layout `href` to rewrite: non-blank, not an alias (`@…`), not
/// site-absolute, not a remote URL, and free of `${…}` placeholders.
pub open spec fn should_rewrite_spec(href: Seq<char>) -> bool {
    let h = trim(href);
    h.len() > 0 && !has_prefix(h, "@"@) && !has_prefix(h, "/"@) && !has_prefix(h, "http://"@)
        && !has_prefix(h, "https://"@) && find_from(h, "${"@, 0) is None
}

pub fn should_rewrite_layout_href(href: &str) -> (r: bool)
    ensures
        r == should_rewrite_spec(href@),
{
    let t = trim_str(href);
    let h = t.as_str();
    t.unicode_len() > 0 && !str_starts_with(h, "@") && !str_starts_with(h, "/") && !str_starts_with(h, "http://")
        && !str_starts_with(h, "https://") && !has_template_tokens(h)
}

/// A layout-relative href resolved against the layout's directory.
pub fn resolve_layout_relative_href(layout_dir: &str, href: &str) -> (r: String)
    ensures
        r@ == path_join_spec(layout_dir@, href@),
{
    path_join(layout_dir, href)
}

// ---------------------------------------------------------------------------
// The layout link

/// A `<link rel="statica/layout">`.
pub open spec fn is_layout_link(e: ElementView) -> bool {
    tag_is(e.name, "link"@) && match attr_lookup(e.attrs, "rel"@) {
        Some(rel) => link_rel_spec(rel) == Some(StaticaLinkRel::Layout),
        None => false,
    }
}

fn is_layout_link_el(el: &Element) -> (r: bool)
    ensures
        r == is_layout_link(el@),
{
    match el.statica_link_rel() {
        Some(StaticaLinkRel::Layout) => true,
        _ => false,
    }
}

/// The `href` of each layout link in `s`, in document order.
pub open spec fn layout_link_hrefs(s: Seq<NodeView>) -> Seq<Option<Seq<char>>>
    decreases s,
{
    if s.len() == 0 {
        Seq::empty()
    } else {
        proof {
            assert(decreases_to!(s => s[s.len() - 1]));
        }
        layout_link_hrefs(s.drop_last()) + node_layout_hrefs(s[s.len() - 1])
    }
}

pub open spec fn node_layout_hrefs(n: NodeView) -> Seq<Option<Seq<char>>>
    decreases n,
{
    match n {
        NodeView::Element(e) => (if is_layout_link(e) {
            seq![attr_lookup(e.attrs, "href"@)]
        } else {
            Seq::empty()
        }) + layout_link_hrefs(e.children),
        _ => Seq::empty(),
    }
}

pub open spec fn opt_views(s: Seq<Option<String>>) -> Seq<Option<Seq<char>>> {
    s.map_values(
        |o: Option<String>|
            match o {
                Some(x) => Some(x@),
                None => None,
            },
    )
}

/// A layout error, located at the layout link of the page when its source
/// is known.
pub open spec fn layout_err_spec(page: Option<(Seq<char>, Seq<char>)>, message: Seq<char>) -> ErrorView {
    match page {
        Some((file, source)) => ErrorView::Diag(
            diag_at(file, source, seq!["rel=\""@ + REL_LAYOUT@ + "\""@, "rel='"@ + REL_LAYOUT@ + "'"@], message),
        ),
        None => ErrorView::Diag(diag_at_file("<page>"@, message)),
    }
}

/// The layout `href` of a page: none without a layout link; an error for
/// two or more links, or a link without `href`.
pub open spec fn find_layout_href_spec(children: Seq<NodeView>, page: Option<(Seq<char>, Seq<char>)>) -> Result<
    Option<Seq<char>>,
    ErrorView,
> {
    let hs = layout_link_hrefs(children);
    if hs.len() == 0 {
        Ok(None)
    } else if hs.len() > 1 {
        Err(layout_err_spec(page, "a page can declare only one statica layout"@))
    } else {
        match hs[0] {
            Some(h) => Ok(Some(h)),
            None => Err(layout_err_spec(page, "statica layout link is missing `href`"@)),
        }
    }
}

fn layout_err(page: Option<(&str, &str)>, message: &str) -> (r: Error)
    ensures
        r@ == layout_err_spec(site_view(page), message@),
{
    match page {
        Some((file, source)) => {
            let dq = rel_double_quoted(REL_LAYOUT);
            let sq = rel_single_quoted(REL_LAYOUT);
            let needles = vec![dq.as_str(), sq.as_str()];
            proof {
                assert(str_views(needles@) =~= seq![dq@, sq@]);
            }
            Error::at(file, source, needles.as_slice(), message)
        },
        None => Error::at_file("<page>", message),
    }
}

fn collect_layout_hrefs(node: &Node, out: &mut Vec<Option<String>>)
    ensures
        opt_views(final(out)@) == opt_views(old(out)@) + node_layout_hrefs(node@),
    decreases node,
{
    match node {
        Node::Element(el) => {
            let ghost start = opt_views(out@);
            if is_layout_link_el(el) {
                let h: Option<String> = match el.attr("href") {
                    Some(v) => Some(String::from_str(v)),
                    None => None,
                };
                proof {
                    reveal_strlit("href");
                }
                out.push(h);
                proof {
                    assert(opt_views(out@) =~= start + seq![attr_lookup(el@.attrs, "href"@)]);
                }
            } else {
                proof {
                    assert(opt_views(out@) =~= start + Seq::<Option<Seq<char>>>::empty());
                }
            }
            let ghost mid = opt_views(out@);
            let ghost cv = nodes_view(el.children@);
            let mut i: usize = 0;
            proof {
                assert(cv.take(0) =~= Seq::<NodeView>::empty());
                assert(opt_views(out@) =~= mid + layout_link_hrefs(cv.take(0)));
            }
            while i < el.children.len()
                invariant
                    i <= el.children@.len(),
                    *node == Node::Element(*el),
                    cv == nodes_view(el.children@),
                    cv.len() == el.children@.len(),
                    opt_views(out@) == mid + layout_link_hrefs(cv.take(i as int)),
                decreases el.children@.len() - i,
            {
                proof {
                    assert(decreases_to!(*node => (*node)->Element_0));
                    assert(decreases_to!(el.children => el.children@));
                    assert(decreases_to!(el.children@ => el.children@[i as int]));
                    assert(cv.take(i + 1).drop_last() =~= cv.take(i as int));
                    assert(cv.take(i + 1)[i as int] == el.children@[i as int]@);
                }
                collect_layout_hrefs(&el.children[i], out);
                proof {
                    assert(opt_views(out@) =~= mid + layout_link_hrefs(cv.take(i + 1)));
                }
                i += 1;
            }
            proof {
                assert(cv.take(i as int) =~= cv);
            }
        },
        _ => {
            proof {
                assert(opt_views(out@) =~= opt_views(old(out)@) + Seq::<Option<Seq<char>>>::empty());
            }
        },
    }
}

/// The `href` of the page's layout link (see [`find_layout_href_spec`]).
pub fn find_layout_href(doc: &Document, page: Option<(&str, &str)>) -> (r: Result<Option<String>, Error>)
    ensures
        match find_layout_href_spec(doc@.children, site_view(page)) {
            Ok(h) => r matches Ok(x) && match (x, h) {
                (Some(a), Some(b)) => a@ == b,
                (None, None) => true,
                _ => false,
            },
            Err(e) => r matches Err(x) && x@ == e,
        },
{
    let ghost cv = nodes_view(doc.children@);
    let mut hrefs: Vec<Option<String>> = Vec::new();
    let mut i: usize = 0;
    proof {
        assert(cv.take(0) =~= Seq::<NodeView>::empty());
        assert(opt_views(hrefs@) =~= Seq::<Option<Seq<char>>>::empty());
    }
    while i < doc.children.len()
        invariant
            i <= doc.children@.len(),
            cv == nodes_view(doc.children@),
            cv.len() == doc.children@.len(),
            opt_views(hrefs@) == layout_link_hrefs(cv.take(i as int)),
        decreases doc.children@.len() - i,
    {
        proof {
            assert(cv.take(i + 1).drop_last() =~= cv.take(i as int));
            assert(cv.take(i + 1)[i as int] == doc.children@[i as int]@);
        }
        collect_layout_hrefs(&doc.children[i], &mut hrefs);
        i += 1;
    }
    proof {
        assert(cv.take(i as int) =~= cv);
        reveal_strlit("a page can declare only one statica layout");
        reveal_strlit("statica layout link is missing `href`");
    }
    if hrefs.len() == 0 {
        return Ok(None);
    }
    if hrefs.len() > 1 {
        return Err(layout_err(page, "a page can declare only one statica layout"));
    }
    proof {
        assert(opt_views(hrefs@)[0] == match hrefs@[0] {
            Some(x) => Some(x@),
            None => None::<Seq<char>>,
        });
    }
    match &hrefs[0] {
        Some(h) => Ok(Some(h.clone())),
        None => Err(layout_err(page, "statica layout link is missing `href`")),
    }
}

/// The page's layout reference with aliases resolved.
pub open spec fn layout_href_spec(
    children: Seq<NodeView>,
    aliases: AliasOptions,
    page: Option<(Seq<char>, Seq<char>)>,
) -> Result<Option<Seq<char>>, ErrorView> {
    match find_layout_href_spec(children, page) {
        Ok(Some(h)) => match resolve_path_spec(aliases.symbol@, aliases.paths_view(), aliases.urls_view(), h, page, "href"@) {
            Ok(p) => Ok(Some(p)),
            Err(e) => Err(e),
        },
        other => other,
    }
}

/// The layout a page asks for, its alias resolved: none without a layout
/// link. Where the file is, and reading it, is the caller's part.
pub fn layout_href(doc: &Document, aliases: &AliasOptions, page: Option<(&str, &str)>) -> (r: Result<Option<String>, Error>)
    ensures
        match layout_href_spec(doc@.children, *aliases, site_view(page)) {
            Ok(h) => r matches Ok(x) && match (x, h) {
                (Some(a), Some(b)) => a@ == b,
                (None, None) => true,
                _ => false,
            },
            Err(e) => r matches Err(x) && x@ == e,
        },
{
    match find_layout_href(doc, page) {
        Err(e) => Err(e),
        Ok(None) => Ok(None),
        Ok(Some(h)) => {
            proof {
                reveal_strlit("href");
            }
            match resolve_path(h.as_str(), aliases, page, "href") {
                Ok(p) => Ok(Some(p)),
                Err(e) => Err(e),
            }
        },
    }
}

// ---------------------------------------------------------------------------
// Links inside the layout

/// A `<link>` to statica data or a statica fragment.
pub open spec fn is_data_or_fragment_link(e: ElementView) -> bool {
    tag_is(e.name, "link"@) && match attr_lookup(e.attrs, "rel"@) {
        Some(rel) => link_rel_spec(rel) == Some(StaticaLinkRel::Data) || link_rel_spec(rel) == Some(
            StaticaLinkRel::Fragment,
        ),
        None => false,
    }
}

/// The directory of the layout file (`.` when it has none).
pub open spec fn layout_dir_spec(layout_path: Seq<char>) -> Seq<char> {
    match parent_spec(layout_path) {
        Some(d) => d,
        None => "."@,
    }
}

/// A layout-relative `href` as the page sees it: relative to the site root
/// (leading `/` dropped) when it lies under it, else the joined path.
pub open spec fn rebased_href(site_root: Seq<char>, layout_dir: Seq<char>, href: Seq<char>) -> Seq<char> {
    let abs = path_join_spec(layout_dir, href);
    match strip_prefix_text(abs, site_root) {
        Some(rest) => {
            let t = trim_start_char(rest, '/');
            if t.len() > 0 {
                t
            } else {
                abs
            }
        },
        None => abs,
    }
}

/// The attributes of a layout element once its data or fragment `href` is
/// rebased.
pub open spec fn rebased_attrs(e: ElementView, site_root: Seq<char>, layout_dir: Seq<char>) -> Seq<(Seq<char>, Seq<char>)> {
    if is_data_or_fragment_link(e) {
        match attr_lookup(e.attrs, "href"@) {
            Some(h) => if should_rewrite_spec(h) {
                insert_attr_spec(e.attrs, "href"@, rebased_href(site_root, layout_dir, h))
            } else {
                e.attrs
            },
            None => e.attrs,
        }
    } else {
        e.attrs
    }
}

pub open spec fn rebase_nodes_spec(s: Seq<NodeView>, site_root: Seq<char>, layout_dir: Seq<char>) -> Seq<NodeView>
    decreases s,
{
    Seq::new(
        s.len(),
        |i: int| if 0 <= i < s.len() { rebase_node_spec(s[i], site_root, layout_dir) } else { NodeView::Text(Seq::empty()) },
    )
}

pub open spec fn rebase_node_spec(n: NodeView, site_root: Seq<char>, layout_dir: Seq<char>) -> NodeView
    decreases n,
{
    match n {
        NodeView::Element(e) => NodeView::Element(
            ElementView {
                attrs: rebased_attrs(e, site_root, layout_dir),
                children: rebase_nodes_spec(e.children, site_root, layout_dir),
                ..e
            },
        ),
        _ => n,
    }
}

fn rebase_href(site_root: &str, layout_dir: &str, href: &str) -> (r: String)
    ensures
        r@ == rebased_href(site_root@, layout_dir@, href@),
{
    let abs = resolve_layout_relative_href(layout_dir, href);
    match strip_prefix_str(abs.as_str(), site_root) {
        Some(rest) => {
            let v = chars_of(rest.as_str());
            let a = skip_char_run(v.as_slice(), 0, v.len(), '/');
            proof {
                assert(v@.subrange(0, v@.len() as int) =~= v@);
            }
            if a < v.len() {
                string_range(v.as_slice(), a, v.len())
            } else {
                abs
            }
        },
        None => abs,
    }
}

fn is_data_or_fragment_link_el(el: &Element) -> (r: bool)
    ensures
        r == is_data_or_fragment_link(el@),
{
    match el.statica_link_rel() {
        Some(StaticaLinkRel::Data) => true,
        Some(StaticaLinkRel::Fragment) => true,
        _ => false,
    }
}

fn rebase_node(node: &Node, site_root: &str, layout_dir: &str) -> (r: Node)
    ensures
        r@ == rebase_node_spec(node@, site_root@, layout_dir@),
    decreases node,
{
    match node {
        Node::Element(el) => {
            let mut attrs = attrs_clone(&el.attrs);
            proof {
                reveal_strlit("href");
            }
            if is_data_or_fragment_link_el(el) {
                match el.attr("href") {
                    Some(h) => {
                        if should_rewrite_layout_href(h) {
                            let rebased = rebase_href(site_root, layout_dir, h);
                            attrs_insert(&mut attrs, String::from_str("href"), rebased);
                        }
                    },
                    None => {},
                }
            }
            let mut kids: Vec<Node> = Vec::new();
            let mut i: usize = 0;
            while i < el.children.len()
                invariant
                    i <= el.children@.len(),
                    *node == Node::Element(*el),
                    kids@.len() == i,
                    forall|k: int|
                        0 <= k < i ==> (#[trigger] kids@[k])@ == rebase_node_spec(el.children@[k]@, site_root@, layout_dir@),
                decreases el.children@.len() - i,
            {
                proof {
                    assert(decreases_to!(*node => (*node)->Element_0));
                    assert(decreases_to!(el.children => el.children@));
                    assert(decreases_to!(el.children@ => el.children@[i as int]));
                }
                kids.push(rebase_node(&el.children[i], site_root, layout_dir));
                i += 1;
            }
            proof {
                assert(nodes_view(kids@) =~= rebase_nodes_spec(nodes_view(el.children@), site_root@, layout_dir@));
            }
            Node::Element(Element { name: el.name.clone(), attrs, children: kids, void: el.void })
        },
        _ => node.copy(),
    }
}

fn rebase_nodes(nodes: &mut Vec<Node>, site_root: &str, layout_dir: &str)
    ensures
        nodes_view(final(nodes)@) == rebase_nodes_spec(nodes_view(old(nodes)@), site_root@, layout_dir@),
{
    let mut out: Vec<Node> = Vec::new();
    let mut i: usize = 0;
    while i < nodes.len()
        invariant
            i <= nodes@.len(),
            out@.len() == i,
            forall|k: int| 0 <= k < i ==> (#[trigger] out@[k])@ == rebase_node_spec(nodes@[k]@, site_root@, layout_dir@),
        decreases nodes@.len() - i,
    {
        out.push(rebase_node(&nodes[i], site_root, layout_dir));
        i += 1;
    }
    proof {
        assert(nodes_view(out@) =~= rebase_nodes_spec(nodes_view(nodes@), site_root@, layout_dir@));
    }
    *nodes = out;
}

// ---------------------------------------------------------------------------
// The page's `data-bind`

/// Position of the first top-level `<{tag}>` element.
pub open spec fn root_index(s: Seq<NodeView>, tag: Seq<char>) -> Option<int>
    decreases s.len(),
{
    if s.len() == 0 {
        None
    } else if s[0] is Element && tag_is(s[0]->Element_0.name, tag) {
        Some(0)
    } else {
        match root_index(s.drop_first(), tag) {
            Some(i) => Some(i + 1),
            None => None,
        }
    }
}

proof fn lemma_root_index(s: Seq<NodeView>, tag: Seq<char>)
    ensures
        root_index(s, tag) matches Some(i) ==> 0 <= i < s.len() && s[i] is Element && tag_is(s[i]->Element_0.name, tag)
            && forall|j: int| 0 <= j < i ==> !(s[j] is Element && tag_is(s[j]->Element_0.name, tag)),
        root_index(s, tag) is None ==> forall|j: int| 0 <= j < s.len() ==> !(s[j] is Element && tag_is(s[j]->Element_0.name, tag)),
    decreases s.len(),
{
    if s.len() > 0 && !(s[0] is Element && tag_is(s[0]->Element_0.name, tag)) {
        lemma_root_index(s.drop_first(), tag);
        assert forall|j: int| 1 <= j < s.len() implies s[j] == s.drop_first()[j - 1] by {}
    }
}

fn root_element_index(nodes: &Vec<Node>, tag: &str) -> (r: Option<usize>)
    ensures
        match r {
            Some(i) => i < nodes@.len() && root_index(nodes_view(nodes@), tag@) == Some(i as int),
            None => root_index(nodes_view(nodes@), tag@) is None,
        },
{
    let ghost s = nodes_view(nodes@);
    let mut i: usize = 0;
    proof {
        assert(s.skip(0) =~= s);
    }
    while i < nodes.len()
        invariant
            i <= nodes@.len(),
            s == nodes_view(nodes@),
            s.len() == nodes@.len(),
            forall|j: int| 0 <= j < i ==> !(s[j] is Element && tag_is(s[j]->Element_0.name, tag@)),
            root_index(s, tag@) == match root_index(s.skip(i as int), tag@) {
                Some(k) => Some(k + i),
                None => None,
            },
        decreases nodes@.len() - i,
    {
        proof {
            assert(s[i as int] == nodes@[i as int]@);
            assert(s.skip(i as int)[0] == s[i as int]);
            assert(s.skip(i as int).drop_first() =~= s.skip(i + 1));
        }
        match &nodes[i] {
            Node::Element(el) => {
                if str_eq(lower_string(el.name.as_str()).as_str(), tag) {
                    return Some(i);
                }
            },
            _ => {},
        }
        i += 1;
    }
    None
}

/// The layout with the page's `<html data-bind>` copied onto its `<html>`
/// when that has none.
pub open spec fn copy_bind_spec(page: Seq<NodeView>, layout: Seq<NodeView>) -> Seq<NodeView> {
    match root_index(page, "html"@) {
        None => layout,
        Some(pi) => match attr_lookup(page[pi]->Element_0.attrs, DATA_BIND@) {
            None => layout,
            Some(b) => match root_index(layout, "html"@) {
                None => layout,
                Some(li) => {
                    let le = layout[li]->Element_0;
                    if attr_lookup(le.attrs, DATA_BIND@) is None {
                        layout.update(li, NodeView::Element(ElementView { attrs: le.attrs.push((DATA_BIND@, b)), ..le }))
                    } else {
                        layout
                    }
                },
            },
        },
    }
}

/// Copy the page's `<html data-bind>` onto the layout's `<html>` when that
/// has none.
pub fn copy_page_html_bind_if_missing(page: &Document, layout: &mut Document)
    ensures
        final(layout)@ == (DocumentView { children: copy_bind_spec(page@.children, old(layout)@.children), ..old(layout)@ }),
{
    proof {
        reveal_strlit("html");
    }
    let pi = match root_element_index(&page.children, "html") {
        Some(i) => i,
        None => {
            return;
        },
    };
    proof {
        lemma_root_index(nodes_view(page.children@), "html"@);
        assert(nodes_view(page.children@)[pi as int] == page.children@[pi as int]@);
    }
    let bind: String = match &page.children[pi] {
        Node::Element(el) => match el.attr(DATA_BIND) {
            Some(b) => String::from_str(b),
            None => {
                return;
            },
        },
        _ => {
            return;
        },
    };
    let li = match root_element_index(&layout.children, "html") {
        Some(i) => i,
        None => {
            return;
        },
    };
    proof {
        lemma_root_index(nodes_view(layout.children@), "html"@);
        assert(nodes_view(layout.children@)[li as int] == layout.children@[li as int]@);
    }
    let ghost lv = nodes_view(layout.children@);
    let replacement: Option<Node> = match &layout.children[li] {
        Node::Element(le) => {
            if le.attr(DATA_BIND).is_none() {
                let mut attrs = attrs_clone(&le.attrs);
                attrs_insert(&mut attrs, String::from_str(DATA_BIND), bind);
                Some(Node::Element(Element { name: le.name.clone(), attrs, children: copy_nodes(le.children.as_slice()), void: le.void }))
            } else {
                None
            }
        },
        _ => None,
    };
    match replacement {
        Some(n) => {
            let ghost nv = n@;
            layout.children.set(li, n);
            proof {
                assert(nodes_view(layout.children@) =~= lv.update(li as int, nv));
            }
        },
        None => {},
    }
}

// ---------------------------------------------------------------------------
// What the page projects into the layout

/// A layout link node.
pub open spec fn is_layout_link_node(n: NodeView) -> bool {
    n is Element && is_layout_link(n->Element_0)
}

/// `s` without its layout links.
pub open spec fn without_layout_links(s: Seq<NodeView>) -> Seq<NodeView>
    decreases s.len(),
{
    if s.len() == 0 {
        Seq::empty()
    } else if is_layout_link_node(s.last()) {
        without_layout_links(s.drop_last())
    } else {
        without_layout_links(s.drop_last()).push(s.last())
    }
}

/// One body node of the page sorted in: layout links and blank text are
/// dropped; a `<template slot="name">` gives its children to that slot,
/// another element with `slot="name"` goes there without the attribute;
/// everything else goes to the default slot.
pub open spec fn collect_step(p: ProjectionView, n: NodeView) -> ProjectionView {
    match n {
        NodeView::Element(e) => if is_layout_link(e) {
            p
        } else {
            match slot_target(n) {
                Some(k) => if tag_is(e.name, "template"@) {
                    ProjectionView { named: named_extend(p.named, k, e.children), ..p }
                } else {
                    ProjectionView {
                        named: named_extend(
                            p.named,
                            k,
                            seq![NodeView::Element(ElementView { attrs: remove_attr_spec(e.attrs, ATTR_SLOT@), ..e })],
                        ),
                        ..p
                    }
                },
                None => ProjectionView { default: p.default.push(n), ..p },
            }
        },
        NodeView::Text(t) => if crate::text::trim(t).len() == 0 {
            p
        } else {
            ProjectionView { default: p.default.push(n), ..p }
        },
        _ => ProjectionView { default: p.default.push(n), ..p },
    }
}

/// The nodes `s` sorted in after `p`, in order.
pub open spec fn collect_nodes_spec(p: ProjectionView, s: Seq<NodeView>) -> ProjectionView
    decreases s.len(),
{
    if s.len() == 0 {
        p
    } else {
        collect_step(collect_nodes_spec(p, s.drop_last()), s.last())
    }
}

/// What a page projects into its layout: the `<head>` children (without
/// layout links) under `head`, then the `<body>` children; a page without
/// `<html>` projects its top-level nodes.
pub open spec fn page_projection(children: Seq<NodeView>) -> ProjectionView {
    let empty = ProjectionView { default: Seq::empty(), named: Seq::empty() };
    match root_index(children, "html"@) {
        None => collect_nodes_spec(empty, children),
        Some(i) => {
            let html = children[i]->Element_0;
            let p1 = match root_index(html.children, "head"@) {
                Some(h) => ProjectionView {
                    named: named_extend(empty.named, "head"@, without_layout_links(html.children[h]->Element_0.children)),
                    ..empty
                },
                None => empty,
            };
            match root_index(html.children, "body"@) {
                Some(b) => collect_nodes_spec(p1, html.children[b]->Element_0.children),
                None => p1,
            }
        },
    }
}

fn collect_projected_node(node: &Node, projection: &mut SlotProjection)
    ensures
        final(projection)@ == collect_step(old(projection)@, node@),
{
    match node {
        Node::Element(el) => {
            if is_layout_link_el(el) {
                return;
            }
            let target: Option<String> = match el.attr(ATTR_SLOT) {
                Some(v) => {
                    let t = crate::text::trim_str(v);
                    if t.unicode_len() > 0 {
                        Some(t)
                    } else {
                        None
                    }
                },
                None => None,
            };
            match target {
                Some(name) => {
                    proof {
                        reveal_strlit("template");
                    }
                    if el.is_template() {
                        projection.extend_named(name.as_str(), copy_nodes(el.children.as_slice()));
                    } else {
                        let mut attrs = attrs_clone(&el.attrs);
                        attrs_shift_remove(&mut attrs, ATTR_SLOT);
                        let moved = Node::Element(Element {
                            name: el.name.clone(),
                            attrs,
                            children: copy_nodes(el.children.as_slice()),
                            void: el.void,
                        });
                        let mut one: Vec<Node> = Vec::new();
                        let ghost mv = moved@;
                        one.push(moved);
                        proof {
                            assert(nodes_view(one@) =~= seq![mv]);
                        }
                        projection.extend_named(name.as_str(), one);
                    }
                },
                None => {
                    projection.push_default(node.copy());
                },
            }
        },
        Node::Text(t) => {
            if crate::text::trim_str(t.as_str()).unicode_len() == 0 {
                return;
            }
            projection.push_default(node.copy());
        },
        _ => {
            projection.push_default(node.copy());
        },
    }
}

fn collect_nodes(nodes: &Vec<Node>, projection: &mut SlotProjection)
    ensures
        final(projection)@ == collect_nodes_spec(old(projection)@, nodes_view(nodes@)),
{
    let ghost s = nodes_view(nodes@);
    let mut i: usize = 0;
    proof {
        assert(s.take(0) =~= Seq::<NodeView>::empty());
    }
    while i < nodes.len()
        invariant
            i <= nodes@.len(),
            s == nodes_view(nodes@),
            s.len() == nodes@.len(),
            projection@ == collect_nodes_spec(old(projection)@, s.take(i as int)),
        decreases nodes@.len() - i,
    {
        proof {
            assert(s.take(i + 1).drop_last() =~= s.take(i as int));
            assert(s.take(i + 1).last() == nodes@[i as int]@);
        }
        collect_projected_node(&nodes[i], projection);
        i += 1;
    }
    proof {
        assert(s.take(i as int) =~= s);
    }
}

fn head_nodes(nodes: &Vec<Node>) -> (r: Vec<Node>)
    ensures
        nodes_view(r@) == without_layout_links(nodes_view(nodes@)),
{
    let ghost s = nodes_view(nodes@);
    let mut out: Vec<Node> = Vec::new();
    let mut i: usize = 0;
    proof {
        assert(s.take(0) =~= Seq::<NodeView>::empty());
        assert(nodes_view(out@) =~= Seq::<NodeView>::empty());
    }
    while i < nodes.len()
        invariant
            i <= nodes@.len(),
            s == nodes_view(nodes@),
            s.len() == nodes@.len(),
            nodes_view(out@) == without_layout_links(s.take(i as int)),
        decreases nodes@.len() - i,
    {
        proof {
            assert(s.take(i + 1).drop_last() =~= s.take(i as int));
            assert(s.take(i + 1).last() == nodes@[i as int]@);
        }
        let skip = match &nodes[i] {
            Node::Element(el) => is_layout_link_el(el),
            _ => false,
        };
        if !skip {
            let ghost before = nodes_view(out@);
            out.push(nodes[i].copy());
            proof {
                assert(nodes_view(out@) =~= before.push(nodes@[i as int]@));
            }
        }
        i += 1;
    }
    proof {
        assert(s.take(i as int) =~= s);
    }
    out
}

/// What the page projects into its layout (see [`page_projection`]).
pub fn collect_projection(doc: &Document) -> (r: SlotProjection)
    ensures
        r@ == page_projection(doc@.children),
{
    let mut projection = SlotProjection::empty();
    proof {
        reveal_strlit("html");
        reveal_strlit("head");
        reveal_strlit("body");
        lemma_root_index(nodes_view(doc.children@), "html"@);
    }
    let hi = match root_element_index(&doc.children, "html") {
        Some(i) => i,
        None => {
            collect_nodes(&doc.children, &mut projection);
            return projection;
        },
    };
    proof {
        assert(nodes_view(doc.children@)[hi as int] == doc.children@[hi as int]@);
    }
    match &doc.children[hi] {
        Node::Element(html) => {
            proof {
                lemma_root_index(nodes_view(html.children@), "head"@);
                lemma_root_index(nodes_view(html.children@), "body"@);
            }
            match root_element_index(&html.children, "head") {
                Some(h) => {
                    proof {
                        assert(nodes_view(html.children@)[h as int] == html.children@[h as int]@);
                    }
                    match &html.children[h] {
                        Node::Element(head) => {
                            projection.extend_named("head", head_nodes(&head.children));
                        },
                        _ => {},
                    }
                },
                None => {},
            }
            match root_element_index(&html.children, "body") {
                Some(b) => {
                    proof {
                        assert(nodes_view(html.children@)[b as int] == html.children@[b as int]@);
                    }
                    match &html.children[b] {
                        Node::Element(body) => {
                            collect_nodes(&body.children, &mut projection);
                        },
                        _ => {},
                    }
                },
                None => {},
            }
        },
        _ => {},
    }
    projection
}

// ---------------------------------------------------------------------------
// Applying the layout

/// Fill the layout's slots from the page's projection (the walk of
/// [`crate::bind::slots::fill_from`]), for a walk that ends.
pub fn fill_layout_slots(nodes: &mut Vec<Node>, projection: &SlotProjection)
    requires
        fill_terminates(nodes_view(old(nodes)@), projection@),
    ensures
        nodes_view(final(nodes)@) == fill_result(nodes_view(old(nodes)@), projection@),
{
    crate::bind::slots::fill_projection_slots(nodes, projection)
}

/// The layout's nodes once its links are rebased for the site root and the
/// page's `data-bind` is copied over, before its slots are filled.
pub open spec fn prepared_layout(page: Seq<NodeView>, layout: Seq<NodeView>, site_root: Seq<char>, layout_path: Seq<char>) -> Seq<
    NodeView,
> {
    copy_bind_spec(page, rebase_nodes_spec(layout, site_root, layout_dir_spec(layout_path)))
}

/// Pour the page into `layout` (read from `layout_path`): data and fragment
/// links in the layout are rebased for `site_root`, the page's `data-bind`
/// moves to the layout's `<html>` when that has none, and the layout's
/// slots are filled from the page (see [`page_projection`]); the page
/// becomes the filled layout. The slot walk must end (see
/// [`fill_terminates`]).
pub fn apply_page_layout(doc: &mut Document, layout: Document, site_root: &str, layout_path: &str)
    requires
        fill_terminates(
            prepared_layout(old(doc)@.children, layout@.children, site_root@, layout_path@),
            page_projection(old(doc)@.children),
        ),
    ensures
        final(doc)@ == (DocumentView {
            doctype: layout@.doctype,
            children: fill_result(
                prepared_layout(old(doc)@.children, layout@.children, site_root@, layout_path@),
                page_projection(old(doc)@.children),
            ),
        }),
{
    let mut layout = layout;
    let layout_dir = match parent(layout_path) {
        Some(d) => d,
        None => String::from_str("."),
    };
    proof {
        reveal_strlit(".");
    }
    rebase_nodes(&mut layout.children, site_root, layout_dir.as_str());
    copy_page_html_bind_if_missing(doc, &mut layout);
    let projection = collect_projection(doc);
    fill_layout_slots(&mut layout.children, &projection);
    *doc = layout;
}

/// [`apply_page_layout`] with a walk of at most `max_steps` steps over the
/// layout's slots (see [`crate::bind::slots::fill_from`]): `true` and the
/// filled layout when the walk ends within them; `false` and the page as it
/// was otherwise.
pub fn apply_page_layout_within(
    doc: &mut Document,
    layout: Document,
    site_root: &str,
    layout_path: &str,
    max_steps: usize,
) -> (r: bool)
    ensures
        r == crate::bind::slots::fill_from(
            prepared_layout(old(doc)@.children, layout@.children, site_root@, layout_path@),
            0,
            page_projection(old(doc)@.children),
            max_steps as nat,
        ) is Some,
        r ==> final(doc)@ == (DocumentView {
            doctype: layout@.doctype,
            children: crate::bind::slots::fill_from(
                prepared_layout(old(doc)@.children, layout@.children, site_root@, layout_path@),
                0,
                page_projection(old(doc)@.children),
                max_steps as nat,
            ).unwrap(),
        }),
        !r ==> final(doc)@ == old(doc)@,
{
    let mut layout = layout;
    let layout_dir = match parent(layout_path) {
        Some(d) => d,
        None => String::from_str("."),
    };
    proof {
        reveal_strlit(".");
    }
    rebase_nodes(&mut layout.children, site_root, layout_dir.as_str());
    copy_page_html_bind_if_missing(doc, &mut layout);
    let projection = collect_projection(doc);
    if crate::bind::slots::fill_projection_slots_within(&mut layout.children, &projection, max_steps) {
        *doc = layout;
        true
    } else {
        false
    }
}

} // verus!

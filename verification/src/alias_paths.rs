//! Alias references in the path attributes of a document (`href`, `src`,
//! `poster`, `action`) resolved to the paths and URLs they stand for.

use vstd::prelude::*;

use crate::aliases::{resolve_path, resolve_path_spec, site_view, AliasOptions};
use crate::error::{Error, ErrorView};
use crate::parse::ast::{nodes_view, Document, DocumentView, Element, ElementView, Node, NodeView};
use crate::parse::attrs::{attr_entries, attr_lookup, attrs_clone, attrs_get, attrs_insert, insert_attr_spec, AttrMap};
use crate::text::str_eq;

verus! {

/// One path attribute of `a` resolved, after the earlier ones.
pub open spec fn attr_step(
    r: Result<Seq<(Seq<char>, Seq<char>)>, ErrorView>,
    name: Seq<char>,
    aliases: AliasOptions,
    site: Option<(Seq<char>, Seq<char>)>,
) -> Result<Seq<(Seq<char>, Seq<char>)>, ErrorView> {
    match r {
        Err(x) => Err(x),
        Ok(a) => match attr_lookup(a, name) {
            None => Ok(a),
            Some(raw) => match resolve_path_spec(aliases.symbol@, aliases.paths_view(), aliases.urls_view(), raw, site, name) {
                Err(e) => Err(e),
                Ok(res) => Ok(
                    if res == raw {
                        a
                    } else {
                        insert_attr_spec(a, name, res)
                    },
                ),
            },
        },
    }
}

/// The attributes with `href`, `src`, `poster` and `action` resolved, in
/// that order; the first failure is the error.
pub open spec fn path_attrs_spec(
    a: Seq<(Seq<char>, Seq<char>)>,
    aliases: AliasOptions,
    site: Option<(Seq<char>, Seq<char>)>,
) -> Result<Seq<(Seq<char>, Seq<char>)>, ErrorView> {
    attr_step(
        attr_step(attr_step(attr_step(Ok(a), "href"@, aliases, site), "src"@, aliases, site), "poster"@, aliases, site),
        "action"@,
        aliases,
        site,
    )
}

pub open spec fn resolve_node_spec(n: NodeView, aliases: AliasOptions, site: Option<(Seq<char>, Seq<char>)>) -> Result<
    NodeView,
    ErrorView,
>
    decreases n,
{
    match n {
        NodeView::Element(e) => match path_attrs_spec(e.attrs, aliases, site) {
            Err(x) => Err(x),
            Ok(a) => match resolve_nodes_spec(e.children, aliases, site) {
                Ok(c) => Ok(NodeView::Element(ElementView { attrs: a, children: c, ..e })),
                Err(x) => Err(x),
            },
        },
        _ => Ok(n),
    }
}

/// Every element's path attributes resolved, in document order; the first
/// failure is the error.
pub open spec fn resolve_nodes_spec(s: Seq<NodeView>, aliases: AliasOptions, site: Option<(Seq<char>, Seq<char>)>) -> Result<
    Seq<NodeView>,
    ErrorView,
>
    decreases s,
{
    if s.len() == 0 {
        Ok(Seq::empty())
    } else {
        proof {
            assert(decreases_to!(s => s[s.len() - 1]));
        }
        match resolve_nodes_spec(s.drop_last(), aliases, site) {
            Err(x) => Err(x),
            Ok(pre) => match resolve_node_spec(s[s.len() - 1], aliases, site) {
                Ok(n) => Ok(pre.push(n)),
                Err(x) => Err(x),
            },
        }
    }
}

fn resolve_attr(m: &mut AttrMap, name: &str, aliases: &AliasOptions, site: Option<(&str, &str)>) -> (r: Result<(), Error>)
    ensures
        match attr_step(Ok(attr_entries(*old(m))), name@, *aliases, site_view(site)) {
            Ok(a) => r is Ok && attr_entries(*final(m)) == a,
            Err(e) => r matches Err(x) && x@ == e,
        },
{
    let raw = match attrs_get(m, name) {
        Some(v) => v.clone(),
        None => {
            return Ok(());
        },
    };
    let resolved = match resolve_path(raw.as_str(), aliases, site, name) {
        Ok(s) => s,
        Err(e) => {
            return Err(e);
        },
    };
    if !str_eq(resolved.as_str(), raw.as_str()) {
        attrs_insert(m, String::from_str(name), resolved);
    }
    Ok(())
}

fn resolve_element_attrs(el: &Element, aliases: &AliasOptions, site: Option<(&str, &str)>) -> (r: Result<AttrMap, Error>)
    ensures
        match path_attrs_spec(el@.attrs, *aliases, site_view(site)) {
            Ok(a) => r matches Ok(m) && attr_entries(m) == a,
            Err(e) => r matches Err(x) && x@ == e,
        },
{
    let mut m = attrs_clone(&el.attrs);
    proof {
        reveal_strlit("href");
        reveal_strlit("src");
        reveal_strlit("poster");
        reveal_strlit("action");
    }
    let r = resolve_attr(&mut m, "href", aliases, site);
    if let Err(e) = r {
        return Err(e);
    }
    let r = resolve_attr(&mut m, "src", aliases, site);
    if let Err(e) = r {
        return Err(e);
    }
    let r = resolve_attr(&mut m, "poster", aliases, site);
    if let Err(e) = r {
        return Err(e);
    }
    let r = resolve_attr(&mut m, "action", aliases, site);
    if let Err(e) = r {
        return Err(e);
    }
    Ok(m)
}

/// Once a prefix of the nodes fails, the whole list fails with that error.
proof fn lemma_resolve_err_prefix(s: Seq<NodeView>, k: int, aliases: AliasOptions, site: Option<(Seq<char>, Seq<char>)>)
    requires
        0 <= k <= s.len(),
        resolve_nodes_spec(s.take(k), aliases, site) is Err,
    ensures
        resolve_nodes_spec(s, aliases, site) == resolve_nodes_spec(s.take(k), aliases, site),
    decreases s.len() - k,
{
    if k < s.len() {
        let t = s.take(k + 1);
        assert(t.drop_last() =~= s.take(k));
        lemma_resolve_err_prefix(s, k + 1, aliases, site);
    } else {
        assert(s.take(k) =~= s);
    }
}

fn resolve_node(node: &Node, aliases: &AliasOptions, site: Option<(&str, &str)>) -> (r: Result<Node, Error>)
    ensures
        match resolve_node_spec(node@, *aliases, site_view(site)) {
            Ok(n) => r matches Ok(x) && x@ == n,
            Err(e) => r matches Err(x) && x@ == e,
        },
    decreases node,
{
    match node {
        Node::Element(el) => {
            let attrs = match resolve_element_attrs(el, aliases, site) {
                Ok(m) => m,
                Err(e) => {
                    return Err(e);
                },
            };
            let ghost kv = nodes_view(el.children@);
            let mut kids: Vec<Node> = Vec::new();
            let mut i: usize = 0;
            proof {
                assert(kv.take(0) =~= Seq::<NodeView>::empty());
                assert(nodes_view(kids@) =~= Seq::<NodeView>::empty());
            }
            while i < el.children.len()
                invariant
                    i <= el.children@.len(),
                    *node == Node::Element(*el),
                    kv == nodes_view(el.children@),
                    path_attrs_spec(el@.attrs, *aliases, site_view(site)) == Ok::<
                        Seq<(Seq<char>, Seq<char>)>,
                        ErrorView,
                    >(attr_entries(attrs)),
                    resolve_nodes_spec(kv.take(i as int), *aliases, site_view(site)) == Ok::<Seq<NodeView>, ErrorView>(
                        nodes_view(kids@),
                    ),
                decreases el.children@.len() - i,
            {
                proof {
                    assert(decreases_to!(*node => (*node)->Element_0));
                    assert(decreases_to!(el.children => el.children@));
                    assert(decreases_to!(el.children@ => el.children@[i as int]));
                    assert(kv.take(i + 1).drop_last() =~= kv.take(i as int));
                    assert(kv.take(i + 1)[i as int] == el.children@[i as int]@);
                }
                match resolve_node(&el.children[i], aliases, site) {
                    Ok(n) => {
                        let ghost before = nodes_view(kids@);
                        let ghost nv = n@;
                        kids.push(n);
                        proof {
                            assert(nodes_view(kids@) =~= before.push(nv));
                        }
                    },
                    Err(e) => {
                        proof {
                            lemma_resolve_err_prefix(kv, (i + 1) as int, *aliases, site_view(site));
                        }
                        return Err(e);
                    },
                }
                i += 1;
            }
            proof {
                assert(kv.take(i as int) =~= kv);
            }
            Ok(Node::Element(Element { name: el.name.clone(), attrs, children: kids, void: el.void }))
        },
        _ => Ok(node.copy()),
    }
}

/// Resolve alias paths in `href`, `src`, `poster` and `action` on every
/// element, at any depth. On an error (the first in document order) the
/// nodes are left as they were.
pub fn resolve_paths_in_nodes(nodes: &mut Vec<Node>, aliases: &AliasOptions, site: Option<(&str, &str)>) -> (r: Result<(), Error>)
    ensures
        match resolve_nodes_spec(nodes_view(old(nodes)@), *aliases, site_view(site)) {
            Ok(c) => r is Ok && nodes_view(final(nodes)@) == c,
            Err(e) => r matches Err(x) && x@ == e && final(nodes)@ == old(nodes)@,
        },
{
    let ghost orig = nodes_view(nodes@);
    let mut out: Vec<Node> = Vec::new();
    let mut i: usize = 0;
    proof {
        assert(orig.take(0) =~= Seq::<NodeView>::empty());
        assert(nodes_view(out@) =~= Seq::<NodeView>::empty());
    }
    while i < nodes.len()
        invariant
            i <= nodes@.len(),
            orig == nodes_view(nodes@),
            resolve_nodes_spec(orig.take(i as int), *aliases, site_view(site)) == Ok::<Seq<NodeView>, ErrorView>(
                nodes_view(out@),
            ),
        decreases nodes@.len() - i,
    {
        proof {
            assert(orig.take(i + 1).drop_last() =~= orig.take(i as int));
            assert(orig.take(i + 1)[i as int] == nodes@[i as int]@);
        }
        match resolve_node(&nodes[i], aliases, site) {
            Ok(n) => {
                let ghost before = nodes_view(out@);
                let ghost nv = n@;
                out.push(n);
                proof {
                    assert(nodes_view(out@) =~= before.push(nv));
                }
            },
            Err(e) => {
                proof {
                    lemma_resolve_err_prefix(orig, (i + 1) as int, *aliases, site_view(site));
                }
                return Err(e);
            },
        }
        i += 1;
    }
    proof {
        assert(orig.take(i as int) =~= orig);
    }
    *nodes = out;
    Ok(())
}

/// [`resolve_paths_in_nodes`] on the whole document.
pub fn resolve_paths_in_document(doc: &mut Document, aliases: &AliasOptions, site: Option<(&str, &str)>) -> (r: Result<
    (),
    Error,
>)
    ensures
        match resolve_nodes_spec(old(doc)@.children, *aliases, site_view(site)) {
            Ok(c) => r is Ok && final(doc)@ == (DocumentView { children: c, ..old(doc)@ }),
            Err(e) => r matches Err(x) && x@ == e && final(doc)@ == old(doc)@,
        },
{
    resolve_paths_in_nodes(&mut doc.children, aliases, site)
}

} // verus!

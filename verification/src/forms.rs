//! Static forms: `<form statica>` gets its provider endpoint as `action` at
//! build time (no client JS; native `method="POST"`).

use vstd::prelude::*;

use crate::error::{Error, ErrorView};
use crate::parse::attrs::{insert_attr_spec, remove_attr_spec};
use crate::parse::ast::{nodes_view, tag_is, Document, Element, ElementView, Node, NodeView};
use crate::parse::attrs::{attr_entries, attr_index, attr_lookup, attrs_clone, attrs_insert, attrs_shift_remove};
use crate::loc::{diag_at, diag_at_file, str_views};
use crate::table::{table_get, StrMap};
use crate::text::{contains, lower_seq, lower_string, replace_all, replace_str, str_contains, str_eq, trim, trim_str};

verus! {

/// Form provider backend (from `[forms]` in statica.toml).
#[derive(Debug, Clone, Copy, PartialEq, Eq, Default)]
pub enum FormProvider {
    #[default]
    Formspree,
    Custom,
}

/// Build-time form wiring (mapped from `[forms]` in statica.toml).
#[derive(Debug, Clone, PartialEq, Eq)]
pub struct FormsOptions {
    pub enabled: bool,
    pub provider: FormProvider,
    /// Formspree: template with `{id}`. Custom: single POST URL for every form.
    pub endpoint: String,
    /// Logical form name → provider form id (Formspree) or unused (Custom).
    pub ids: StrMap,
}

impl Default for FormsOptions {
    /// Off; Formspree with its `{id}` endpoint; no ids.
    fn default() -> (r: Self)
        ensures
            !r.enabled,
            r.provider == FormProvider::Formspree,
            r.endpoint@ == "https://formspree.io/f/{id}"@,
            r.ids.view_entries() == Seq::<(Seq<char>, Seq<char>)>::empty(),
    {
        FormsOptions {
            enabled: false,
            provider: FormProvider::Formspree,
            endpoint: String::from_str("https://formspree.io/f/{id}"),
            ids: StrMap::new(),
        }
    }
}

/// `custom` (any case, trimmed) selects the custom provider; anything else Formspree.
pub open spec fn provider_named(s: Seq<char>) -> FormProvider {
    if lower_seq(trim(s)) == "custom"@ {
        FormProvider::Custom
    } else {
        FormProvider::Formspree
    }
}

impl FormsOptions {
    pub fn provider_from_str(s: &str) -> (r: FormProvider)
        ensures
            r == provider_named(s@),
    {
        let w = lower_string(trim_str(s).as_str());
        if str_eq(w.as_str(), "custom") {
            FormProvider::Custom
        } else {
            FormProvider::Formspree
        }
    }
}

/// A form error located by `needles` in the page source, or at `<page>`.
pub open spec fn form_err_spec(site: Option<(Seq<char>, Seq<char>)>, needles: Seq<Seq<char>>, message: Seq<char>) -> ErrorView {
    match site {
        Some((file, source)) => ErrorView::Diag(diag_at(file, source, needles, message)),
        None => ErrorView::Diag(diag_at_file("<page>"@, message)),
    }
}

/// The `action` of a statica form named `key` (its `name`, else its `id`).
pub open spec fn form_action_spec(
    provider: FormProvider,
    endpoint: Seq<char>,
    ids: Seq<(Seq<char>, Seq<char>)>,
    key: Option<Seq<char>>,
    site: Option<(Seq<char>, Seq<char>)>,
) -> Result<Seq<char>, ErrorView> {
    match key {
        None => Err(
            form_err_spec(
                site,
                seq!["statica"@, "name="@, "id="@],
                "statica form requires a name or id attribute for [forms.ids] lookup"@,
            ),
        ),
        Some(k) => match provider {
            FormProvider::Formspree => match table_get(ids, k) {
                None => Err(
                    form_err_spec(
                        site,
                        seq!["name=\""@ + k + "\""@, "id=\""@ + k + "\""@, "statica"@],
                        "no [forms.ids] entry for form `"@ + k + "`"@,
                    ),
                ),
                Some(id) => if !contains(endpoint, "{id}"@) {
                    Err(
                        form_err_spec(
                            site,
                            seq!["statica"@],
                            "forms endpoint must contain `{id}` for provider \"formspree\""@,
                        ),
                    )
                } else {
                    Ok(replace_all(endpoint, "{id}"@, id))
                },
            },
            FormProvider::Custom => if endpoint.len() == 0 {
                Err(form_err_spec(site, seq!["statica"@], "forms endpoint is empty for provider \"custom\""@))
            } else {
                Ok(endpoint)
            },
        },
    }
}

pub open spec fn site_views(site: Option<(&str, &str)>) -> Option<(Seq<char>, Seq<char>)> {
    match site {
        Some((f, s)) => Some((f@, s@)),
        None => None,
    }
}

fn form_err(site: Option<(&str, &str)>, needles: Vec<&str>, message: &str) -> (r: Error)
    ensures
        r@ == form_err_spec(site_views(site), str_views(needles@), message@),
{
    match site {
        Some((file, source)) => Error::at(file, source, needles.as_slice(), message),
        None => Error::at_file("<page>", message),
    }
}

/// The `action` URL for a `<form statica>` whose key (`name`, else `id`) is
/// `key`: Formspree fills `{id}` from `[forms.ids]`; custom posts to the endpoint.
pub fn form_action(forms: &FormsOptions, key: Option<&str>, site: Option<(&str, &str)>) -> (r: Result<String, Error>)
    ensures
        match form_action_spec(
            forms.provider,
            forms.endpoint@,
            forms.ids.view_entries(),
            match key {
                Some(k) => Some(k@),
                None => None,
            },
            site_views(site),
        ) {
            Ok(a) => r matches Ok(x) && x@ == a,
            Err(e) => r matches Err(x) && x@ == e,
        },
{
    match key {
        None => {
            let needles = vec!["statica", "name=", "id="];
            proof {
                assert(str_views(needles@) =~= seq!["statica"@, "name="@, "id="@]);
            }
            Err(form_err(site, needles, "statica form requires a name or id attribute for [forms.ids] lookup"))
        },
        Some(k) => match forms.provider {
            FormProvider::Formspree => match forms.ids.get(k) {
                None => {
                    let mut n1 = String::from_str("name=\"");
                    n1.append(k);
                    n1.append("\"");
                    let mut n2 = String::from_str("id=\"");
                    n2.append(k);
                    n2.append("\"");
                    let mut m = String::from_str("no [forms.ids] entry for form `");
                    m.append(k);
                    m.append("`");
                    let needles = vec![n1.as_str(), n2.as_str(), "statica"];
                    proof {
                        assert(str_views(needles@) =~= seq![n1@, n2@, "statica"@]);
                    }
                    Err(form_err(site, needles, m.as_str()))
                },
                Some(id) => {
                    if !str_contains(forms.endpoint.as_str(), "{id}") {
                        let needles = vec!["statica"];
                        proof {
                            assert(str_views(needles@) =~= seq!["statica"@]);
                        }
                        Err(
                            form_err(
                                site,
                                needles,
                                "forms endpoint must contain `{id}` for provider \"formspree\"",
                            ),
                        )
                    } else {
                        proof {
                            reveal_strlit("{id}");
                        }
                        Ok(replace_str(forms.endpoint.as_str(), "{id}", id.as_str()))
                    }
                },
            },
            FormProvider::Custom => {
                if forms.endpoint.unicode_len() == 0 {
                    let needles = vec!["statica"];
                    proof {
                        assert(str_views(needles@) =~= seq!["statica"@]);
                    }
                    Err(form_err(site, needles, "forms endpoint is empty for provider \"custom\""))
                } else {
                    Ok(String::from_str(forms.endpoint.as_str()))
                }
            },
        },
    }
}

// ---------------------------------------------------------------------------
// Wiring forms in a document

/// `<form statica>` (any ASCII case of `form`).
pub open spec fn is_statica_form(e: ElementView) -> bool {
    tag_is(e.name, "form"@) && attr_index(e.attrs, "statica"@) is Some
}

/// The key a form is looked up by: its `name`, else its `id`.
pub open spec fn form_key_spec(e: ElementView) -> Option<Seq<char>> {
    match attr_lookup(e.attrs, "name"@) {
        Some(n) => Some(n),
        None => attr_lookup(e.attrs, "id"@),
    }
}

/// A statica form is looked up by its `name`, whatever its `id`; only a
/// form without `name` is looked up by `id`.
pub proof fn law_form_key_prefers_name(e: ElementView)
    ensures
        attr_lookup(e.attrs, "name"@) matches Some(n) ==> form_key_spec(e) == Some(n),
        attr_lookup(e.attrs, "name"@) is None ==> form_key_spec(e) == attr_lookup(e.attrs, "id"@),
{
}

/// A wired form's attributes: `statica` removed, `action` and `method="POST"` set.
pub open spec fn wired_attrs(a: Seq<(Seq<char>, Seq<char>)>, action: Seq<char>) -> Seq<(Seq<char>, Seq<char>)> {
    insert_attr_spec(insert_attr_spec(remove_attr_spec(a, "statica"@), "action"@, action), "method"@, "POST"@)
}

/// An element itself, wired when it is a statica form.
pub open spec fn wire_head_spec(e: ElementView, forms: FormsOptions, site: Option<(Seq<char>, Seq<char>)>) -> Result<ElementView, ErrorView> {
    if is_statica_form(e) {
        match form_action_spec(forms.provider, forms.endpoint@, forms.ids.view_entries(), form_key_spec(e), site) {
            Ok(a) => Ok(ElementView { attrs: wired_attrs(e.attrs, a), ..e }),
            Err(x) => Err(x),
        }
    } else {
        Ok(e)
    }
}

/// A node with every statica form in it wired, or the first error met in
/// document order.
pub open spec fn wire_node_spec(
    n: NodeView,
    forms: FormsOptions,
    site: Option<(Seq<char>, Seq<char>)>,
) -> Result<NodeView, ErrorView>
    decreases n,
{
    match n {
        NodeView::Element(e) => {
            match wire_head_spec(e, forms, site) {
                Err(x) => Err(x),
                Ok(h) => match wire_nodes_spec(e.children, forms, site) {
                    Ok(c) => Ok(NodeView::Element(ElementView { children: c, ..h })),
                    Err(x) => Err(x),
                },
            }
        },
        _ => Ok(n),
    }
}

pub open spec fn wire_nodes_spec(
    s: Seq<NodeView>,
    forms: FormsOptions,
    site: Option<(Seq<char>, Seq<char>)>,
) -> Result<Seq<NodeView>, ErrorView>
    decreases s,
{
    if s.len() == 0 {
        Ok(Seq::empty())
    } else {
        proof {
            assert(decreases_to!(s => s[s.len() - 1]));
        }
        match wire_nodes_spec(s.drop_last(), forms, site) {
            Err(x) => Err(x),
            Ok(pre) => match wire_node_spec(s[s.len() - 1], forms, site) {
                Ok(n) => Ok(pre.push(n)),
                Err(x) => Err(x),
            },
        }
    }
}

fn form_key(el: &Element) -> (r: Option<&str>)
    ensures
        match r {
            Some(k) => form_key_spec(el@) == Some(k@),
            None => form_key_spec(el@) is None,
        },
{
    match el.attr("name") {
        Some(n) => Some(n),
        None => el.attr("id"),
    }
}

fn is_statica_form_el(el: &Element) -> (r: bool)
    ensures
        r == is_statica_form(el@),
{
    let is_form = {
        let l = lower_string(el.name.as_str());
        str_eq(l.as_str(), "form")
    };
    is_form && el.attr("statica").is_some()
}

fn wire_form(el: &Element, forms: &FormsOptions, site: Option<(&str, &str)>) -> (r: Result<Element, Error>)
    requires
        is_statica_form(el@),
    ensures
        match form_action_spec(forms.provider, forms.endpoint@, forms.ids.view_entries(), form_key_spec(el@), site_views(site)) {
            Ok(a) => r matches Ok(x) && x@ == (ElementView { attrs: wired_attrs(el@.attrs, a), ..el@ }),
            Err(e) => r matches Err(x) && x@ == e,
        },
{
    let action = match form_action(forms, form_key(el), site) {
        Ok(a) => a,
        Err(e) => {
            return Err(e);
        },
    };
    let mut attrs = attrs_clone(&el.attrs);
    attrs_shift_remove(&mut attrs, "statica");
    attrs_insert(&mut attrs, String::from_str("action"), action);
    attrs_insert(&mut attrs, String::from_str("method"), String::from_str("POST"));
    let mut children: Vec<Node> = Vec::new();
    let mut i: usize = 0;
    while i < el.children.len()
        invariant
            i <= el.children@.len(),
            children@.len() == i,
            forall|k: int| 0 <= k < i ==> (#[trigger] children@[k])@ == el.children@[k]@,
        decreases el.children@.len() - i,
    {
        children.push(el.children[i].copy());
        i += 1;
    }
    let r = Element { name: el.name.clone(), attrs, children, void: el.void };
    proof {
        assert(nodes_view(r.children@) =~= nodes_view(el.children@));
    }
    Ok(r)
}

fn wire_node(node: &Node, forms: &FormsOptions, site: Option<(&str, &str)>) -> (r: Result<Node, Error>)
    ensures
        match wire_node_spec(node@, *forms, site_views(site)) {
            Ok(n) => r matches Ok(x) && x@ == n,
            Err(e) => r matches Err(x) && x@ == e,
        },
    decreases node,
{
    match node {
        Node::Element(el) => {
            let head = if is_statica_form_el(el) {
                match wire_form(el, forms, site) {
                    Ok(w) => w,
                    Err(e) => {
                        return Err(e);
                    },
                }
            } else {
                el.copy()
            };
            let ghost hv = head@;
            proof {
                assert(wire_head_spec(el@, *forms, site_views(site)) == Ok::<ElementView, ErrorView>(hv));
            }
            let mut kids: Vec<Node> = Vec::new();
            let mut i: usize = 0;
            proof {
                assert(nodes_view(el.children@).take(0) =~= Seq::<NodeView>::empty());
                assert(nodes_view(kids@) =~= Seq::<NodeView>::empty());
            }
            while i < el.children.len()
                invariant
                    i <= el.children@.len(),
                    *node == Node::Element(*el),
                    hv == head@,
                    wire_head_spec(el@, *forms, site_views(site)) == Ok::<ElementView, ErrorView>(hv),
                    wire_nodes_spec(nodes_view(el.children@).take(i as int), *forms, site_views(site))
                        == Ok::<Seq<NodeView>, ErrorView>(nodes_view(kids@)),
                decreases el.children@.len() - i,
            {
                proof {
                    assert(decreases_to!(*node => (*node)->Element_0));
                    assert(decreases_to!(el.children => el.children@));
                    assert(decreases_to!(el.children@ => el.children@[i as int]));
                    let kv = nodes_view(el.children@);
                    assert(kv.take(i + 1).drop_last() =~= kv.take(i as int));
                    assert(kv.take(i + 1)[i as int] == el.children@[i as int]@);
                }
                match wire_node(&el.children[i], forms, site) {
                    Ok(n) => {
                        let ghost nv = n@;
                        let ghost before = nodes_view(kids@);
                        kids.push(n);
                        proof {
                            assert(nodes_view(kids@) =~= before.push(nv));
                        }
                    },
                    Err(e) => {
                        proof {
                            lemma_wire_nodes_err_prefix(
                                nodes_view(el.children@),
                                (i + 1) as int,
                                *forms,
                                site_views(site),
                            );
                        }
                        return Err(e);
                    },
                }
                i += 1;
            }
            proof {
                assert(nodes_view(el.children@).take(el.children@.len() as int) =~= nodes_view(el.children@));
            }
            let r = Element { name: head.name, attrs: head.attrs, children: kids, void: head.void };
            Ok(Node::Element(r))
        },
        _ => Ok(node.copy()),
    }
}

/// Once a prefix of the nodes fails, the whole list fails with that error.
proof fn lemma_wire_nodes_err_prefix(s: Seq<NodeView>, k: int, forms: FormsOptions, site: Option<(Seq<char>, Seq<char>)>)
    requires
        0 <= k <= s.len(),
        wire_nodes_spec(s.take(k), forms, site) is Err,
    ensures
        wire_nodes_spec(s, forms, site) == wire_nodes_spec(s.take(k), forms, site),
    decreases s.len() - k,
{
    if k < s.len() {
        let t = s.take(k + 1);
        assert(t.drop_last() =~= s.take(k));
        lemma_wire_nodes_err_prefix(s, k + 1, forms, site);
    } else {
        assert(s.take(k) =~= s);
    }
}

/// Wire every `<form statica>` in the document when [`FormsOptions::enabled`]:
/// `statica` goes, `action` becomes the provider endpoint and `method` is
/// `POST`. On an error (the first in document order) the document is left
/// as it was.
pub fn wire_forms_in_document(doc: &mut Document, forms: &FormsOptions, site: Option<(&str, &str)>) -> (r: Result<(), Error>)
    ensures
        !forms.enabled ==> r is Ok && final(doc)@ == old(doc)@,
        forms.enabled ==> match wire_nodes_spec(old(doc)@.children, *forms, site_views(site)) {
            Ok(c) => r is Ok && final(doc)@ == (crate::parse::ast::DocumentView { children: c, ..old(doc)@ }),
            Err(e) => r matches Err(x) && x@ == e && final(doc)@ == old(doc)@,
        },
{
    if !forms.enabled {
        return Ok(());
    }
    let ghost orig = nodes_view(doc.children@);
    let mut out: Vec<Node> = Vec::new();
    let mut i: usize = 0;
    proof {
        assert(orig.take(0) =~= Seq::<NodeView>::empty());
        assert(nodes_view(out@) =~= Seq::<NodeView>::empty());
    }
    while i < doc.children.len()
        invariant
            i <= doc.children@.len(),
            forms.enabled,
            orig == nodes_view(doc.children@),
            wire_nodes_spec(orig.take(i as int), *forms, site_views(site)) == Ok::<Seq<NodeView>, ErrorView>(nodes_view(out@)),
        decreases doc.children@.len() - i,
    {
        proof {
            assert(orig.take(i + 1).drop_last() =~= orig.take(i as int));
            assert(orig.take(i + 1)[i as int] == doc.children@[i as int]@);
        }
        match wire_node(&doc.children[i], forms, site) {
            Ok(n) => {
                let ghost nv = n@;
                let ghost before = nodes_view(out@);
                out.push(n);
                proof {
                    assert(nodes_view(out@) =~= before.push(nv));
                }
            },
            Err(e) => {
                proof {
                    lemma_wire_nodes_err_prefix(orig, (i + 1) as int, *forms, site_views(site));
                }
                return Err(e);
            },
        }
        i += 1;
    }
    proof {
        assert(orig.take(doc.children@.len() as int) =~= orig);
    }
    doc.children = out;
    Ok(())
}

} // verus!

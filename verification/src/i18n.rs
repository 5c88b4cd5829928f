//! Internationalization settings: `[locale]` route expansion, `data-t`
//! translation markers, and the translation catalog each locale sees.

use vstd::prelude::*;

use crate::discover::PageSource;
use crate::aliases::{path_join, path_join_spec};
use crate::error::{Error, ErrorView};
use crate::loc::diag_at_file;
use crate::funnel::template::is_identifier_spec;
use crate::text::{lex_le, chars_of, contains, replace_all, replace_str, str_contains, contains_str, has_prefix, join, join_strings, starts_with_chars, str_eq, views};
use crate::bind::{expand_spec, expand_template};
use crate::parse::attrs::insert_attr_spec;
use crate::parse::attrs::remove_attr_spec;
use crate::funnel::json::member_lookup;
use crate::funnel::value::{members_view, JsonView, Value};
use crate::parse::ast::{nodes_view, tag_is, Document, DocumentView, Element, ElementView, Node, NodeView};
use crate::parse::attrs::{
    attr_entries, attr_index, attr_lookup, attr_names, attrs_clone, attrs_get, attrs_get_index, attrs_insert,
    attrs_len, attrs_new, attrs_shift_remove, keys_unique, AttrMap,
};
use crate::tokens::{DATA_T, DATA_T_ATTR_PREFIX};

verus! {

/// Route param name for locale expansion (`[locale]/…`).
pub const LOCALE_PARAM: &'static str = "locale";

/// The placeholder a data `href` uses for the active locale.
pub const LOCALE_TOKEN: &'static str = "${locale}";

/// Whether a data `href` uses `${locale}`.
pub fn src_has_locale_token(src: &str) -> (r: bool)
    ensures
        r == contains(src@, LOCALE_TOKEN@),
{
    str_contains(src, LOCALE_TOKEN)
}

/// `src` with every `${locale}` replaced by `locale`.
pub fn interpolate_locale(src: &str, locale: &str) -> (r: String)
    ensures
        r@ == replace_all(src@, LOCALE_TOKEN@, locale@),
{
    proof {
        reveal_strlit("${locale}");
    }
    replace_str(src, LOCALE_TOKEN, locale)
}

pub open spec fn a11y_attrs() -> Seq<Seq<char>> {
    seq![
        "alt"@,
        "aria-braillelabel"@,
        "aria-brailleroledescription"@,
        "aria-description"@,
        "aria-errormessage"@,
        "aria-label"@,
        "aria-placeholder"@,
        "aria-roledescription"@,
        "aria-valuetext"@,
        "placeholder"@,
        "title"@,
    ]
}

/// Accessibility-related attributes that authors typically translate via `data-t-{attr}`.
pub fn a11y_translatable_attrs() -> (r: Vec<&'static str>)
    ensures
        r@.map_values(|s: &str| s@) == a11y_attrs(),
{
    let r = vec![
        "alt",
        "aria-braillelabel",
        "aria-brailleroledescription",
        "aria-description",
        "aria-errormessage",
        "aria-label",
        "aria-placeholder",
        "aria-roledescription",
        "aria-valuetext",
        "placeholder",
        "title",
    ];
    proof {
        assert(r@.map_values(|s: &str| s@) =~= a11y_attrs());
    }
    r
}

/// Whether an attribute name is a `data-t-{target}` translation marker.
pub open spec fn is_data_t_attr_spec(name: Seq<char>) -> bool {
    has_prefix(name, DATA_T_ATTR_PREFIX@) && name.len() > DATA_T_ATTR_PREFIX@.len()
}

pub fn is_data_t_attr(name: &str) -> (r: bool)
    ensures
        r == is_data_t_attr_spec(name@),
{
    let v = chars_of(name);
    let p = chars_of(DATA_T_ATTR_PREFIX);
    starts_with_chars(v.as_slice(), DATA_T_ATTR_PREFIX) && v.len() > p.len()
}

/// Target attribute for a `data-t-{target}` marker (`data-t-aria-label` → `aria-label`).
pub fn target_attr_from_data_t_key(name: &str) -> (r: Option<&str>)
    ensures
        match r {
            Some(t) => is_data_t_attr_spec(name@) && t@ == name@.skip(DATA_T_ATTR_PREFIX@.len() as int),
            None => !is_data_t_attr_spec(name@),
        },
{
    let v = chars_of(name);
    let p = chars_of(DATA_T_ATTR_PREFIX);
    if starts_with_chars(v.as_slice(), DATA_T_ATTR_PREFIX) && v.len() > p.len() {
        let t = name.substring_char(p.len(), v.len());
        proof {
            assert(t@ =~= name@.skip(DATA_T_ATTR_PREFIX@.len() as int));
        }
        Some(t)
    } else {
        None
    }
}

/// i18n settings mapped from `[i18n]` in `statica.toml`.
#[derive(Debug, Clone)]
pub struct I18nOptions {
    pub enabled: bool,
    /// Default locale (used for pages without `[locale]` in the route).
    pub default_locale: String,
    /// Locales emitted for every `[locale]/…` page template.
    pub locales: Vec<String>,
    /// Directory under the site root with `{locale}.json` catalogs.
    pub dir: String,
    /// Fallback catalog when a key is missing. Empty → `default_locale`.
    pub fallback: String,
}

impl Default for I18nOptions {
    /// Off; `en` only; catalogs in `content/i18n`.
    fn default() -> (r: Self)
        ensures
            !r.enabled,
            r.default_locale@ == "en"@,
            views(r.locales@) == seq!["en"@],
            r.dir@ == "content/i18n"@,
            r.fallback@.len() == 0,
    {
        let mut locales: Vec<String> = Vec::new();
        locales.push(String::from_str("en"));
        proof {
            assert(views(locales@) =~= seq!["en"@]);
        }
        I18nOptions {
            enabled: false,
            default_locale: String::from_str("en"),
            locales,
            dir: String::from_str("content/i18n"),
            fallback: String::new(),
        }
    }
}

/// The reason a configuration is refused, if it is.
pub open spec fn i18n_error(enabled: bool, default_locale: Seq<char>, locales: Seq<Seq<char>>) -> Option<Seq<char>> {
    if !enabled {
        None
    } else if locales.len() == 0 {
        Some("[i18n].locales is empty; add at least one locale, for example locales = [\"en\"]"@)
    } else if !locales.contains(default_locale) {
        Some("[i18n].default `"@ + default_locale + "` must appear in locales ("@ + join(locales, ", "@) + ")"@)
    } else {
        None
    }
}

impl I18nOptions {
    /// `fallback`, or the default locale when it is empty.
    pub fn effective_fallback(&self) -> (r: &str)
        ensures
            r@ == (if self.fallback@.len() == 0 {
                self.default_locale@
            } else {
                self.fallback@
            }),
    {
        if self.fallback.unicode_len() == 0 {
            self.default_locale.as_str()
        } else {
            self.fallback.as_str()
        }
    }

    /// Enabled settings need locales, and the default among them.
    pub fn validate(&self) -> (r: Result<(), Error>)
        ensures
            match i18n_error(self.enabled, self.default_locale@, views(self.locales@)) {
                None => r is Ok,
                Some(m) => r matches Err(e) && e@ == ErrorView::Diag(diag_at_file("statica.toml"@, m)),
            },
    {
        if !self.enabled {
            return Ok(());
        }
        if self.locales.len() == 0 {
            return Err(
                Error::at_file(
                    "statica.toml",
                    "[i18n].locales is empty; add at least one locale, for example locales = [\"en\"]",
                ),
            );
        }
        let mut found = false;
        let mut i: usize = 0;
        while i < self.locales.len()
            invariant
                i <= self.locales@.len(),
                found == (exists|j: int| 0 <= j < i && views(self.locales@)[j] == self.default_locale@),
            decreases self.locales@.len() - i,
        {
            if str_eq(self.locales[i].as_str(), self.default_locale.as_str()) {
                proof {
                    assert(views(self.locales@)[i as int] == self.default_locale@);
                }
                found = true;
            }
            i += 1;
        }
        if !found {
            let mut m = String::from_str("[i18n].default `");
            m.append(self.default_locale.as_str());
            m.append("` must appear in locales (");
            m.append(join_strings(&self.locales, ", ").as_str());
            m.append(")");
            return Err(Error::at_file("statica.toml", m.as_str()));
        }
        Ok(())
    }

    /// i18n is on and the route has a `locale` parameter.
    pub fn route_has_locale(&self, params: &[&str]) -> (r: bool)
        ensures
            r == (self.enabled && exists|j: int| 0 <= j < params@.len() && params@[j]@ == LOCALE_PARAM@),
    {
        if !self.enabled {
            return false;
        }
        let mut i: usize = 0;
        while i < params.len()
            invariant
                self.enabled,
                i <= params@.len(),
                forall|j: int| 0 <= j < i ==> params@[j]@ != LOCALE_PARAM@,
            decreases params@.len() - i,
        {
            if str_eq(params[i], LOCALE_PARAM) {
                proof {
                    assert(params@[i as int]@ == LOCALE_PARAM@);
                }
                return true;
            }
            i += 1;
        }
        false
    }
}

/// Whether the build should write a root redirect to the default locale home:
/// i18n is on, no page is the site root, and the default locale's home page was
/// written (`default_home_written`, a fact about the output directory).
pub fn should_emit_root_redirect(i18n: &I18nOptions, pages: &[PageSource], default_home_written: bool) -> (r: bool)
    ensures
        r == (i18n.enabled && (forall|j: int| 0 <= j < pages@.len() ==> pages@[j].route@.len() != 0)
            && default_home_written),
{
    if !i18n.enabled {
        return false;
    }
    let mut i: usize = 0;
    while i < pages.len()
        invariant
            i <= pages@.len(),
            forall|j: int| 0 <= j < i ==> pages@[j].route@.len() != 0,
        decreases pages@.len() - i,
    {
        if pages[i].route.is_home() {
            return false;
        }
        i += 1;
    }
    default_home_written
}

pub open spec fn root_redirect_spec(locale: Seq<char>) -> Seq<char> {
    let target = "/"@ + locale + "/"@;
    "<!doctype html>\n<html lang=\""@ + locale + "\">\n  <head>\n    <meta charset=\"utf-8\" />\n    <meta http-equiv=\"refresh\" content=\"0; url="@
        + target + "\" />\n    <link rel=\"canonical\" href=\""@ + target
        + "\" />\n    <title>Redirecting…</title>\n    <script>location.replace(\""@ + target
        + "\" + location.hash);</script>\n  </head>\n  <body>\n    <p><a href=\""@ + target
        + "\">Continue to site</a></p>\n  </body>\n</html>"@
}

/// Minimal root redirect page for static hosts (meta refresh + JS fallback).
pub fn root_redirect_html(default_locale: &str) -> (r: String)
    ensures
        r@ == root_redirect_spec(default_locale@),
{
    let mut target = String::from_str("/");
    target.append(default_locale);
    target.append("/");
    let t = target.as_str();
    let mut s = String::from_str("<!doctype html>\n<html lang=\"");
    s.append(default_locale);
    s.append("\">\n  <head>\n    <meta charset=\"utf-8\" />\n    <meta http-equiv=\"refresh\" content=\"0; url=");
    s.append(t);
    s.append("\" />\n    <link rel=\"canonical\" href=\"");
    s.append(t);
    s.append("\" />\n    <title>Redirecting…</title>\n    <script>location.replace(\"");
    s.append(t);
    s.append("\" + location.hash);</script>\n  </head>\n  <body>\n    <p><a href=\"");
    s.append(t);
    s.append("\">Continue to site</a></p>\n  </body>\n</html>");
    s
}

/// Catalog directory: `dir` as is when absolute, else under the site root.
pub fn catalog_dir(root: &str, opts: &I18nOptions) -> (r: String)
    ensures
        r@ == path_join_spec(root@, opts.dir@),
{
    path_join(root, opts.dir.as_str())
}

/// Catalog file of a locale: `{dir}/{locale}.json`.
pub fn catalog_path(dir: &str, locale: &str) -> (r: String)
    ensures
        r@ == path_join_spec(dir@, locale@ + ".json"@),
{
    let mut name = String::from_str(locale);
    name.append(".json");
    path_join(dir, name.as_str())
}


/// Any non-empty attribute name prefixed with `data-t-` is a marker whose
/// target is that attribute.
pub proof fn law_marker_targets_its_attribute(attr: Seq<char>)
    requires
        attr.len() > 0,
    ensures
        is_data_t_attr_spec(DATA_T_ATTR_PREFIX@ + attr),
        (DATA_T_ATTR_PREFIX@ + attr).skip(DATA_T_ATTR_PREFIX@.len() as int) == attr,
{
    let m = DATA_T_ATTR_PREFIX@ + attr;
    assert(m.subrange(0, DATA_T_ATTR_PREFIX@.len() as int) =~= DATA_T_ATTR_PREFIX@);
    assert(m.skip(DATA_T_ATTR_PREFIX@.len() as int) =~= attr);
}

// ---------------------------------------------------------------------------
// Translating and stripping markers in a tree

/// `(target, template)` of each `data-t-{target}` marker, in order.
pub open spec fn data_t_markers(a: Seq<(Seq<char>, Seq<char>)>) -> Seq<(Seq<char>, Seq<char>)>
    decreases a.len(),
{
    if a.len() == 0 {
        Seq::empty()
    } else {
        data_t_markers(a.drop_last()) + if is_data_t_attr_spec(a.last().0) {
            seq![(a.last().0.skip(DATA_T_ATTR_PREFIX@.len() as int), a.last().1)]
        } else {
            Seq::empty()
        }
    }
}

/// Apply markers in order: the target takes the expanded template (in place
/// when present, else appended), then the marker is removed.
pub open spec fn apply_markers(
    a: Seq<(Seq<char>, Seq<char>)>,
    ms: Seq<(Seq<char>, Seq<char>)>,
    ctx: JsonView,
) -> Seq<(Seq<char>, Seq<char>)>
    decreases ms.len(),
{
    if ms.len() == 0 {
        a
    } else {
        let set = insert_attr_spec(a, ms[0].0, expand_spec(ms[0].1, ctx));
        apply_markers(remove_attr_spec(set, DATA_T_ATTR_PREFIX@ + ms[0].0), ms.drop_first(), ctx)
    }
}

/// One element translated: `data-t` replaces the content with its expanded
/// template and is removed; then each `data-t-{attr}` sets `{attr}`.
pub open spec fn translate_element(e: ElementView, ctx: JsonView) -> ElementView {
    let (children, attrs) = match attr_lookup(e.attrs, DATA_T@) {
        Some(t) => (seq![NodeView::Text(expand_spec(t, ctx))], remove_attr_spec(e.attrs, DATA_T@)),
        None => (e.children, e.attrs),
    };
    ElementView { attrs: apply_markers(attrs, data_t_markers(attrs), ctx), children, ..e }
}

/// Nodes with every element translated, parents before their (new) children.
pub open spec fn apply_data_t_spec(s: Seq<NodeView>, ctx: JsonView) -> Seq<NodeView>
    decreases s,
{
    Seq::new(s.len(), |i: int| if 0 <= i < s.len() { data_t_node(s[i], ctx) } else { NodeView::Text(Seq::empty()) })
}

pub open spec fn data_t_node(n: NodeView, ctx: JsonView) -> NodeView
    decreases n,
{
    match n {
        NodeView::Element(e) => {
            let t = translate_element(e, ctx);
            let kids = match attr_lookup(e.attrs, DATA_T@) {
                Some(_) => t.children,
                None => apply_data_t_spec(e.children, ctx),
            };
            NodeView::Element(ElementView { children: kids, ..t })
        },
        _ => n,
    }
}

fn data_t_marker_list(m: &AttrMap) -> (r: Vec<(String, String)>)
    ensures
        r@.map_values(|p: (String, String)| (p.0@, p.1@)) == data_t_markers(attr_entries(*m)),
{
    let ghost e = attr_entries(*m);
    let n = attrs_len(m);
    let mut out: Vec<(String, String)> = Vec::new();
    let mut i: usize = 0;
    proof {
        assert(e.take(0) =~= Seq::<(Seq<char>, Seq<char>)>::empty());
        assert(out@.map_values(|p: (String, String)| (p.0@, p.1@)) =~= Seq::<(Seq<char>, Seq<char>)>::empty());
    }
    while i < n
        invariant
            i <= n,
            n == e.len(),
            e == attr_entries(*m),
            out@.map_values(|p: (String, String)| (p.0@, p.1@)) == data_t_markers(e.take(i as int)),
        decreases n - i,
    {
        match attrs_get_index(m, i) {
            Some((k, v)) => {
                proof {
                    assert(e.take(i + 1).drop_last() =~= e.take(i as int));
                    assert(e.take(i + 1).last() == (k@, v@));
                }
                let ghost before = out@.map_values(|p: (String, String)| (p.0@, p.1@));
                match target_attr_from_data_t_key(k.as_str()) {
                    Some(t) => {
                        out.push((String::from_str(t), v.clone()));
                        proof {
                            assert(out@.map_values(|p: (String, String)| (p.0@, p.1@)) =~= before + seq![(t@, v@)]);
                        }
                    },
                    None => {
                        proof {
                            assert(before + Seq::<(Seq<char>, Seq<char>)>::empty() =~= before);
                        }
                    },
                }
            },
            None => {},
        }
        i += 1;
    }
    proof {
        assert(e.take(n as int) =~= e);
    }
    out
}

fn translate_attrs(m: &mut AttrMap, ctx: &Value)
    ensures
        attr_entries(*final(m)) == apply_markers(attr_entries(*old(m)), data_t_markers(attr_entries(*old(m))), ctx@),
{
    let markers = data_t_marker_list(m);
    let ghost ms = markers@.map_values(|p: (String, String)| (p.0@, p.1@));
    let ghost start = attr_entries(*m);
    let mut i: usize = 0;
    proof {
        assert(ms.skip(0) =~= ms);
    }
    while i < markers.len()
        invariant
            i <= markers@.len(),
            ms == markers@.map_values(|p: (String, String)| (p.0@, p.1@)),
            apply_markers(start, ms, ctx@) == apply_markers(attr_entries(*m), ms.skip(i as int), ctx@),
        decreases markers@.len() - i,
    {
        let (target, key) = (&markers[i].0, &markers[i].1);
        proof {
            assert(ms.skip(i as int)[0] == (target@, key@));
            assert(ms.skip(i as int).drop_first() =~= ms.skip(i + 1));
        }
        let value = expand_template(key.as_str(), ctx);
        attrs_insert(m, target.clone(), value);
        let mut marker = String::from_str(DATA_T_ATTR_PREFIX);
        marker.append(target.as_str());
        attrs_shift_remove(m, marker.as_str());
        i += 1;
    }
    proof {
        assert(ms.skip(i as int) =~= Seq::<(Seq<char>, Seq<char>)>::empty());
    }
}

fn data_t_node_exec(node: &Node, ctx: &Value) -> (r: Node)
    ensures
        r@ == data_t_node(node@, ctx@),
    decreases node,
{
    match node {
        Node::Element(el) => {
            let mut attrs = attrs_clone(&el.attrs);
            let kids: Vec<Node> = match attrs_get(&el.attrs, DATA_T) {
                Some(text) => {
                    let t = expand_template(text.as_str(), ctx);
                    attrs_shift_remove(&mut attrs, DATA_T);
                    let mut v: Vec<Node> = Vec::new();
                    v.push(Node::Text(t));
                    proof {
                        assert(nodes_view(v@) =~= seq![NodeView::Text(expand_spec(text@, ctx@))]);
                    }
                    v
                },
                None => {
                    let mut v: Vec<Node> = Vec::new();
                    let mut i: usize = 0;
                    while i < el.children.len()
                        invariant
                            i <= el.children@.len(),
                            *node == Node::Element(*el),
                            v@.len() == i,
                            forall|k: int| 0 <= k < i ==> (#[trigger] v@[k])@ == data_t_node(el.children@[k]@, ctx@),
                        decreases el.children@.len() - i,
                    {
                        proof {
                            assert(decreases_to!(*node => (*node)->Element_0));
                            assert(decreases_to!(el.children => el.children@));
                            assert(decreases_to!(el.children@ => el.children@[i as int]));
                        }
                        v.push(data_t_node_exec(&el.children[i], ctx));
                        i += 1;
                    }
                    proof {
                        assert(nodes_view(v@) =~= apply_data_t_spec(nodes_view(el.children@), ctx@));
                    }
                    v
                },
            };
            translate_attrs(&mut attrs, ctx);
            Node::Element(Element { name: el.name.clone(), attrs, children: kids, void: el.void })
        },
        _ => node.copy(),
    }
}

/// Replace `data-t="text ${path}"` element content with the expanded template;
/// `data-t-{attr}="text ${path}"` sets `{attr}` from its expanded template.
/// Markers are removed once applied.
pub fn apply_data_t(nodes: &mut Vec<Node>, context: &Value)
    ensures
        nodes_view(final(nodes)@) == apply_data_t_spec(nodes_view(old(nodes)@), context@),
{
    let mut out: Vec<Node> = Vec::new();
    let mut i: usize = 0;
    while i < nodes.len()
        invariant
            i <= nodes@.len(),
            out@.len() == i,
            forall|k: int| 0 <= k < i ==> (#[trigger] out@[k])@ == data_t_node(nodes@[k]@, context@),
        decreases nodes@.len() - i,
    {
        out.push(data_t_node_exec(&nodes[i], context));
        i += 1;
    }
    proof {
        assert(nodes_view(out@) =~= apply_data_t_spec(nodes_view(nodes@), context@));
    }
    *nodes = out;
}

/// A translation marker (`data-t` or `data-t-{attr}`).
pub open spec fn is_translation_marker(name: Seq<char>) -> bool {
    name == DATA_T@ || is_data_t_attr_spec(name)
}

/// The attributes that are not translation markers, in order.
pub open spec fn without_markers(a: Seq<(Seq<char>, Seq<char>)>) -> Seq<(Seq<char>, Seq<char>)>
    decreases a.len(),
{
    if a.len() == 0 {
        Seq::empty()
    } else {
        without_markers(a.drop_last()) + if is_translation_marker(a.last().0) {
            Seq::empty()
        } else {
            seq![a.last()]
        }
    }
}

/// Nodes with every translation marker removed, content kept, at any depth.
pub open spec fn strip_data_t_spec(s: Seq<NodeView>) -> Seq<NodeView>
    decreases s,
{
    Seq::new(s.len(), |i: int| if 0 <= i < s.len() { strip_data_t_node(s[i]) } else { NodeView::Text(Seq::empty()) })
}

pub open spec fn strip_data_t_node(n: NodeView) -> NodeView
    decreases n,
{
    match n {
        NodeView::Element(e) => NodeView::Element(ElementView {
            attrs: without_markers(e.attrs),
            children: strip_data_t_spec(e.children),
            ..e
        }),
        _ => n,
    }
}

fn is_translation_marker_name(name: &str) -> (r: bool)
    ensures
        r == is_translation_marker(name@),
{
    str_eq(name, DATA_T) || is_data_t_attr(name)
}

fn strip_markers(m: &AttrMap) -> (r: AttrMap)
    ensures
        attr_entries(r) == without_markers(attr_entries(*m)),
{
    let ghost e = attr_entries(*m);
    let names = attr_names(m);
    let mut out = attrs_new();
    let mut i: usize = 0;
    proof {
        assert(e.take(0) =~= Seq::<(Seq<char>, Seq<char>)>::empty());
    }
    while i < names.len()
        invariant
            i <= names@.len(),
            names@.len() == e.len(),
            e == attr_entries(*m),
            keys_unique(e),
            forall|j: int| 0 <= j < names@.len() ==> (#[trigger] names@[j])@ == e[j].0,
            attr_entries(out) == without_markers(e.take(i as int)),
            forall|j: int| 0 <= j < attr_entries(out).len() ==> exists|t: int| 0 <= t < i && #[trigger] attr_entries(out)[j].0 == e[t].0,
        decreases names@.len() - i,
    {
        let name = &names[i];
        proof {
            assert(e.take(i + 1).drop_last() =~= e.take(i as int));
            assert(e.take(i + 1).last() == e[i as int]);
            crate::parse::attrs::lemma_unique_index(e, i as int);
        }
        let ghost before = attr_entries(out);
        if !is_translation_marker_name(name.as_str()) {
            match attrs_get(m, name.as_str()) {
                Some(v) => {
                    proof {
                        crate::parse::attrs::lemma_attr_index_bounds(before, name@);
                        if attr_index(before, name@) is Some {
                            let j = attr_index(before, name@)->0;
                            let t = choose|t: int| 0 <= t < i && #[trigger] before[j].0 == e[t].0;
                            assert(e[t].0 != e[i as int].0);
                        }
                    }
                    attrs_insert(&mut out, name.clone(), v.clone());
                    proof {
                        assert(attr_entries(out) =~= without_markers(e.take(i + 1)));
                        assert forall|j: int| 0 <= j < attr_entries(out).len() implies exists|t: int| 0 <= t < i + 1 && #[trigger] attr_entries(out)[j].0 == e[t].0 by {
                            if j < before.len() {
                                let t = choose|t: int| 0 <= t < i && #[trigger] before[j].0 == e[t].0;
                                assert(attr_entries(out)[j].0 == e[t].0);
                            } else {
                                assert(attr_entries(out)[j].0 == e[i as int].0);
                            }
                        }
                    }
                },
                None => {},
            }
        } else {
            proof {
                assert(without_markers(e.take(i + 1)) =~= before);
            }
        }
        i += 1;
    }
    proof {
        assert(e.take(names@.len() as int) =~= e);
    }
    out
}

fn strip_data_t_node_exec(node: &Node) -> (r: Node)
    ensures
        r@ == strip_data_t_node(node@),
    decreases node,
{
    match node {
        Node::Element(el) => {
            let attrs = strip_markers(&el.attrs);
            let mut v: Vec<Node> = Vec::new();
            let mut i: usize = 0;
            while i < el.children.len()
                invariant
                    i <= el.children@.len(),
                    *node == Node::Element(*el),
                    v@.len() == i,
                    forall|k: int| 0 <= k < i ==> (#[trigger] v@[k])@ == strip_data_t_node(el.children@[k]@),
                decreases el.children@.len() - i,
            {
                proof {
                    assert(decreases_to!(*node => (*node)->Element_0));
                    assert(decreases_to!(el.children => el.children@));
                    assert(decreases_to!(el.children@ => el.children@[i as int]));
                }
                v.push(strip_data_t_node_exec(&el.children[i]));
                i += 1;
            }
            let r = Element { name: el.name.clone(), attrs, children: v, void: el.void };
            proof {
                assert(nodes_view(r.children@) =~= strip_data_t_spec(nodes_view(el.children@)));
            }
            Node::Element(r)
        },
        _ => node.copy(),
    }
}

/// Remove `data-t` / `data-t-*` without translating (for pages with no
/// active locale).
pub fn strip_data_t(nodes: &mut Vec<Node>)
    ensures
        nodes_view(final(nodes)@) == strip_data_t_spec(nodes_view(old(nodes)@)),
{
    let mut out: Vec<Node> = Vec::new();
    let mut i: usize = 0;
    while i < nodes.len()
        invariant
            i <= nodes@.len(),
            out@.len() == i,
            forall|k: int| 0 <= k < i ==> (#[trigger] out@[k])@ == strip_data_t_node(nodes@[k]@),
        decreases nodes@.len() - i,
    {
        out.push(strip_data_t_node_exec(&nodes[i]));
        i += 1;
    }
    proof {
        assert(nodes_view(out@) =~= strip_data_t_spec(nodes_view(nodes@)));
    }
    *nodes = out;
}

/// Position of the first top-level `<html>` element.
pub open spec fn html_index(s: Seq<NodeView>) -> Option<int>
    decreases s.len(),
{
    if s.len() == 0 {
        None
    } else if s[0] is Element && tag_is(s[0]->Element_0.name, "html"@) {
        Some(0)
    } else {
        match html_index(s.drop_first()) {
            Some(i) => Some(i + 1),
            None => None,
        }
    }
}

proof fn lemma_html_index(s: Seq<NodeView>)
    ensures
        match html_index(s) {
            Some(i) => 0 <= i < s.len() && s[i] is Element && tag_is(s[i]->Element_0.name, "html"@)
                && forall|j: int| 0 <= j < i ==> !(s[j] is Element && tag_is(s[j]->Element_0.name, "html"@)),
            None => forall|j: int| 0 <= j < s.len() ==> !(s[j] is Element && tag_is(s[j]->Element_0.name, "html"@)),
        },
    decreases s.len(),
{
    if s.len() > 0 {
        lemma_html_index(s.drop_first());
        assert forall|j: int| 1 <= j < s.len() implies s[j] == s.drop_first()[j - 1] by {}
    }
}

/// The document with `lang` set on its first top-level `<html>`.
pub open spec fn set_lang_spec(d: DocumentView, locale: Seq<char>) -> DocumentView {
    match html_index(d.children) {
        Some(i) => {
            let e = d.children[i]->Element_0;
            DocumentView {
                children: d.children.update(i, NodeView::Element(ElementView { attrs: insert_attr_spec(e.attrs, "lang"@, locale), ..e })),
                ..d
            }
        },
        None => d,
    }
}

/// Set `<html lang="…">` for the active locale.
pub fn set_html_lang(doc: &mut Document, locale: &str)
    ensures
        final(doc)@ == set_lang_spec(old(doc)@, locale@),
{
    let ghost kids = nodes_view(doc.children@);
    proof {
        lemma_html_index(kids);
    }
    let mut i: usize = 0;
    while i < doc.children.len()
        invariant
            i <= doc.children@.len(),
            *doc == *old(doc),
            kids == nodes_view(doc.children@),
            forall|j: int| 0 <= j < i ==> !(kids[j] is Element && tag_is(kids[j]->Element_0.name, "html"@)),
        decreases doc.children@.len() - i,
    {
        proof {
            assert(kids[i as int] == doc.children@[i as int]@);
        }
        let upd: Option<Node> = match &doc.children[i] {
            Node::Element(el) => if el.name_is_html() {
                let mut e = el.copy();
                attrs_insert(&mut e.attrs, String::from_str("lang"), String::from_str(locale));
                proof {
                    assert(kids[i as int] == NodeView::Element(el@));
                }
                Some(Node::Element(e))
            } else {
                proof {
                    assert(kids[i as int] == NodeView::Element(el@));
                }
                None
            },
            _ => None,
        };
        match upd {
            Some(u) => {
                let ghost uv = u@;
                proof {
                    let e = kids[i as int]->Element_0;
                    assert(uv == NodeView::Element(ElementView { attrs: insert_attr_spec(e.attrs, "lang"@, locale@), ..e }));
                    lemma_html_index(kids);
                    match html_index(kids) {
                        Some(k) => {
                            if k < i {
                                assert(!(kids[k] is Element && tag_is(kids[k]->Element_0.name, "html"@)));
                            }
                            if k > i {
                                assert(kids[i as int] is Element && tag_is(kids[i as int]->Element_0.name, "html"@));
                            }
                        },
                        None => {
                            assert(kids[i as int] is Element && tag_is(kids[i as int]->Element_0.name, "html"@));
                        },
                    }
                    assert(html_index(kids) == Some(i as int));
                }
                doc.children.set(i, u);
                proof {
                    assert(nodes_view(doc.children@) =~= kids.update(i as int, uv));
                }
                return;
            },
            None => {},
        }
        i += 1;
    }
    proof {
        match html_index(kids) {
            Some(k) => {
                assert(!(kids[k] is Element && tag_is(kids[k]->Element_0.name, "html"@)));
            },
            None => {},
        }
        assert(html_index(kids) is None);
    }
}
} // verus!

verus! {

// ---------------------------------------------------------------------------
// Translation catalogs


/// Position of the first member named `k`.
pub open spec fn member_index(m: Seq<(Seq<char>, JsonView)>, k: Seq<char>) -> Option<int>
    decreases m.len(),
{
    if m.len() == 0 {
        None
    } else if m[0].0 == k {
        Some(0)
    } else {
        match member_index(m.drop_first(), k) {
            Some(i) => Some(i + 1),
            None => None,
        }
    }
}

/// `map.insert(k, v)`: the member named `k` takes `v`, or `(k, v)` is added.
pub open spec fn member_set(m: Seq<(Seq<char>, JsonView)>, k: Seq<char>, v: JsonView) -> Seq<(Seq<char>, JsonView)> {
    match member_index(m, k) {
        Some(i) => m.update(i, (k, v)),
        None => m.push((k, v)),
    }
}

pub(crate) proof fn lemma_member_index(m: Seq<(Seq<char>, JsonView)>, k: Seq<char>)
    ensures
        member_index(m, k) matches Some(i) ==> 0 <= i < m.len() && m[i].0 == k && member_lookup(m, k) == Some(m[i].1),
        member_index(m, k) is None ==> member_lookup(m, k) is None && forall|j: int| 0 <= j < m.len() ==> m[j].0 != k,
    decreases m.len(),
{
    if m.len() > 0 && m[0].0 != k {
        lemma_member_index(m.drop_first(), k);
        assert forall|j: int| 1 <= j < m.len() implies m[j] == m.drop_first()[j - 1] by {}
    }
}

/// `overlay` laid over `base`: two objects merge member by member (objects
/// under the same key merge again), anything else is `overlay`.
pub open spec fn merge_spec(base: JsonView, overlay: JsonView) -> JsonView
    decreases overlay,
{
    match (base, overlay) {
        (JsonView::Object(bm), JsonView::Object(om)) => JsonView::Object(merge_members(bm, om)),
        _ => overlay,
    }
}

/// The members `om` laid over `out` in order.
pub open spec fn merge_members(out: Seq<(Seq<char>, JsonView)>, om: Seq<(Seq<char>, JsonView)>) -> Seq<
    (Seq<char>, JsonView),
>
    decreases om,
{
    if om.len() == 0 {
        out
    } else {
        proof {
            assert(decreases_to!(om => om[om.len() - 1]));
        }
        let prev = merge_members(out, om.drop_last());
        let k = om[om.len() - 1].0;
        let v = om[om.len() - 1].1;
        let nv = match member_lookup(prev, k) {
            Some(e) => if e is Object && v is Object {
                merge_spec(e, v)
            } else {
                v
            },
            None => v,
        };
        member_set(prev, k, nv)
    }
}

pub(crate) fn member_position(m: &Vec<(String, Value)>, k: &str) -> (r: Option<usize>)
    ensures
        match r {
            Some(i) => i < m@.len() && member_index(members_view(m@), k@) == Some(i as int),
            None => member_index(members_view(m@), k@) is None,
        },
{
    let ghost mv = members_view(m@);
    let mut i: usize = 0;
    proof {
        assert(mv.skip(0) =~= mv);
    }
    while i < m.len()
        invariant
            i <= m@.len(),
            mv == members_view(m@),
            member_index(mv, k@) == match member_index(mv.skip(i as int), k@) {
                Some(j) => Some(j + i),
                None => None,
            },
        decreases m@.len() - i,
    {
        proof {
            assert(mv.skip(i as int)[0] == (m@[i as int].0@, m@[i as int].1@));
            assert(mv.skip(i as int).drop_first() =~= mv.skip(i + 1));
        }
        if str_eq(m[i].0.as_str(), k) {
            return Some(i);
        }
        i += 1;
    }
    proof {
        assert(mv.skip(i as int) =~= Seq::<(Seq<char>, JsonView)>::empty());
    }
    None
}

pub(crate) fn copy_members(m: &Vec<(String, Value)>) -> (r: Vec<(String, Value)>)
    ensures
        members_view(r@) == members_view(m@),
{
    let mut out: Vec<(String, Value)> = Vec::new();
    let mut i: usize = 0;
    while i < m.len()
        invariant
            i <= m@.len(),
            out@.len() == i,
            forall|j: int| 0 <= j < i ==> (#[trigger] out@[j]).0@ == m@[j].0@ && out@[j].1@ == m@[j].1@,
        decreases m@.len() - i,
    {
        out.push((m[i].0.clone(), m[i].1.copy()));
        i += 1;
    }
    proof {
        assert(members_view(out@) =~= members_view(m@));
    }
    out
}

/// `overlay` laid over `base` (see [`merge_spec`]).
pub fn deep_merge(base: &Value, overlay: &Value) -> (r: Value)
    ensures
        r@ == merge_spec(base@, overlay@),
    decreases overlay,
{
    match (base, overlay) {
        (Value::Object(bm), Value::Object(om)) => {
            let mut out = copy_members(bm);
            let ghost omv = members_view(om@);
            let ghost bmv = members_view(bm@);
            let mut i: usize = 0;
            proof {
                assert(omv.take(0) =~= Seq::<(Seq<char>, JsonView)>::empty());
            }
            while i < om.len()
                invariant
                    i <= om@.len(),
                    *overlay == Value::Object(*om),
                    omv == members_view(om@),
                    omv.len() == om@.len(),
                    members_view(out@) == merge_members(bmv, omv.take(i as int)),
                decreases om@.len() - i,
            {
                proof {
                    assert(decreases_to!(*overlay => (*overlay)->Object_0));
                    assert(decreases_to!(om => om@));
                    assert(decreases_to!(om@ => om@[i as int]));
                    assert(omv.take(i + 1).drop_last() =~= omv.take(i as int));
                    assert(omv.take(i + 1)[i as int] == (om@[i as int].0@, om@[i as int].1@));
                    lemma_member_index(members_view(out@), om@[i as int].0@);
                }
                let k = &om[i].0;
                let v = &om[i].1;
                let pos = member_position(&out, k.as_str());
                let nv = match pos {
                    Some(p) => {
                        proof {
                            assert(members_view(out@)[p as int] == (out@[p as int].0@, out@[p as int].1@));
                        }
                        let e = &out[p].1;
                        let both = match (e, v) {
                            (Value::Object(_), Value::Object(_)) => true,
                            _ => false,
                        };
                        if both {
                            deep_merge(e, v)
                        } else {
                            v.copy()
                        }
                    },
                    None => v.copy(),
                };
                let ghost before = members_view(out@);
                let ghost nvv = nv@;
                match pos {
                    Some(p) => {
                        out.set(p, (k.clone(), nv));
                        proof {
                            assert(members_view(out@) =~= before.update(p as int, (k@, nvv)));
                        }
                    },
                    None => {
                        out.push((k.clone(), nv));
                        proof {
                            assert(members_view(out@) =~= before.push((k@, nvv)));
                        }
                    },
                }
                i += 1;
            }
            proof {
                assert(omv.take(i as int) =~= omv);
            }
            Value::Object(out)
        },
        _ => overlay.copy(),
    }
}

/// Loaded translation catalogs keyed by locale code (one entry per locale).
#[derive(Debug)]
pub struct I18nCatalogs {
    pub by_locale: Vec<(String, Value)>,
}

/// The catalog of `locale`, or an empty object.
pub open spec fn catalog_of(t: Seq<(Seq<char>, JsonView)>, locale: Seq<char>) -> JsonView {
    match member_lookup(t, locale) {
        Some(v) => v,
        None => JsonView::Object(Seq::empty()),
    }
}

/// The catalog a page in `locale` sees: its own, laid over the fallback's.
pub open spec fn for_locale_spec(t: Seq<(Seq<char>, JsonView)>, locale: Seq<char>, fallback: Seq<char>) -> JsonView {
    if locale == fallback {
        catalog_of(t, locale)
    } else {
        merge_spec(catalog_of(t, fallback), catalog_of(t, locale))
    }
}

/// The fallback locale of the settings.
pub open spec fn fallback_of(opts: I18nOptions) -> Seq<char> {
    if opts.fallback@.len() == 0 {
        opts.default_locale@
    } else {
        opts.fallback@
    }
}

/// The locales whose catalogs are read: the configured ones, then the
/// fallback when it is not among them.
pub open spec fn needed_locales_spec(opts: I18nOptions) -> Seq<Seq<char>> {
    if views(opts.locales@).contains(fallback_of(opts)) {
        views(opts.locales@)
    } else {
        views(opts.locales@).push(fallback_of(opts))
    }
}

impl I18nCatalogs {
    /// No catalogs (i18n off).
    pub fn new() -> (r: Self)
        ensures
            r.by_locale@.len() == 0,
    {
        I18nCatalogs { by_locale: Vec::new() }
    }

    /// The locales whose catalogs [`I18nCatalogs`] holds for `opts`, in
    /// the order they are read.
    pub fn needed_locales(opts: &I18nOptions) -> (r: Vec<String>)
        ensures
            views(r@) == needed_locales_spec(*opts),
    {
        let fb = opts.effective_fallback();
        let mut out: Vec<String> = Vec::new();
        let mut i: usize = 0;
        while i < opts.locales.len()
            invariant
                i <= opts.locales@.len(),
                views(out@) == views(opts.locales@).take(i as int),
            decreases opts.locales@.len() - i,
        {
            let ghost before = views(out@);
            out.push(opts.locales[i].clone());
            proof {
                assert(views(out@) =~= before.push(opts.locales@[i as int]@));
                assert(views(opts.locales@).take(i + 1) =~= views(opts.locales@).take(i as int).push(opts.locales@[i as int]@));
            }
            i += 1;
        }
        proof {
            assert(views(opts.locales@).take(i as int) =~= views(opts.locales@));
        }
        if !contains_str(opts.locales.as_slice(), fb) {
            let ghost before = views(out@);
            out.push(String::from_str(fb));
            proof {
                assert(views(out@) =~= before.push(fb@));
            }
        }
        out
    }

    /// Record the catalog read for `locale` (replacing an earlier one).
    pub fn insert(&mut self, locale: &str, catalog: Value)
        ensures
            members_view(final(self).by_locale@) == member_set(members_view(old(self).by_locale@), locale@, catalog@),
    {
        let ghost before = members_view(self.by_locale@);
        let ghost cv = catalog@;
        match member_position(&self.by_locale, locale) {
            Some(p) => {
                self.by_locale.set(p, (String::from_str(locale), catalog));
                proof {
                    assert(members_view(self.by_locale@) =~= before.update(p as int, (locale@, cv)));
                }
            },
            None => {
                self.by_locale.push((String::from_str(locale), catalog));
                proof {
                    assert(members_view(self.by_locale@) =~= before.push((locale@, cv)));
                }
            },
        }
    }

    /// The catalog a page in `locale` sees (see [`for_locale_spec`]).
    pub fn for_locale(&self, locale: &str, opts: &I18nOptions) -> (r: Value)
        ensures
            r@ == for_locale_spec(members_view(self.by_locale@), locale@, fallback_of(*opts)),
    {
        let fallback = opts.effective_fallback();
        let primary = self.catalog(locale);
        if str_eq(locale, fallback) {
            return primary;
        }
        let fb = self.catalog(fallback);
        deep_merge(&fb, &primary)
    }

    fn catalog(&self, locale: &str) -> (r: Value)
        ensures
            r@ == catalog_of(members_view(self.by_locale@), locale@),
    {
        proof {
            lemma_member_index(members_view(self.by_locale@), locale@);
        }
        match member_position(&self.by_locale, locale) {
            Some(p) => {
                proof {
                    assert(members_view(self.by_locale@)[p as int] == (self.by_locale@[p as int].0@, self.by_locale@[p as int].1@));
                }
                self.by_locale[p].1.copy()
            },
            None => {
                let empty: Vec<(String, Value)> = Vec::new();
                proof {
                    assert(members_view(empty@) =~= Seq::<(Seq<char>, JsonView)>::empty());
                }
                Value::Object(empty)
            },
        }
    }
}

// ---------------------------------------------------------------------------
// Laws of the catalogs

/// Member names occur once.
pub open spec fn members_unique(m: Seq<(Seq<char>, JsonView)>) -> bool {
    forall|i: int, j: int| 0 <= i < j < m.len() ==> m[i].0 != m[j].0
}

proof fn lemma_set_unfold(m: Seq<(Seq<char>, JsonView)>, k: Seq<char>, v: JsonView)
    requires
        m.len() > 0,
        m[0].0 != k,
    ensures
        member_set(m, k, v)[0] == m[0],
        member_set(m, k, v).drop_first() == member_set(m.drop_first(), k, v),
{
    let t = member_set(m, k, v);
    lemma_member_index(m, k);
    lemma_member_index(m.drop_first(), k);
    match member_index(m.drop_first(), k) {
        Some(i) => {
            assert(member_index(m, k) == Some(i + 1));
            assert(t == m.update(i + 1, (k, v)));
            assert(t.drop_first() =~= m.drop_first().update(i, (k, v)));
        },
        None => {
            assert(member_index(m, k) is None);
            assert(t == m.push((k, v)));
            assert(t.drop_first() =~= m.drop_first().push((k, v)));
        },
    }
}

proof fn lemma_set_same(m: Seq<(Seq<char>, JsonView)>, k: Seq<char>, v: JsonView)
    ensures
        member_lookup(member_set(m, k, v), k) == Some(v),
    decreases m.len(),
{
    let t = member_set(m, k, v);
    lemma_member_index(m, k);
    if m.len() == 0 {
        assert(member_index(m, k) is None);
        assert(t == m.push((k, v)));
        assert(t[0] == (k, v));
        assert(t.len() == 1);
    } else if m[0].0 == k {
        assert(member_index(m, k) == Some(0int));
        assert(t == m.update(0, (k, v)));
        assert(t[0] == (k, v));
    } else {
        lemma_set_unfold(m, k, v);
        lemma_set_same(m.drop_first(), k, v);
        assert(t.len() > 0);
        assert(t[0].0 != k);
    }
}

pub(crate) proof fn lemma_set_other(m: Seq<(Seq<char>, JsonView)>, k: Seq<char>, v: JsonView, other: Seq<char>)
    requires
        other != k,
    ensures
        member_lookup(member_set(m, k, v), other) == member_lookup(m, other),
    decreases m.len(),
{
    let t = member_set(m, k, v);
    lemma_member_index(m, k);
    if m.len() == 0 {
        assert(member_index(m, k) is None);
        assert(t == m.push((k, v)));
        assert(t[0] == (k, v));
        assert(t.drop_first() =~= Seq::<(Seq<char>, JsonView)>::empty());
        assert(member_lookup(t.drop_first(), other) is None);
    } else if m[0].0 == k {
        assert(member_index(m, k) == Some(0int));
        assert(t == m.update(0, (k, v)));
        assert(t.drop_first() =~= m.drop_first());
    } else {
        lemma_set_unfold(m, k, v);
        lemma_set_other(m.drop_first(), k, v, other);
    }
}

proof fn lemma_merge_keeps_base_only(b: Seq<(Seq<char>, JsonView)>, o: Seq<(Seq<char>, JsonView)>, k: Seq<char>)
    requires
        forall|i: int| 0 <= i < o.len() ==> o[i].0 != k,
    ensures
        member_lookup(merge_members(b, o), k) == member_lookup(b, k),
    decreases o.len(),
{
    if o.len() > 0 {
        lemma_merge_keeps_base_only(b, o.drop_last(), k);
        let prev = merge_members(b, o.drop_last());
        let k2 = o[o.len() - 1].0;
        let v = o[o.len() - 1].1;
        let nv = match member_lookup(prev, k2) {
            Some(e) => if e is Object && v is Object {
                merge_spec(e, v)
            } else {
                v
            },
            None => v,
        };
        lemma_set_other(prev, k2, nv, k);
    }
}

proof fn lemma_merge_takes_overlay(b: Seq<(Seq<char>, JsonView)>, o: Seq<(Seq<char>, JsonView)>, i: int)
    requires
        members_unique(o),
        0 <= i < o.len(),
        !(o[i].1 is Object),
    ensures
        member_lookup(merge_members(b, o), o[i].0) == Some(o[i].1),
    decreases o.len(),
{
    let last = o.len() - 1;
    let prev = merge_members(b, o.drop_last());
    let k2 = o[last].0;
    let v = o[last].1;
    let nv = match member_lookup(prev, k2) {
        Some(e) => if e is Object && v is Object {
            merge_spec(e, v)
        } else {
            v
        },
        None => v,
    };
    if i == last {
        lemma_set_same(prev, k2, nv);
    } else {
        assert(members_unique(o.drop_last()));
        assert(o.drop_last()[i] == o[i]);
        lemma_merge_takes_overlay(b, o.drop_last(), i);
        assert(o[i].0 != k2);
        lemma_set_other(prev, k2, nv, o[i].0);
    }
}

/// In the catalog a page in a locale sees, a key the locale's catalog lacks
/// keeps the fallback's value, and a key the locale's catalog sets to a
/// text, number, list or flag has the locale's value.
pub proof fn law_locale_catalog_over_fallback(
    t: Seq<(Seq<char>, JsonView)>,
    locale: Seq<char>,
    fallback: Seq<char>,
    key: Seq<char>,
)
    requires
        locale != fallback,
        catalog_of(t, fallback) is Object,
        catalog_of(t, locale) is Object,
        members_unique(catalog_of(t, locale)->Object_0),
    ensures
        (forall|i: int|
            0 <= i < catalog_of(t, locale)->Object_0.len() ==> catalog_of(t, locale)->Object_0[i].0 != key) ==> member_lookup(
            for_locale_spec(t, locale, fallback)->Object_0,
            key,
        ) == member_lookup(catalog_of(t, fallback)->Object_0, key),
        forall|i: int|
            0 <= i < catalog_of(t, locale)->Object_0.len() && catalog_of(t, locale)->Object_0[i].0 == key && !(
            catalog_of(t, locale)->Object_0[i].1 is Object) ==> member_lookup(for_locale_spec(t, locale, fallback)->Object_0, key)
                == Some(catalog_of(t, locale)->Object_0[i].1),
{
    let b = catalog_of(t, fallback)->Object_0;
    let o = catalog_of(t, locale)->Object_0;
    if forall|i: int| 0 <= i < o.len() ==> o[i].0 != key {
        lemma_merge_keeps_base_only(b, o, key);
    }
    assert forall|i: int| 0 <= i < o.len() && o[i].0 == key && !(o[i].1 is Object) implies member_lookup(
        for_locale_spec(t, locale, fallback)->Object_0,
        key,
    ) == Some(o[i].1) by {
        lemma_merge_takes_overlay(b, o, i);
    }
}

// ---------------------------------------------------------------------------
// Catalog keys

/// The first member name of `m` that is not an identifier.
pub open spec fn bad_member(m: Seq<(Seq<char>, JsonView)>) -> Option<Seq<char>>
    decreases m.len(),
{
    if m.len() == 0 {
        None
    } else if !is_identifier_spec(m[0].0) {
        Some(m[0].0)
    } else {
        bad_member(m.drop_first())
    }
}

/// The first top-level catalog key, catalog by catalog, that is not an
/// identifier.
pub open spec fn first_bad_key(t: Seq<(Seq<char>, JsonView)>) -> Option<Seq<char>>
    decreases t.len(),
{
    if t.len() == 0 {
        None
    } else {
        match (match t[0].1 {
            JsonView::Object(m) => bad_member(m),
            _ => None,
        }) {
            Some(k) => Some(k),
            None => first_bad_key(t.drop_first()),
        }
    }
}

/// `k` is a top-level key of one of the first `n` catalogs.
pub open spec fn catalog_key_in(t: Seq<(Seq<char>, JsonView)>, n: int, k: Seq<char>) -> bool {
    exists|i: int, j: int|
        0 <= i < n && i < t.len() && t[i].1 is Object && 0 <= j < t[i].1->Object_0.len() && (#[trigger] t[i].1->Object_0[j]).0
            == k
}

/// `k` is a top-level key of some catalog.
pub open spec fn catalog_key(t: Seq<(Seq<char>, JsonView)>, k: Seq<char>) -> bool {
    catalog_key_in(t, t.len() as int, k)
}

/// The member names of an object, in order.
pub open spec fn member_names(m: Seq<(Seq<char>, JsonView)>) -> Seq<Seq<char>> {
    m.map_values(|p: (Seq<char>, JsonView)| p.0)
}

/// Strictly ascending by text.
pub open spec fn strictly_sorted(v: Seq<Seq<char>>) -> bool {
    forall|a: int, b: int| 0 <= a < b < v.len() ==> lex_le(#[trigger] v[a], #[trigger] v[b]) && v[a] != v[b]
}

pub open spec fn root_key_msg(k: Seq<char>) -> Seq<char> {
    "i18n catalog key `"@ + k
        + "` cannot be used in data-t; top-level keys must be identifiers like `nav` or `about_title`"@
}

proof fn lemma_lex_antisym(a: Seq<char>, b: Seq<char>)
    requires
        lex_le(a, b),
        lex_le(b, a),
    ensures
        a == b,
    decreases a.len(),
{
    if a.len() > 0 && b.len() > 0 {
        lemma_lex_antisym(a.drop_first(), b.drop_first());
        assert(a =~= seq![a[0]] + a.drop_first());
        assert(b =~= seq![b[0]] + b.drop_first());
    } else {
        assert(a =~= b);
    }
}

fn insert_sorted(v: &mut Vec<String>, k: &str)
    requires
        strictly_sorted(views(old(v)@)),
    ensures
        strictly_sorted(views(final(v)@)),
        forall|x: Seq<char>| views(final(v)@).contains(x) <==> (views(old(v)@).contains(x) || x == k@),
{
    let ghost s = views(v@);
    let mut p: usize = 0;
    while p < v.len() && !crate::text::str_le(k, v[p].as_str())
        invariant
            p <= v@.len(),
            s == views(v@),
            forall|a: int| 0 <= a < p ==> lex_le(#[trigger] s[a], k@) && s[a] != k@,
        decreases v@.len() - p,
    {
        proof {
            crate::text::lemma_lex_le_total(k@, s[p as int]);
            assert(s[p as int] == v@[p as int]@);
        }
        p += 1;
    }
    if p < v.len() && str_eq(v[p].as_str(), k) {
        proof {
            assert(s[p as int] == k@);
        }
        return;
    }
    proof {
        if p < s.len() {
            assert(s[p as int] == v@[p as int]@);
            assert(lex_le(k@, s[p as int]) && s[p as int] != k@);
        }
    }
    v.insert(p, String::from_str(k));
    proof {
        let t = views(v@);
        assert(t =~= s.insert(p as int, k@));
        assert forall|a: int, b: int| 0 <= a < b < t.len() implies lex_le(#[trigger] t[a], #[trigger] t[b]) && t[a] != t[b] by {
            if a < p && b < p {
            } else if a < p && b == p {
            } else if a < p && b > p {
                assert(t[b] == s[b - 1]);
                if b - 1 > p {
                    crate::text::lemma_lex_le_trans(k@, s[p as int], s[b - 1]);
                }
                crate::text::lemma_lex_le_trans(s[a], k@, s[b - 1]);
                if s[a] == s[b - 1] {
                    lemma_lex_antisym(s[a], k@);
                }
            } else if a == p {
                assert(t[b] == s[b - 1]);
                if b - 1 > p {
                    crate::text::lemma_lex_le_trans(k@, s[p as int], s[b - 1]);
                    if k@ == s[b - 1] {
                        lemma_lex_antisym(s[p as int], k@);
                    }
                }
            } else {
                assert(t[a] == s[a - 1] && t[b] == s[b - 1]);
            }
        }
        assert forall|x: Seq<char>| t.contains(x) <==> (s.contains(x) || x == k@) by {
            if t.contains(x) {
                let j = choose|j: int| 0 <= j < t.len() && t[j] == x;
                if j < p {
                    assert(s[j] == x);
                } else if j > p {
                    assert(s[j - 1] == x);
                }
            }
            if s.contains(x) {
                let j = choose|j: int| 0 <= j < s.len() && s[j] == x;
                if j < p {
                    assert(t[j] == x);
                } else {
                    assert(t[j + 1] == x);
                }
            }
            if x == k@ {
                assert(t[p as int] == x);
            }
        }
    }
}

impl I18nCatalogs {
    /// The top-level keys of all catalogs, sorted and without repeats; an
    /// error for the first key (catalog by catalog) that is not an
    /// identifier, since `data-t` reads keys as paths.
    pub fn root_keys(&self) -> (r: Result<Vec<String>, Error>)
        ensures
            match first_bad_key(members_view(self.by_locale@)) {
                Some(k) => r matches Err(e) && e@ == ErrorView::Diag(diag_at_file("i18n"@, root_key_msg(k))),
                None => r matches Ok(v) && strictly_sorted(views(v@)) && forall|x: Seq<char>|
                    views(v@).contains(x) <==> catalog_key(members_view(self.by_locale@), x),
            },
    {
        let ghost t = members_view(self.by_locale@);
        let mut keys: Vec<String> = Vec::new();
        let mut i: usize = 0;
        proof {
            assert(t.skip(0) =~= t);
        }
        while i < self.by_locale.len()
            invariant
                i <= self.by_locale@.len(),
                t == members_view(self.by_locale@),
                t.len() == self.by_locale@.len(),
                first_bad_key(t) == first_bad_key(t.skip(i as int)),
                strictly_sorted(views(keys@)),
                forall|x: Seq<char>| views(keys@).contains(x) <==> catalog_key_in(t, i as int, x),
            decreases self.by_locale@.len() - i,
        {
            let ghost ki = views(keys@);
            proof {
                assert(t[i as int] == (self.by_locale@[i as int].0@, self.by_locale@[i as int].1@));
                assert(t.skip(i as int)[0] == t[i as int]);
                assert(t.skip(i as int).drop_first() =~= t.skip(i + 1));
            }
            match &self.by_locale[i].1 {
                Value::Object(m) => {
                    let ghost mv = members_view(m@);
                    let ghost nm = member_names(mv);
                    let mut j: usize = 0;
                    proof {
                        assert(nm.take(0) =~= Seq::<Seq<char>>::empty());
                    }
                    proof {
                        assert(mv.skip(0) =~= mv);
                    }
                    while j < m.len()
                        invariant
                            j <= m@.len(),
                            mv == members_view(m@),
                            mv.len() == m@.len(),
                            i < t.len(),
                            t == members_view(self.by_locale@),
                            t[i as int].1 == JsonView::Object(mv),
                            t.skip(i as int)[0] == t[i as int],
                            first_bad_key(t) == first_bad_key(t.skip(i as int)),
                            bad_member(mv) == bad_member(mv.skip(j as int)),
                            strictly_sorted(views(keys@)),
                            forall|x: Seq<char>| ki.contains(x) <==> catalog_key_in(t, i as int, x),
                            nm == member_names(mv),
                            forall|x: Seq<char>| views(keys@).contains(x) <==> (ki.contains(x) || nm.take(j as int).contains(x)),
                        decreases m@.len() - j,
                    {
                        proof {
                            assert(mv[j as int] == (m@[j as int].0@, m@[j as int].1@));
                            assert(mv.skip(j as int)[0] == mv[j as int]);
                            assert(mv.skip(j as int).drop_first() =~= mv.skip(j + 1));
                        }
                        let k = m[j].0.as_str();
                        if !crate::funnel::template::is_identifier(k) {
                            let mut msg = String::from_str("i18n catalog key `");
                            msg.append(k);
                            msg.append("` cannot be used in data-t; top-level keys must be identifiers like `nav` or `about_title`");
                            proof {
                                assert(bad_member(mv) == Some(k@));
                                assert(first_bad_key(t.skip(i as int)) == Some(k@));
                                assert(msg@ == root_key_msg(k@));
                            }
                            return Err(Error::at_file("i18n", msg.as_str()));
                        }
                        let ghost kb = views(keys@);
                        proof {
                            assert(kb == views(keys@));
                            assert(forall|x: Seq<char>| #[trigger] kb.contains(x) <==> (ki.contains(x) || nm.take(j as int).contains(x)));
                            assert(nm[j as int] == k@);
                        }
                        insert_sorted(&mut keys, k);
                        proof {
                            assert(nm.take(j + 1) =~= nm.take(j as int).push(k@));
                            assert forall|x: Seq<char>| views(keys@).contains(x) <==> (ki.contains(x) || nm.take(j + 1).contains(x)) by {
                                assert(views(keys@).contains(x) <==> (kb.contains(x) || x == k@));
                                assert(kb.contains(x) <==> (ki.contains(x) || nm.take(j as int).contains(x)));
                                if nm.take(j + 1).contains(x) && x != k@ {
                                    let q = choose|q: int| 0 <= q < j + 1 && #[trigger] nm.take(j + 1)[q] == x;
                                    assert(nm.take(j as int)[q] == x);
                                }
                                if nm.take(j as int).contains(x) {
                                    let q = choose|q: int| 0 <= q < j && #[trigger] nm.take(j as int)[q] == x;
                                    assert(nm.take(j + 1)[q] == x);
                                }
                                if x == k@ {
                                    assert(nm.take(j + 1)[j as int] == x);
                                }
                            }
                        }
                        j += 1;
                    }
                    proof {
                        assert(mv.skip(j as int) =~= Seq::<(Seq<char>, JsonView)>::empty());
                        assert(nm.take(j as int) =~= nm);
                        assert(forall|x: Seq<char>| #[trigger] views(keys@).contains(x) <==> (ki.contains(x) || nm.take(j as int).contains(x)));
                        assert(forall|x: Seq<char>| #[trigger] ki.contains(x) <==> catalog_key_in(t, i as int, x));
                        assert forall|x: Seq<char>| views(keys@).contains(x) <==> catalog_key_in(t, i + 1, x) by {
                            assert(views(keys@).contains(x) <==> (ki.contains(x) || nm.contains(x)));
                            assert(ki.contains(x) <==> catalog_key_in(t, i as int, x));
                            if views(keys@).contains(x) {
                                if ki.contains(x) {
                                    let (a, b) = choose|a: int, b: int|
                                        0 <= a < i && a < t.len() && t[a].1 is Object && 0 <= b < t[a].1->Object_0.len()
                                            && (#[trigger] t[a].1->Object_0[b]).0 == x;
                                    assert(t[a].1->Object_0[b].0 == x);
                                } else {
                                    let b = choose|b: int| 0 <= b < nm.len() && #[trigger] nm[b] == x;
                                    assert(mv[b].0 == x);
                                    assert(t[i as int].1->Object_0[b].0 == x);
                                }
                            }
                            if catalog_key_in(t, i + 1, x) {
                                let (a, b) = choose|a: int, b: int|
                                    0 <= a < i + 1 && a < t.len() && t[a].1 is Object && 0 <= b < t[a].1->Object_0.len()
                                        && (#[trigger] t[a].1->Object_0[b]).0 == x;
                                if a < i {
                                    assert(t[a].1->Object_0[b].0 == x);
                                    assert(catalog_key_in(t, i as int, x));
                                } else {
                                    assert(mv[b].0 == x);
                                    assert(nm[b] == x);
                                }
                            }
                        }
                    }
                },
                _ => {
                    proof {
                        assert(forall|x: Seq<char>| #[trigger] ki.contains(x) <==> catalog_key_in(t, i as int, x));
                        assert(ki == views(keys@));
                        assert forall|x: Seq<char>| catalog_key_in(t, i + 1, x) <==> catalog_key_in(t, i as int, x) by {
                            if catalog_key_in(t, i + 1, x) {
                                let (a, b) = choose|a: int, b: int|
                                    0 <= a < i + 1 && a < t.len() && t[a].1 is Object && 0 <= b < t[a].1->Object_0.len()
                                        && (#[trigger] t[a].1->Object_0[b]).0 == x;
                                assert(a != i);
                                assert(t[a].1->Object_0[b].0 == x);
                            }
                            if catalog_key_in(t, i as int, x) {
                                let (a, b) = choose|a: int, b: int|
                                    0 <= a < i && a < t.len() && t[a].1 is Object && 0 <= b < t[a].1->Object_0.len()
                                        && (#[trigger] t[a].1->Object_0[b]).0 == x;
                                assert(t[a].1->Object_0[b].0 == x);
                            }
                        }
                        assert forall|x: Seq<char>| #[trigger] views(keys@).contains(x) <==> catalog_key_in(t, i + 1, x) by {
                            assert(ki.contains(x) <==> catalog_key_in(t, i as int, x));
                        }
                    }
                },
            }
            i += 1;
        }
        proof {
            assert(t.skip(i as int) =~= Seq::<(Seq<char>, JsonView)>::empty());
        }
        Ok(keys)
    }
}

/// `map.insert(k, v)` on a member list.
pub fn set_member_value(m: &mut Vec<(String, Value)>, k: &str, v: Value)
    ensures
        members_view(final(m)@) == member_set(members_view(old(m)@), k@, v@),
{
    let ghost before = members_view(m@);
    let ghost vv = v@;
    match member_position(m, k) {
        Some(p) => {
            m.set(p, (String::from_str(k), v));
            proof {
                assert(members_view(m@) =~= before.update(p as int, (k@, vv)));
            }
        },
        None => {
            m.push((String::from_str(k), v));
            proof {
                assert(members_view(m@) =~= before.push((k@, vv)));
            }
        },
    }
}

} // verus!

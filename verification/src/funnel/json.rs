//! Funnel sources and the reads of bound values: member lookup, dotted
//! paths, rendering a value into an attribute or into HTML, and resolving a
//! `data-bind` expression against the page's data sources.

use std::sync::Arc;

use vstd::prelude::*;

use crate::content::{dataset_array, dataset_value, DataKind, DataSet};
use crate::error::{Error, ErrorView};
use crate::funnel::value::{elems_view, members_view, JsonView, Value};
use crate::loc::diag_at_file;
use crate::parse::ast::{
    answers, directive_spec, elements_in, kept, lemma_kept_is_filter, node_view, nodes_view, tag_is,
    trim_slice, Document, Element, ElementView, Node, NodeView,
};
use crate::parse::attrs::{attr_entries, attr_lookup, attrs_shift_remove, remove_attr_spec};
use crate::tokens::{DATA_BIND, REL_DATA, REL_FRAGMENT};
use crate::text::{has_word, words};
use crate::parse::serialize::{escape_text, escape_text_spec};
use crate::text::{
    chars_of, contains, nonempty_parts, split_nonempty, split_on, str_contains, str_eq, trim, trim_str,
    views,
};

verus! {

/// A loaded `<link rel="statica/data">` source.
#[derive(Debug)]
pub struct DataSource {
    pub id: String,
    pub kind: DataKind,
    pub path: String,
    pub data: Arc<DataSet>,
}

impl DataSource {
    /// The source's data as one value.
    pub fn value(&self) -> (r: Value)
        ensures
            r@ == dataset_value(*self.data),
    {
        self.data.to_value()
    }

    /// The source's items, when it is a list.
    pub fn array(&self) -> (r: Option<Vec<Value>>)
        ensures
            match r {
                Some(v) => dataset_array(*self.data) == Some(elems_view(v@)),
                None => dataset_array(*self.data) is None,
            },
    {
        self.data.as_array()
    }
}

// ---------------------------------------------------------------------------
// Member lookup

/// The value of the first member named `key`.
pub open spec fn member_lookup(m: Seq<(Seq<char>, JsonView)>, key: Seq<char>) -> Option<JsonView>
    decreases m.len(),
{
    if m.len() == 0 {
        None
    } else if m[0].0 == key {
        Some(m[0].1)
    } else {
        member_lookup(m.drop_first(), key)
    }
}

/// `value[field]` for an object; nothing for any other value (only objects
/// have members).
pub open spec fn read_field_spec(v: JsonView, field: Seq<char>) -> Option<JsonView> {
    match v {
        JsonView::Object(m) => member_lookup(m, field),
        _ => None,
    }
}

/// Look up a member, telling a missing one (`None`) from one that is `null`.
pub fn read_field<'a>(value: &'a Value, field: &str) -> (r: Option<&'a Value>)
    ensures
        match r {
            Some(x) => read_field_spec(value@, field@) == Some(x@),
            None => read_field_spec(value@, field@) is None,
        },
{
    match value {
        Value::Object(m) => {
            let ghost mv = members_view(m@);
            let mut i: usize = 0;
            proof {
                assert(mv.skip(0) =~= mv);
            }
            while i < m.len()
                invariant
                    i <= m@.len(),
                    mv == members_view(m@),
                    value@ == JsonView::Object(mv),
                    member_lookup(mv, field@) == member_lookup(mv.skip(i as int), field@),
                decreases m@.len() - i,
            {
                proof {
                    assert(mv.skip(i as int)[0] == (m@[i as int].0@, m@[i as int].1@));
                    assert(mv.skip(i as int).drop_first() =~= mv.skip(i + 1));
                }
                if str_eq(m[i].0.as_str(), field) {
                    return Some(&m[i].1);
                }
                i += 1;
            }
            proof {
                assert(mv.skip(i as int) =~= Seq::<(Seq<char>, JsonView)>::empty());
            }
            None
        },
        _ => None,
    }
}

// ---------------------------------------------------------------------------
// Rendering values

/// A value as attribute/text: `null` is empty, strings, numbers and booleans
/// as written; objects and arrays have no scalar form.
pub open spec fn value_as_str_spec(v: JsonView) -> Option<Seq<char>> {
    match v {
        JsonView::Null => Some(Seq::empty()),
        JsonView::String(s) => Some(s),
        JsonView::Number(n) => Some(n),
        JsonView::Bool(b) => Some(if b { "true"@ } else { "false"@ }),
        _ => None,
    }
}

/// Render a bound value for attributes / text.
pub fn value_as_str(value: &Value) -> (r: Option<String>)
    ensures
        match r {
            Some(s) => value_as_str_spec(value@) == Some(s@),
            None => value_as_str_spec(value@) is None,
        },
{
    match value {
        Value::Null => Some(String::new()),
        Value::String(s) => Some(s.clone()),
        Value::Number(n) => Some(n.clone()),
        Value::Bool(b) => {
            proof {
                reveal_strlit("true");
                reveal_strlit("false");
            }
            if *b {
                Some(String::from_str("true"))
            } else {
                Some(String::from_str("false"))
            }
        },
        _ => None,
    }
}

/// A member as a route/feed key: missing and `null` members are absent.
pub open spec fn field_as_str_spec(v: JsonView, field: Seq<char>) -> Option<Seq<char>> {
    match read_field_spec(v, field) {
        None => None,
        Some(JsonView::Null) => None,
        Some(x) => value_as_str_spec(x),
    }
}

pub fn field_as_str(value: &Value, field: &str) -> (r: Option<String>)
    ensures
        match r {
            Some(s) => field_as_str_spec(value@, field@) == Some(s@),
            None => field_as_str_spec(value@, field@) is None,
        },
{
    match read_field(value, field) {
        None => None,
        Some(Value::Null) => None,
        Some(v) => value_as_str(v),
    }
}

// ---------------------------------------------------------------------------
// Dotted paths

/// Follow member names from `v`; nothing once a step is missing.
pub open spec fn walk_spec(v: JsonView, parts: Seq<Seq<char>>) -> Option<JsonView>
    decreases parts.len(),
{
    if parts.len() == 0 {
        Some(v)
    } else {
        match read_field_spec(v, parts[0]) {
            Some(n) => walk_spec(n, parts.drop_first()),
            None => None,
        }
    }
}

/// The non-empty segments of a dotted path.
pub open spec fn path_parts(path: Seq<char>) -> Seq<Seq<char>> {
    nonempty_parts(split_on(path, '.'))
}

/// `path` (trimmed, split on `.`, empty segments skipped) resolved against `v`;
/// a blank path resolves to nothing.
pub open spec fn path_value_spec(v: JsonView, path: Seq<char>) -> Option<JsonView> {
    let p = trim(path);
    if p.len() == 0 {
        None
    } else {
        walk_spec(v, path_parts(p))
    }
}

fn walk<'a>(value: &'a Value, parts: &Vec<String>) -> (r: Option<&'a Value>)
    ensures
        match r {
            Some(x) => walk_spec(value@, views(parts@)) == Some(x@),
            None => walk_spec(value@, views(parts@)) is None,
        },
{
    let ghost ps = views(parts@);
    let mut cur: &Value = value;
    let mut i: usize = 0;
    proof {
        assert(ps.skip(0) =~= ps);
    }
    while i < parts.len()
        invariant
            i <= parts@.len(),
            ps == views(parts@),
            walk_spec(value@, ps) == walk_spec(cur@, ps.skip(i as int)),
        decreases parts@.len() - i,
    {
        proof {
            assert(ps.skip(i as int)[0] == parts@[i as int]@);
            assert(ps.skip(i as int).drop_first() =~= ps.skip(i + 1));
        }
        match read_field(cur, parts[i].as_str()) {
            Some(n) => {
                cur = n;
            },
            None => {
                return None;
            },
        }
        i += 1;
    }
    proof {
        assert(ps.skip(i as int) =~= Seq::<Seq<char>>::empty());
    }
    Some(cur)
}

/// Resolve a dotted path against a bind context object.
pub fn path_value<'a>(value: &'a Value, path: &str) -> (r: Option<&'a Value>)
    ensures
        match r {
            Some(x) => path_value_spec(value@, path@) == Some(x@),
            None => path_value_spec(value@, path@) is None,
        },
{
    let p = trim_str(path);
    if p.unicode_len() == 0 {
        return None;
    }
    let parts = split_nonempty(p.as_str(), '.');
    walk(value, &parts)
}

/// `${path}` for attributes: missing and `null` render empty, as do objects
/// and arrays.
pub open spec fn path_as_str_spec(v: JsonView, path: Seq<char>) -> Seq<char> {
    match path_value_spec(v, path) {
        None => Seq::empty(),
        Some(x) => match value_as_str_spec(x) {
            Some(s) => s,
            None => Seq::empty(),
        },
    }
}

/// Resolve `${path}` for attributes. Missing / null → empty.
pub fn path_as_str(value: &Value, path: &str) -> (r: String)
    ensures
        r@ == path_as_str_spec(value@, path@),
{
    match path_value(value, path) {
        None => String::new(),
        Some(v) => match value_as_str(v) {
            Some(s) => s,
            None => String::new(),
        },
    }
}

/// A value as HTML content: a string that already holds both `<` and `>` is
/// taken as markup, any other string is escaped; numbers and booleans as
/// written; everything else renders empty.
pub open spec fn value_to_html_spec(v: JsonView) -> Seq<char> {
    match v {
        JsonView::String(s) => if s.contains('<') && s.contains('>') {
            s
        } else {
            escape_text_spec(s)
        },
        JsonView::Number(n) => n,
        JsonView::Bool(b) => if b { "true"@ } else { "false"@ },
        _ => Seq::empty(),
    }
}

pub fn value_to_html(value: &Value) -> (r: String)
    ensures
        r@ == value_to_html_spec(value@),
{
    match value {
        Value::String(s) => {
            let v = chars_of(s.as_str());
            proof {
                assert(v@.subrange(0, v@.len() as int) =~= v@);
            }
            if crate::text::contains_char(v.as_slice(), 0, v.len(), '<')
                && crate::text::contains_char(v.as_slice(), 0, v.len(), '>') {
                s.clone()
            } else {
                escape_text(s.as_str())
            }
        },
        Value::Number(n) => n.clone(),
        Value::Bool(b) => {
            proof {
                reveal_strlit("true");
                reveal_strlit("false");
            }
            if *b {
                String::from_str("true")
            } else {
                String::from_str("false")
            }
        },
        _ => String::new(),
    }
}

// ---------------------------------------------------------------------------
// Data expressions

/// The first source with id `id`.
pub open spec fn source_lookup(srcs: Seq<DataSource>, id: Seq<char>) -> Option<DataSource>
    decreases srcs.len(),
{
    if srcs.len() == 0 {
        None
    } else if srcs[0].id@ == id {
        Some(srcs[0])
    } else {
        source_lookup(srcs.drop_first(), id)
    }
}

/// Index of the first source with id `id`.
pub fn find_source(srcs: &[DataSource], id: &str) -> (r: Option<usize>)
    ensures
        match r {
            Some(i) => i < srcs@.len() && source_lookup(srcs@, id@) == Some(srcs@[i as int]),
            None => source_lookup(srcs@, id@) is None,
        },
{
    let mut i: usize = 0;
    proof {
        assert(srcs@.skip(0) =~= srcs@);
    }
    while i < srcs.len()
        invariant
            i <= srcs@.len(),
            source_lookup(srcs@, id@) == source_lookup(srcs@.skip(i as int), id@),
        decreases srcs@.len() - i,
    {
        proof {
            assert(srcs@.skip(i as int)[0] == srcs@[i as int]);
            assert(srcs@.skip(i as int).drop_first() =~= srcs@.skip(i + 1));
        }
        if str_eq(srcs[i].id.as_str(), id) {
            return Some(i);
        }
        i += 1;
    }
    proof {
        assert(srcs@.skip(i as int) =~= Seq::<DataSource>::empty());
    }
    None
}

/// The view of an optional borrowed value.
pub open spec fn opt_view(v: Option<&Value>) -> Option<JsonView> {
    match v {
        Some(x) => Some(x@),
        None => None,
    }
}

/// The current value, `null` when there is none.
pub open spec fn current_or_null(cur: Option<JsonView>) -> JsonView {
    match cur {
        Some(c) => c,
        None => JsonView::Null,
    }
}

/// An error raised while reading bound data.
pub open spec fn data_err(message: Seq<char>) -> ErrorView {
    ErrorView::Diag(diag_at_file("<data>"@, message))
}

/// The message for an id that names no source and no member.
pub open spec fn missing_source_msg(id: Seq<char>) -> Seq<char> {
    "missing data source id `"@ + id + "` (no <link rel=\"statica/data\" id=\""@ + id + "\">)"@
}

/// Follow member names; a missing member reads as `null` and stays `null`.
pub open spec fn follow_spec(v: JsonView, parts: Seq<Seq<char>>) -> JsonView
    decreases parts.len(),
{
    if parts.len() == 0 {
        v
    } else {
        let next = match read_field_spec(v, parts[0]) {
            Some(n) => n,
            None => JsonView::Null,
        };
        follow_spec(next, parts.drop_first())
    }
}

/// Where a data expression starts: `this`, a page source, a parent source, or
/// a member of the current value, in that order.
pub open spec fn expr_start_spec(
    first: Seq<char>,
    cur: Option<JsonView>,
    local: Seq<DataSource>,
    parent: Seq<DataSource>,
) -> Result<JsonView, ErrorView> {
    if first == "this"@ {
        Ok(current_or_null(cur))
    } else {
        match source_lookup(local, first) {
            Some(ds) => Ok(dataset_value(*ds.data)),
            None => match source_lookup(parent, first) {
                Some(ds) => Ok(dataset_value(*ds.data)),
                None => match cur {
                    Some(c) => match read_field_spec(c, first) {
                        Some(v) => Ok(v),
                        None => Err(data_err(missing_source_msg(first))),
                    },
                    None => Err(data_err(missing_source_msg(first))),
                },
            },
        }
    }
}

/// The value a `data-bind` expression names. Blank is `null`, `.` the
/// current value; otherwise the first segment picks the start and the rest
/// are member names, a missing one reading as `null`.
pub open spec fn resolve_expr_spec(
    expr: Seq<char>,
    cur: Option<JsonView>,
    local: Seq<DataSource>,
    parent: Seq<DataSource>,
) -> Result<JsonView, ErrorView> {
    let e = trim(expr);
    if e.len() == 0 {
        Ok(JsonView::Null)
    } else if e == "."@ {
        Ok(current_or_null(cur))
    } else {
        let parts = path_parts(e);
        if parts.len() == 0 {
            Err(data_err("empty data expression"@))
        } else {
            match expr_start_spec(parts[0], cur, local, parent) {
                Ok(v) => Ok(follow_spec(v, parts.drop_first())),
                Err(err) => Err(err),
            }
        }
    }
}

/// The current value, or `null`.
pub fn current_value(current: Option<&Value>) -> (r: Value)
    ensures
        r@ == current_or_null(opt_view(current)),
{
    match current {
        Some(c) => c.copy(),
        None => Value::Null,
    }
}

fn missing_source(id: &str) -> (r: Error)
    ensures
        r@ == data_err(missing_source_msg(id@)),
{
    let mut m = String::from_str("missing data source id `");
    m.append(id);
    m.append("` (no <link rel=\"statica/data\" id=\"");
    m.append(id);
    m.append("\">)");
    Error::at_file("<data>", m.as_str())
}

fn expr_start(first: &str, current: Option<&Value>, local_data: &[DataSource], parent_data: &[DataSource]) -> (r: Result<Value, Error>)
    ensures
        match r {
            Ok(v) => expr_start_spec(first@, opt_view(current), local_data@, parent_data@) == Ok::<JsonView, ErrorView>(v@),
            Err(e) => expr_start_spec(first@, opt_view(current), local_data@, parent_data@) == Err::<JsonView, ErrorView>(e@),
        },
{
    proof {
        reveal_strlit("this");
    }
    if str_eq(first, "this") {
        return Ok(current_value(current));
    }
    match find_source(local_data, first) {
        Some(i) => {
            return Ok(local_data[i].value());
        },
        None => {},
    }
    match find_source(parent_data, first) {
        Some(i) => {
            return Ok(parent_data[i].value());
        },
        None => {},
    }
    match current {
        Some(cur) => match read_field(cur, first) {
            Some(v) => Ok(v.copy()),
            None => Err(missing_source(first)),
        },
        None => Err(missing_source(first)),
    }
}

fn follow(value: Value, parts: &Vec<String>, from: usize) -> (r: Value)
    requires
        from <= parts@.len(),
    ensures
        r@ == follow_spec(value@, views(parts@).skip(from as int)),
{
    let ghost ps = views(parts@);
    let mut cur = value;
    let mut i = from;
    while i < parts.len()
        invariant
            from <= i <= parts@.len(),
            ps == views(parts@),
            follow_spec(value@, ps.skip(from as int)) == follow_spec(cur@, ps.skip(i as int)),
        decreases parts@.len() - i,
    {
        proof {
            assert(ps.skip(i as int)[0] == parts@[i as int]@);
            assert(ps.skip(i as int).drop_first() =~= ps.skip(i + 1));
        }
        let next = match read_field(&cur, parts[i].as_str()) {
            Some(n) => n.copy(),
            None => Value::Null,
        };
        cur = next;
        i += 1;
    }
    proof {
        assert(ps.skip(i as int) =~= Seq::<Seq<char>>::empty());
    }
    cur
}

/// Resolve a `data-bind` / `data-each` expression against the current value
/// and the page's (then the parent's) data sources.
pub fn resolve_expr(
    expr: &str,
    current: Option<&Value>,
    local_data: &[DataSource],
    parent_data: &[DataSource],
) -> (r: Result<Value, Error>)
    ensures
        match r {
            Ok(v) => resolve_expr_spec(expr@, opt_view(current), local_data@, parent_data@) == Ok::<JsonView, ErrorView>(v@),
            Err(e) => resolve_expr_spec(expr@, opt_view(current), local_data@, parent_data@) == Err::<JsonView, ErrorView>(e@),
        },
{
    let e = trim_str(expr);
    if e.unicode_len() == 0 {
        return Ok(Value::Null);
    }
    proof {
        reveal_strlit(".");
    }
    if str_eq(e.as_str(), ".") {
        return Ok(current_value(current));
    }
    let parts = split_nonempty(e.as_str(), '.');
    if parts.len() == 0 {
        return Err(Error::at_file("<data>", "empty data expression"));
    }
    proof {
        assert(views(parts@)[0] == parts@[0]@);
        assert(views(parts@).skip(1) =~= views(parts@).drop_first());
    }
    match expr_start(parts[0].as_str(), current, local_data, parent_data) {
        Ok(v) => Ok(follow(v, &parts, 1)),
        Err(err) => Err(err),
    }
}

// ---------------------------------------------------------------------------
// Data and fragment links in a document

/// A `<link>` whose `rel` words include `rel`.
pub open spec fn is_rel_link(e: ElementView, rel: Seq<char>) -> bool {
    &&& tag_is(e.name, "link"@)
    &&& match attr_lookup(e.attrs, "rel"@) {
        Some(r) => words(r).contains(rel),
        None => false,
    }
}

/// `<link rel="statica/data">`.
pub open spec fn is_data_link_spec(e: Element) -> bool {
    is_rel_link(e@, REL_DATA@)
}

/// `<link rel="statica/fragment">`.
pub open spec fn is_fragment_link_spec(e: Element) -> bool {
    is_rel_link(e@, REL_FRAGMENT@)
}

fn is_rel(el: &Element, rel: &str) -> (r: bool)
    ensures
        r == is_rel_link(el@, rel@),
{
    el.is_link() && match el.attr("rel") {
        Some(r) => has_word(r, rel),
        None => false,
    }
}

fn is_data_link(el: &Element) -> (r: bool)
    ensures
        r == is_data_link_spec(*el),
{
    is_rel(el, REL_DATA)
}

fn is_fragment_link(el: &Element) -> (r: bool)
    ensures
        r == is_fragment_link_spec(*el),
{
    is_rel(el, REL_FRAGMENT)
}

/// The data links of a document, in document order.
pub fn data_links(doc: &Document) -> (r: Vec<&Element>)
    ensures
        crate::parse::ast::deref_all(r@) == elements_in(doc.children@).filter(|e: Element| is_data_link_spec(e)),
{
    let pred = |e: &Element| -> (b: bool)
        ensures
            b == is_data_link_spec(*e),
        { is_data_link(e) };
    let r = doc.find(pred);
    proof {
        let keep = choose|keep: Seq<bool>|
            answers(pred, elements_in(doc.children@), keep) && crate::parse::ast::deref_all(r@) == kept(elements_in(doc.children@), keep);
        lemma_kept_is_filter(pred, elements_in(doc.children@), keep, |e: Element| is_data_link_spec(e));
    }
    r
}

/// The trimmed, non-blank `id`s of a list of elements, in order.
pub open spec fn element_ids(els: Seq<Element>) -> Seq<Seq<char>>
    decreases els.len(),
{
    if els.len() == 0 {
        Seq::empty()
    } else {
        element_ids(els.drop_last()) + match directive_spec(attr_lookup(els.last()@.attrs, "id"@)) {
            Some(id) => seq![id],
            None => Seq::empty(),
        }
    }
}

/// Funnel `<link rel="statica/data" id="…">` ids declared on a page.
pub fn data_link_ids(doc: &Document) -> (r: Vec<String>)
    ensures
        views(r@) == element_ids(elements_in(doc.children@).filter(|e: Element| is_data_link_spec(e))),
{
    let links = data_links(doc);
    let ghost els = crate::parse::ast::deref_all(links@);
    let mut out: Vec<String> = Vec::new();
    let mut i: usize = 0;
    proof {
        assert(els.take(0) =~= Seq::<Element>::empty());
    }
    while i < links.len()
        invariant
            i <= links@.len(),
            els == crate::parse::ast::deref_all(links@),
            views(out@) == element_ids(els.take(i as int)),
        decreases links@.len() - i,
    {
        proof {
            assert(els.take(i + 1).drop_last() =~= els.take(i as int));
            assert(els.take(i + 1).last() == *links@[i as int]);
        }
        let ghost before = views(out@);
        match links[i].attr("id") {
            Some(id) => {
                let t = trim_slice(id);
                if t.unicode_len() > 0 {
                    out.push(String::from_str(t));
                    proof {
                        assert(views(out@) =~= before + seq![t@]);
                    }
                } else {
                    proof {
                        assert(views(out@) =~= before + Seq::<Seq<char>>::empty());
                    }
                }
            },
            None => {
                proof {
                    assert(views(out@) =~= before + Seq::<Seq<char>>::empty());
                }
            },
        }
        i += 1;
    }
    proof {
        assert(els.take(links@.len() as int) =~= els);
    }
    out
}

/// `(id, href)` of each element that has both, in order.
pub open spec fn id_href_pairs(els: Seq<Element>) -> Seq<(Seq<char>, Seq<char>)>
    decreases els.len(),
{
    if els.len() == 0 {
        Seq::empty()
    } else {
        let e = els.last()@;
        element_pairs_tail(id_href_pairs(els.drop_last()), attr_lookup(e.attrs, "id"@), attr_lookup(e.attrs, "href"@))
    }
}

pub open spec fn element_pairs_tail(
    pre: Seq<(Seq<char>, Seq<char>)>,
    id: Option<Seq<char>>,
    href: Option<Seq<char>>,
) -> Seq<(Seq<char>, Seq<char>)> {
    match (id, href) {
        (Some(i), Some(h)) => pre.push((i, h)),
        _ => pre,
    }
}

/// Collect fragment link declarations `(id, href)` from a document.
pub fn find_fragment_links(doc: &Document) -> (r: Vec<(String, String)>)
    ensures
        r@.map_values(|p: (String, String)| (p.0@, p.1@)) == id_href_pairs(
            elements_in(doc.children@).filter(|e: Element| is_fragment_link_spec(e)),
        ),
{
    let pred = |e: &Element| -> (b: bool)
        ensures
            b == is_fragment_link_spec(*e),
        { is_fragment_link(e) };
    let links = doc.find(pred);
    proof {
        let keep = choose|keep: Seq<bool>|
            answers(pred, elements_in(doc.children@), keep) && crate::parse::ast::deref_all(links@) == kept(elements_in(doc.children@), keep);
        lemma_kept_is_filter(pred, elements_in(doc.children@), keep, |e: Element| is_fragment_link_spec(e));
    }
    let ghost els = crate::parse::ast::deref_all(links@);
    let mut out: Vec<(String, String)> = Vec::new();
    let mut i: usize = 0;
    proof {
        assert(els.take(0) =~= Seq::<Element>::empty());
        assert(out@.map_values(|p: (String, String)| (p.0@, p.1@)) =~= Seq::<(Seq<char>, Seq<char>)>::empty());
    }
    while i < links.len()
        invariant
            i <= links@.len(),
            els == crate::parse::ast::deref_all(links@),
            out@.map_values(|p: (String, String)| (p.0@, p.1@)) == id_href_pairs(els.take(i as int)),
        decreases links@.len() - i,
    {
        proof {
            assert(els.take(i + 1).drop_last() =~= els.take(i as int));
            assert(els.take(i + 1).last() == *links@[i as int]);
        }
        let ghost before = out@.map_values(|p: (String, String)| (p.0@, p.1@));
        match (links[i].attr("id"), links[i].attr("href")) {
            (Some(id), Some(href)) => {
                out.push((String::from_str(id), String::from_str(href)));
                proof {
                    assert(out@.map_values(|p: (String, String)| (p.0@, p.1@)) =~= before.push((id@, href@)));
                }
            },
            _ => {},
        }
        i += 1;
    }
    proof {
        assert(els.take(links@.len() as int) =~= els);
    }
    out
}

/// `<template id="{id}">`.
pub open spec fn is_template_with_id(e: Element, id: Seq<char>) -> bool {
    tag_is(e@.name, "template"@) && attr_lookup(e@.attrs, "id"@) == Some(id)
}

/// Find the first `<template id=…>` element.
pub fn find_template<'a>(doc: &'a Document, id: &str) -> (r: Option<&'a Element>)
    ensures
        ({
            let found = elements_in(doc.children@).filter(|e: Element| is_template_with_id(e, id@));
            match r {
                Some(e) => found.len() > 0 && *e == found[0],
                None => found.len() == 0,
            }
        }),
{
    let pred = |e: &Element| -> (b: bool)
        ensures
            b == is_template_with_id(*e, id@),
        { e.is_template() && e.has_attr_value("id", id) };
    let found = doc.find(pred);
    proof {
        let keep = choose|keep: Seq<bool>|
            answers(pred, elements_in(doc.children@), keep) && crate::parse::ast::deref_all(found@) == kept(elements_in(doc.children@), keep);
        lemma_kept_is_filter(pred, elements_in(doc.children@), keep, |e: Element| is_template_with_id(e, id@));
    }
    if found.len() == 0 {
        None
    } else {
        Some(found[0])
    }
}

// ---------------------------------------------------------------------------
// Stripping authoring tags

/// Data and fragment links: authoring-only tags.
pub open spec fn is_authoring_link(e: ElementView) -> bool {
    is_rel_link(e, REL_DATA@) || is_rel_link(e, REL_FRAGMENT@)
}

/// Nodes without authoring links, at any depth.
pub open spec fn strip_nodes_spec(s: Seq<NodeView>) -> Seq<NodeView>
    decreases s,
{
    if s.len() == 0 {
        Seq::empty()
    } else {
        proof {
            assert(decreases_to!(s => s[s.len() - 1]));
        }
        strip_nodes_spec(s.drop_last()) + strip_node_spec(s[s.len() - 1])
    }
}

pub open spec fn strip_node_spec(n: NodeView) -> Seq<NodeView>
    decreases n,
{
    match n {
        NodeView::Element(e) => if is_authoring_link(e) {
            Seq::empty()
        } else {
            seq![NodeView::Element(ElementView { children: strip_nodes_spec(e.children), ..e })]
        },
        _ => seq![n],
    }
}

/// A top-level `<html>` loses its `data-bind`.
pub open spec fn unbind_html(n: NodeView) -> NodeView {
    match n {
        NodeView::Element(e) => if tag_is(e.name, "html"@) {
            NodeView::Element(ElementView { attrs: remove_attr_spec(e.attrs, DATA_BIND@), ..e })
        } else {
            n
        },
        _ => n,
    }
}

/// What [`strip_authoring`] leaves of a document's nodes.
pub open spec fn strip_authoring_spec(s: Seq<NodeView>) -> Seq<NodeView> {
    strip_nodes_spec(s).map_values(|n: NodeView| unbind_html(n))
}

fn strip_node(node: &Node, out: &mut Vec<Node>)
    ensures
        nodes_view(final(out)@) == nodes_view(old(out)@) + strip_node_spec(node@),
    decreases node,
{
    let ghost before = nodes_view(out@);
    match node {
        Node::Element(el) => {
            if is_data_link(el) || is_fragment_link(el) {
                proof {
                    assert(nodes_view(out@) =~= before + Seq::<NodeView>::empty());
                }
                return;
            }
            let mut kids: Vec<Node> = Vec::new();
            let mut i: usize = 0;
            proof {
                assert(nodes_view(el.children@).take(0) =~= Seq::<NodeView>::empty());
                assert(nodes_view(kids@) =~= Seq::<NodeView>::empty());
            }
            while i < el.children.len()
                invariant
                    i <= el.children@.len(),
                    *node == Node::Element(*el),
                    nodes_view(kids@) == strip_nodes_spec(nodes_view(el.children@).take(i as int)),
                decreases el.children@.len() - i,
            {
                proof {
                    assert(decreases_to!(*node => (*node)->Element_0));
                    assert(decreases_to!(el.children => el.children@));
                    assert(decreases_to!(el.children@ => el.children@[i as int]));
                    let kv = nodes_view(el.children@);
                    assert(kv.take(i + 1).drop_last() =~= kv.take(i as int));
                    assert(kv.take(i + 1)[i as int] == el.children@[i as int]@);
                }
                strip_node(&el.children[i], &mut kids);
                i += 1;
            }
            proof {
                assert(nodes_view(el.children@).take(el.children@.len() as int) =~= nodes_view(el.children@));
            }
            let copy = Element {
                name: el.name.clone(),
                attrs: crate::parse::attrs::attrs_clone(&el.attrs),
                children: kids,
                void: el.void,
            };
            out.push(Node::Element(copy));
            proof {
                assert(nodes_view(out@) =~= before + strip_node_spec(node@));
            }
        },
        _ => {
            out.push(node.copy());
            proof {
                assert(nodes_view(out@) =~= before + strip_node_spec(node@));
            }
        },
    }
}

/// Strip statica authoring tags so output is browser-valid HTML: data and
/// fragment links go, and a top-level `<html>` loses `data-bind`.
pub fn strip_authoring(doc: &mut Document)
    ensures
        final(doc)@.doctype == old(doc)@.doctype,
        final(doc)@.children == strip_authoring_spec(old(doc)@.children),
{
    let ghost orig = nodes_view(doc.children@);
    let mut kept_nodes: Vec<Node> = Vec::new();
    let mut i: usize = 0;
    proof {
        assert(orig.take(0) =~= Seq::<NodeView>::empty());
        assert(nodes_view(kept_nodes@) =~= Seq::<NodeView>::empty());
    }
    while i < doc.children.len()
        invariant
            i <= doc.children@.len(),
            orig == nodes_view(doc.children@),
            nodes_view(kept_nodes@) == strip_nodes_spec(orig.take(i as int)),
        decreases doc.children@.len() - i,
    {
        proof {
            assert(orig.take(i + 1).drop_last() =~= orig.take(i as int));
            assert(orig.take(i + 1)[i as int] == doc.children@[i as int]@);
        }
        strip_node(&doc.children[i], &mut kept_nodes);
        i += 1;
    }
    proof {
        assert(orig.take(doc.children@.len() as int) =~= orig);
    }
    let ghost stripped = nodes_view(kept_nodes@);
    let mut out: Vec<Node> = Vec::new();
    let mut j: usize = 0;
    while j < kept_nodes.len()
        invariant
            j <= kept_nodes@.len(),
            stripped == nodes_view(kept_nodes@),
            out@.len() == j,
            forall|k: int| 0 <= k < j ==> (#[trigger] out@[k])@ == unbind_html(stripped[k]),
        decreases kept_nodes@.len() - j,
    {
        let n = match &kept_nodes[j] {
            Node::Element(el) => if el.name_is_html() {
                let mut e = el.copy();
                attrs_shift_remove(&mut e.attrs, DATA_BIND);
                Node::Element(e)
            } else {
                kept_nodes[j].copy()
            },
            other => other.copy(),
        };
        proof {
            assert(stripped[j as int] == kept_nodes@[j as int]@);
        }
        out.push(n);
        j += 1;
    }
    doc.children = out;
    proof {
        assert(nodes_view(doc.children@) =~= stripped.map_values(|n: NodeView| unbind_html(n)));
    }
}

/// No data or fragment link anywhere in the nodes.
pub open spec fn free_of_links(s: Seq<NodeView>) -> bool
    decreases s,
{
    if s.len() == 0 {
        true
    } else {
        proof {
            assert(decreases_to!(s => s[s.len() - 1]));
        }
        free_of_links(s.drop_last()) && node_free_of_links(s[s.len() - 1])
    }
}

pub open spec fn node_free_of_links(n: NodeView) -> bool
    decreases n,
{
    match n {
        NodeView::Element(e) => !is_authoring_link(e) && free_of_links(e.children),
        _ => true,
    }
}

proof fn lemma_free_append(a: Seq<NodeView>, b: Seq<NodeView>)
    ensures
        free_of_links(a + b) == (free_of_links(a) && free_of_links(b)),
    decreases b.len(),
{
    if b.len() == 0 {
        assert(a + b =~= a);
    } else {
        lemma_free_append(a, b.drop_last());
        assert((a + b).drop_last() =~= a + b.drop_last());
        assert((a + b)[(a + b).len() - 1] == b[b.len() - 1]);
    }
}

proof fn lemma_strip_nodes_free(s: Seq<NodeView>)
    ensures
        free_of_links(strip_nodes_spec(s)),
    decreases s,
{
    if s.len() > 0 {
        assert(decreases_to!(s => s[s.len() - 1]));
        lemma_strip_nodes_free(s.drop_last());
        lemma_strip_node_free(s[s.len() - 1]);
        lemma_free_append(strip_nodes_spec(s.drop_last()), strip_node_spec(s[s.len() - 1]));
    }
}

proof fn lemma_strip_node_free(n: NodeView)
    ensures
        free_of_links(strip_node_spec(n)),
    decreases n,
{
    match n {
        NodeView::Element(e) => {
            if !is_authoring_link(e) {
                assert(decreases_to!(n => n->Element_0));
                lemma_strip_nodes_free(e.children);
                let e2 = ElementView { children: strip_nodes_spec(e.children), ..e };
                let out = seq![NodeView::Element(e2)];
                assert(is_authoring_link(e2) == is_authoring_link(e));
                assert(node_free_of_links(NodeView::Element(e2)));
                assert(out.drop_last() =~= Seq::<NodeView>::empty());
                assert(out[out.len() - 1] == NodeView::Element(e2));
                assert(free_of_links(Seq::<NodeView>::empty()));
                assert(strip_node_spec(n) == out);
                assert(free_of_links(out));
            } else {
                assert(strip_node_spec(n) =~= Seq::<NodeView>::empty());
                assert(free_of_links(Seq::<NodeView>::empty()));
            }
        },
        _ => {
            let out = seq![n];
            assert(node_free_of_links(n));
            assert(out.drop_last() =~= Seq::<NodeView>::empty());
            assert(out[out.len() - 1] == n);
            assert(free_of_links(Seq::<NodeView>::empty()));
            assert(strip_node_spec(n) == out);
            assert(free_of_links(out));
        },
    }
}

proof fn lemma_unbind_free(s: Seq<NodeView>)
    requires
        free_of_links(s),
    ensures
        free_of_links(s.map_values(|n: NodeView| unbind_html(n))),
    decreases s.len(),
{
    if s.len() > 0 {
        let m = s.map_values(|n: NodeView| unbind_html(n));
        lemma_unbind_free(s.drop_last());
        assert(m.drop_last() =~= s.drop_last().map_values(|n: NodeView| unbind_html(n)));
        let last = s[s.len() - 1];
        assert(m[m.len() - 1] == unbind_html(last));
        assert(node_free_of_links(last));
        match last {
            NodeView::Element(e) => {
                if tag_is(e.name, "html"@) {
                    reveal_strlit("html");
                    reveal_strlit("link");
                    assert("html"@[0] != "link"@[0]);
                    assert(!tag_is(e.name, "link"@));
                    let e2 = ElementView { attrs: remove_attr_spec(e.attrs, DATA_BIND@), ..e };
                    assert(!is_authoring_link(e2));
                    assert(node_free_of_links(NodeView::Element(e2)));
                }
            },
            _ => {},
        }
    }
}

/// After [`strip_authoring`] no data or fragment link is left anywhere in
/// the document.
pub proof fn law_stripped_document_has_no_authoring_links(children: Seq<NodeView>)
    ensures
        free_of_links(strip_authoring_spec(children)),
{
    lemma_strip_nodes_free(children);
    lemma_unbind_free(strip_nodes_spec(children));
}

} // verus!

//! Page binding: how a collection's `data-bind` is found in the page source,
//! and which list a `data-each` loop walks.

use vstd::prelude::*;

pub mod slots;

use crate::content::{dataset_array, DataSet};
use crate::error::{Error, ErrorView};
use crate::funnel::json::{
    current_or_null, data_err, find_source, opt_view, path_parts, read_field, read_field_spec,
    resolve_expr, resolve_expr_spec, source_lookup, DataSource,
};
use crate::funnel::value::{copy_values, elems_view, JsonView, Value};
use crate::funnel::json::{path_as_str, path_as_str_spec};
use crate::parse::ast::{nodes_view, tag_is, Element, ElementView, Node, NodeView};
use crate::parse::attrs::{
    attr_entries, attr_index, attr_lookup, attr_names, attrs_clone, attrs_get, attrs_insert, keys_unique,
    lemma_unique_index,
};
use crate::text::{
    char_index, chars_of, contains, find_char_in, has_prefix, lemma_char_index, push_char, split_nonempty,
    str_contains, str_eq, str_starts_with, string_range, trim, trim_range, trim_str, views,
};

verus! {

/// The two spellings of `data-bind="{id}"` used to locate a collection binding.
pub fn collection_needles(id: &str) -> (r: [String; 2])
    ensures
        r[0]@ == "data-bind=\""@ + id@ + "\""@,
        r[1]@ == "data-bind='"@ + id@ + "'"@,
{
    let mut dq = String::from_str("data-bind=\"");
    dq.append(id);
    dq.append("\"");
    let mut sq = String::from_str("data-bind='");
    sq.append(id);
    sq.append("'");
    [dq, sq]
}

/// The list `data-each` walks over when it reaches `v`: an array's items,
/// nothing for `null`, an error for anything else.
pub open spec fn as_each_list(v: JsonView) -> Result<Option<Seq<JsonView>>, ErrorView> {
    match v {
        JsonView::Array(items) => Ok(Some(items)),
        JsonView::Null => Ok(None),
        _ => Err(data_err("data-each expected an array"@)),
    }
}

/// Follow member names to a list; a missing member means no list.
pub open spec fn array_at_path_spec(v: JsonView, path: Seq<Seq<char>>) -> Result<Option<Seq<JsonView>>, ErrorView>
    decreases path.len(),
{
    if path.len() == 0 {
        as_each_list(v)
    } else {
        match read_field_spec(v, path[0]) {
            Some(n) => array_at_path_spec(n, path.drop_first()),
            None => Ok(None),
        }
    }
}

/// The single document a source holds (JSON or Markdown), if it is one.
pub open spec fn source_document(ds: DataSource) -> Option<JsonView> {
    match *ds.data {
        DataSet::Json(v) => Some(v@),
        DataSet::Markdown(v) => Some(v@),
        _ => None,
    }
}

/// The list a `data-each` expression names.
///
/// `.` is the current value itself. Otherwise the first segment is tried as
/// `this`, then as a member of the current value (when that leads to a list),
/// then as a data source id (a list source lists its items); failing all of
/// these, the whole expression is resolved as a `data-bind` expression.
pub open spec fn each_array_spec(
    expr: Seq<char>,
    cur: Option<JsonView>,
    local: Seq<DataSource>,
    parent: Seq<DataSource>,
) -> Result<Option<Seq<JsonView>>, ErrorView> {
    let e = trim(expr);
    if e.len() == 0 {
        Ok(None)
    } else if e == "."@ {
        match cur {
            Some(JsonView::Array(items)) => Ok(Some(items)),
            Some(JsonView::Null) => Ok(None),
            None => Ok(None),
            Some(_) => Err(data_err("data-each expected an array"@)),
        }
    } else {
        let parts = path_parts(e);
        if parts.len() == 0 {
            Err(data_err("empty data expression"@))
        } else {
            let first = parts[0];
            let rest = parts.drop_first();
            if first == "this"@ {
                array_at_path_spec(current_or_null(cur), rest)
            } else {
                let from_member = match cur {
                    Some(c) => match read_field_spec(c, first) {
                        Some(v) => Some(array_at_path_spec(v, rest)),
                        None => None,
                    },
                    None => None,
                };
                match from_member {
                    Some(Err(err)) => Err(err),
                    Some(Ok(Some(items))) => Ok(Some(items)),
                    _ => each_from_source(e, first, rest, cur, local, parent),
                }
            }
        }
    }
}

/// The data-source step of [`each_array_spec`].
pub open spec fn each_from_source(
    e: Seq<char>,
    first: Seq<char>,
    rest: Seq<Seq<char>>,
    cur: Option<JsonView>,
    local: Seq<DataSource>,
    parent: Seq<DataSource>,
) -> Result<Option<Seq<JsonView>>, ErrorView> {
    let src = match source_lookup(local, first) {
        Some(ds) => Some(ds),
        None => source_lookup(parent, first),
    };
    let fallback = match resolve_expr_spec(e, cur, local, parent) {
        Ok(v) => as_each_list(v),
        Err(err) => Err(err),
    };
    match src {
        Some(ds) => match source_document(ds) {
            Some(doc) => array_at_path_spec(doc, rest),
            None => if rest.len() == 0 {
                match dataset_array(*ds.data) {
                    Some(items) => Ok(Some(items)),
                    None => Err(data_err("data-each expected an array"@)),
                }
            } else {
                fallback
            },
        },
        None => fallback,
    }
}

fn expected_array() -> (r: Error)
    ensures
        r@ == data_err("data-each expected an array"@),
{
    Error::at_file("<data>", "data-each expected an array")
}

fn each_list(v: &Value) -> (r: Result<Option<Vec<Value>>, Error>)
    ensures
        match r {
            Ok(Some(items)) => as_each_list(v@) == Ok::<Option<Seq<JsonView>>, ErrorView>(Some(elems_view(items@))),
            Ok(None) => as_each_list(v@) == Ok::<Option<Seq<JsonView>>, ErrorView>(None),
            Err(e) => as_each_list(v@) == Err::<Option<Seq<JsonView>>, ErrorView>(e@),
        },
{
    match v {
        Value::Array(items) => Ok(Some(copy_values(items.as_slice()))),
        Value::Null => Ok(None),
        _ => Err(expected_array()),
    }
}

fn array_at_path(value: &Value, path: &Vec<String>, from: usize) -> (r: Result<Option<Vec<Value>>, Error>)
    requires
        from <= path@.len(),
    ensures
        match r {
            Ok(Some(items)) => array_at_path_spec(value@, views(path@).skip(from as int))
                == Ok::<Option<Seq<JsonView>>, ErrorView>(Some(elems_view(items@))),
            Ok(None) => array_at_path_spec(value@, views(path@).skip(from as int))
                == Ok::<Option<Seq<JsonView>>, ErrorView>(None),
            Err(e) => array_at_path_spec(value@, views(path@).skip(from as int))
                == Err::<Option<Seq<JsonView>>, ErrorView>(e@),
        },
{
    let ghost ps = views(path@);
    let mut cur: &Value = value;
    let mut i = from;
    while i < path.len()
        invariant
            from <= i <= path@.len(),
            ps == views(path@),
            array_at_path_spec(value@, ps.skip(from as int)) == array_at_path_spec(cur@, ps.skip(i as int)),
        decreases path@.len() - i,
    {
        proof {
            assert(ps.skip(i as int)[0] == path@[i as int]@);
            assert(ps.skip(i as int).drop_first() =~= ps.skip(i + 1));
        }
        match read_field(cur, path[i].as_str()) {
            Some(n) => {
                cur = n;
            },
            None => {
                return Ok(None);
            },
        }
        i += 1;
    }
    proof {
        assert(ps.skip(i as int) =~= Seq::<Seq<char>>::empty());
    }
    each_list(cur)
}

fn source_document_value(source: &DataSource) -> (r: Option<&Value>)
    ensures
        match r {
            Some(v) => source_document(*source) == Some(v@),
            None => source_document(*source) is None,
        },
{
    match &*source.data {
        DataSet::Json(v) => Some(v),
        DataSet::Markdown(v) => Some(v),
        _ => None,
    }
}

/// The list a `data-each` expression walks (see [`each_array_spec`]).
pub fn resolve_each_array(
    expr: &str,
    current: Option<&Value>,
    local_data: &[DataSource],
    parent_data: &[DataSource],
) -> (r: Result<Option<Vec<Value>>, Error>)
    ensures
        match r {
            Ok(Some(items)) => each_array_spec(expr@, opt_view(current), local_data@, parent_data@)
                == Ok::<Option<Seq<JsonView>>, ErrorView>(Some(elems_view(items@))),
            Ok(None) => each_array_spec(expr@, opt_view(current), local_data@, parent_data@)
                == Ok::<Option<Seq<JsonView>>, ErrorView>(None),
            Err(e) => each_array_spec(expr@, opt_view(current), local_data@, parent_data@)
                == Err::<Option<Seq<JsonView>>, ErrorView>(e@),
        },
{
    let e = trim_str(expr);
    if e.unicode_len() == 0 {
        return Ok(None);
    }
    proof {
        reveal_strlit(".");
        reveal_strlit("this");
    }
    if str_eq(e.as_str(), ".") {
        return match current {
            Some(Value::Array(items)) => Ok(Some(copy_values(items.as_slice()))),
            Some(Value::Null) => Ok(None),
            None => Ok(None),
            Some(_) => Err(expected_array()),
        };
    }
    let parts = split_nonempty(e.as_str(), '.');
    if parts.len() == 0 {
        return Err(Error::at_file("<data>", "empty data expression"));
    }
    proof {
        assert(views(parts@)[0] == parts@[0]@);
        assert(views(parts@).skip(1) =~= views(parts@).drop_first());
    }
    let first = parts[0].as_str();
    if str_eq(first, "this") {
        return match current {
            Some(c) => array_at_path(c, &parts, 1),
            None => array_at_path(&Value::Null, &parts, 1),
        };
    }
    match current {
        Some(c) => match read_field(c, first) {
            Some(v) => match array_at_path(v, &parts, 1) {
                Err(err) => {
                    return Err(err);
                },
                Ok(Some(items)) => {
                    return Ok(Some(items));
                },
                Ok(None) => {},
            },
            None => {},
        },
        None => {},
    }
    let src = match find_source(local_data, first) {
        Some(i) => Some(&local_data[i]),
        None => match find_source(parent_data, first) {
            Some(i) => Some(&parent_data[i]),
            None => None,
        },
    };
    match src {
        Some(source) => {
            match source_document_value(source) {
                Some(doc) => {
                    return array_at_path(doc, &parts, 1);
                },
                None => {},
            }
            if parts.len() == 1 {
                return match source.array() {
                    Some(items) => Ok(Some(items)),
                    None => Err(expected_array()),
                };
            }
        },
        None => {},
    }
    match resolve_expr(e.as_str(), current, local_data, parent_data) {
        Ok(v) => each_list(&v),
        Err(err) => Err(err),
    }
}

// ---------------------------------------------------------------------------
// `${path}` templates in attribute values

/// `raw` with each `${path}` replaced by the path's value read from `ctx` as
/// attribute text (missing, `null`, objects and arrays render empty); a `${`
/// without a closing `}` stays as written.
pub open spec fn expand_spec(s: Seq<char>, ctx: JsonView) -> Seq<char>
    decreases s.len(),
{
    if s.len() == 0 {
        Seq::empty()
    } else if s.len() >= 2 && s[0] == '$' && s[1] == '{' && char_index(s.skip(2), '}') is Some {
        let k = char_index(s.skip(2), '}')->0;
        proof {
            lemma_char_index(s.skip(2), '}');
        }
        path_as_str_spec(ctx, trim(s.skip(2).take(k))) + expand_spec(s.skip(k + 3), ctx)
    } else {
        seq![s[0]] + expand_spec(s.drop_first(), ctx)
    }
}

/// Expand `${path}` placeholders in an attribute value.
pub fn expand_template(raw: &str, ctx: &Value) -> (r: String)
    ensures
        r@ == expand_spec(raw@, ctx@),
{
    let v = chars_of(raw);
    let mut out = String::new();
    let mut i: usize = 0;
    proof {
        assert(v@.skip(0) =~= v@);
    }
    while i < v.len()
        invariant
            i <= v@.len(),
            v@ == raw@,
            expand_spec(raw@, ctx@) == out@ + expand_spec(v@.skip(i as int), ctx@),
        decreases v@.len() - i,
    {
        let ghost s = v@.skip(i as int);
        let mut done = false;
        if v[i] == '$' && i + 1 < v.len() && v[i + 1] == '{' {
            match find_char_in(v.as_slice(), i + 2, v.len(), '}') {
                Some(end) => {
                    proof {
                        assert(s.skip(2) =~= v@.subrange(i + 2, v@.len() as int));
                        lemma_char_index(s.skip(2), '}');
                        let k = (end - (i + 2)) as int;
                        assert(s.skip(2).take(k) =~= v@.subrange(i + 2, end as int));
                        assert(s.skip(k + 3) =~= v@.skip(end + 1));
                    }
                    let (a, b) = trim_range(v.as_slice(), i + 2, end);
                    let path = string_range(v.as_slice(), a, b);
                    let val = path_as_str(ctx, path.as_str());
                    out.append(val.as_str());
                    i = end + 1;
                    done = true;
                },
                None => {
                    proof {
                        assert(s.skip(2) =~= v@.subrange(i + 2, v@.len() as int));
                    }
                },
            }
        }
        if !done {
            proof {
                assert(s.drop_first() =~= v@.skip(i + 1));
                assert(s[0] == v@[i as int]);
            }
            push_char(&mut out, v[i]);
            i += 1;
        }
    }
    proof {
        assert(v@.skip(i as int) =~= Seq::<char>::empty());
    }
    out
}

/// `data-t` and `data-t-{attr}` markers are translated, not bound.
pub open spec fn is_marker_name(n: Seq<char>) -> bool {
    n == "data-t"@ || has_prefix(n, "data-t-"@)
}

/// An attribute after binding: values holding `${` are expanded (markers
/// are left alone).
pub open spec fn fill_attr(kv: (Seq<char>, Seq<char>), ctx: JsonView) -> (Seq<char>, Seq<char>) {
    if !is_marker_name(kv.0) && contains(kv.1, "${"@) {
        (kv.0, expand_spec(kv.1, ctx))
    } else {
        kv
    }
}

/// Nodes with `${path}` attribute templates filled from `ctx`, at any depth
/// (attributes of `<script>` and `<style>` stay as written).
pub open spec fn fill_nodes_spec(s: Seq<NodeView>, ctx: JsonView) -> Seq<NodeView>
    decreases s,
{
    Seq::new(s.len(), |i: int| if 0 <= i < s.len() { fill_node_spec(s[i], ctx) } else { NodeView::Text(Seq::empty()) })
}

pub open spec fn fill_node_spec(n: NodeView, ctx: JsonView) -> NodeView
    decreases n,
{
    match n {
        NodeView::Element(e) => {
            let raw = tag_is(e.name, "script"@) || tag_is(e.name, "style"@);
            NodeView::Element(ElementView {
                attrs: if raw { e.attrs } else { e.attrs.map_values(|kv: (Seq<char>, Seq<char>)| fill_attr(kv, ctx)) },
                children: fill_nodes_spec(e.children, ctx),
                ..e
            })
        },
        _ => n,
    }
}

fn is_marker(name: &str) -> (r: bool)
    ensures
        r == is_marker_name(name@),
{
    str_eq(name, "data-t") || str_starts_with(name, "data-t-")
}

fn fill_attrs(el: &Element, ctx: &Value) -> (r: crate::parse::attrs::AttrMap)
    ensures
        attr_entries(r) == attr_entries(el.attrs).map_values(|kv: (Seq<char>, Seq<char>)| fill_attr(kv, ctx@)),
{
    let ghost orig = attr_entries(el.attrs);
    let names = attr_names(&el.attrs);
    let mut m = attrs_clone(&el.attrs);
    let mut i: usize = 0;
    while i < names.len()
        invariant
            i <= names@.len(),
            names@.len() == orig.len(),
            orig == attr_entries(el.attrs),
            keys_unique(orig),
            forall|j: int| 0 <= j < names@.len() ==> (#[trigger] names@[j])@ == orig[j].0,
            attr_entries(m).len() == orig.len(),
            forall|j: int| 0 <= j < orig.len() ==> (#[trigger] attr_entries(m)[j]).0 == orig[j].0,
            forall|j: int| 0 <= j < i ==> (#[trigger] attr_entries(m)[j]) == fill_attr(orig[j], ctx@),
            forall|j: int| i <= j < orig.len() ==> (#[trigger] attr_entries(m)[j]) == orig[j],
        decreases names@.len() - i,
    {
        let name = &names[i];
        proof {
            lemma_unique_index(orig, i as int);
            let e = attr_entries(m);
            assert(keys_unique(e)) by {
                assert forall|x: int, y: int| 0 <= x < y < e.len() implies #[trigger] e[x].0 != #[trigger] e[y].0 by {
                    assert(e[x].0 == orig[x].0 && e[y].0 == orig[y].0);
                }
            }
            lemma_unique_index(e, i as int);
        }
        match attrs_get(&el.attrs, name.as_str()) {
            Some(v) => {
                if !is_marker(name.as_str()) && str_contains(v.as_str(), "${") {
                    proof {
                        reveal_strlit("${");
                    }
                    let x = expand_template(v.as_str(), ctx);
                    attrs_insert(&mut m, name.clone(), x);
                }
            },
            None => {},
        }
        i += 1;
    }
    proof {
        assert(attr_entries(m) =~= orig.map_values(|kv: (Seq<char>, Seq<char>)| fill_attr(kv, ctx@)));
    }
    m
}

fn fill_node(node: &Node, ctx: &Value) -> (r: Node)
    ensures
        r@ == fill_node_spec(node@, ctx@),
    decreases node,
{
    match node {
        Node::Element(el) => {
            let attrs = if el.is_script() || el.is_style() {
                attrs_clone(&el.attrs)
            } else {
                fill_attrs(el, ctx)
            };
            let mut kids: Vec<Node> = Vec::new();
            let mut i: usize = 0;
            while i < el.children.len()
                invariant
                    i <= el.children@.len(),
                    *node == Node::Element(*el),
                    kids@.len() == i,
                    forall|k: int| 0 <= k < i ==> (#[trigger] kids@[k])@ == fill_node_spec(el.children@[k]@, ctx@),
                decreases el.children@.len() - i,
            {
                proof {
                    assert(decreases_to!(*node => (*node)->Element_0));
                    assert(decreases_to!(el.children => el.children@));
                    assert(decreases_to!(el.children@ => el.children@[i as int]));
                }
                kids.push(fill_node(&el.children[i], ctx));
                i += 1;
            }
            let r = Element { name: el.name.clone(), attrs, children: kids, void: el.void };
            proof {
                assert(nodes_view(r.children@) =~= fill_nodes_spec(nodes_view(el.children@), ctx@));
            }
            Node::Element(r)
        },
        _ => node.copy(),
    }
}

/// Fill `${path}` attribute templates from `ctx` in every element of `nodes`.
pub fn fill_attr_templates_in_nodes(nodes: &mut Vec<Node>, ctx: &Value)
    ensures
        nodes_view(final(nodes)@) == fill_nodes_spec(nodes_view(old(nodes)@), ctx@),
{
    let mut out: Vec<Node> = Vec::new();
    let mut i: usize = 0;
    while i < nodes.len()
        invariant
            i <= nodes@.len(),
            out@.len() == i,
            forall|k: int| 0 <= k < i ==> (#[trigger] out@[k])@ == fill_node_spec(nodes@[k]@, ctx@),
        decreases nodes@.len() - i,
    {
        out.push(fill_node(&nodes[i], ctx));
        i += 1;
    }
    proof {
        assert(nodes_view(out@) =~= fill_nodes_spec(nodes_view(nodes@), ctx@));
    }
    *nodes = out;
}

/// An attribute value without `${` is left exactly as written.
pub proof fn law_template_without_placeholders_is_unchanged(s: Seq<char>, ctx: JsonView)
    requires
        !contains(s, "${"@),
    ensures
        expand_spec(s, ctx) == s,
    decreases s.len(),
{
    reveal_strlit("${");
    crate::text::lemma_find_from_bounds(s, "${"@, 0);
    if s.len() > 0 {
        if s.len() >= 2 && s[0] == '$' && s[1] == '{' {
            assert(s.subrange(0, 2) =~= "${"@);
            assert(crate::text::match_at(s, "${"@, 0));
        }
        let t = s.drop_first();
        crate::text::lemma_find_from_bounds(t, "${"@, 0);
        if contains(t, "${"@) {
            let k = crate::text::find_from(t, "${"@, 0)->0;
            assert(crate::text::match_at(t, "${"@, k));
            assert(s.subrange(k + 1, k + 3) =~= t.subrange(k, k + 2));
            assert(crate::text::match_at(s, "${"@, k + 1));
        }
        law_template_without_placeholders_is_unchanged(t, ctx);
        assert(seq![s[0]] + t =~= s);
    }
}

} // verus!

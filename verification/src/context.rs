//! Canonical context roots, the layers of a render context, and the
//! context a template is rendered with: bound values first, then linked
//! data, never the canonical roots by themselves.

use vstd::prelude::*;

use std::sync::Arc;

use crate::content::{dataset_value, DataKind, DataSet};
use crate::discover::{param_views, PageSource};
use crate::funnel::json::{member_lookup, read_field, read_field_spec, DataSource};
use crate::funnel::value::{members_view, JsonView, Value};
use crate::i18n::{copy_members, deep_merge, lemma_member_index, lemma_set_other, member_index, member_position, member_set, merge_spec};
use crate::text::str_eq;

verus! {

/// Canonical page context roots produced by statica.
#[derive(Debug, Clone, Copy, PartialEq, Eq, Hash)]
pub enum CanonicalRoot {
    /// All linked page data, keyed by data source id.
    Data,
    /// The current collection item for dynamic routes.
    Item,
    /// Route, params, and pagination metadata.
    Page,
    /// Active locale metadata and any bound translation catalog.
    I18n,
}

/// The name of a root in templates.
pub open spec fn root_name(r: CanonicalRoot) -> Seq<char> {
    match r {
        CanonicalRoot::Data => "data"@,
        CanonicalRoot::Item => "item"@,
        CanonicalRoot::Page => "page"@,
        CanonicalRoot::I18n => "i18n"@,
    }
}

/// The root with a given name, in declaration order.
pub open spec fn root_named(s: Seq<char>) -> Option<CanonicalRoot> {
    if s == "data"@ {
        Some(CanonicalRoot::Data)
    } else if s == "item"@ {
        Some(CanonicalRoot::Item)
    } else if s == "page"@ {
        Some(CanonicalRoot::Page)
    } else if s == "i18n"@ {
        Some(CanonicalRoot::I18n)
    } else {
        None
    }
}

impl CanonicalRoot {
    pub fn as_str(self) -> (r: &'static str)
        ensures
            r@ == root_name(self),
    {
        match self {
            CanonicalRoot::Data => "data",
            CanonicalRoot::Item => "item",
            CanonicalRoot::Page => "page",
            CanonicalRoot::I18n => "i18n",
        }
    }

    pub fn from_str(value: &str) -> (r: Option<Self>)
        ensures
            r == root_named(value@),
    {
        if str_eq(value, "data") {
            Some(CanonicalRoot::Data)
        } else if str_eq(value, "item") {
            Some(CanonicalRoot::Item)
        } else if str_eq(value, "page") {
            Some(CanonicalRoot::Page)
        } else if str_eq(value, "i18n") {
            Some(CanonicalRoot::I18n)
        } else {
            None
        }
    }
}

/// Where a context is being used.
#[derive(Debug, Clone, Copy, PartialEq, Eq)]
pub enum ContextScope {
    /// Page templates may use bound page data and declared data link ids.
    Page,
    /// Fragments may use bound fragment data and linked data ids.
    Fragment,
}

/// A named layer in the context tree, from highest to lowest precedence.
#[derive(Debug, Clone, Copy, PartialEq, Eq)]
pub enum ContextLayer {
    /// Values produced by `data-bind`.
    Bound,
    /// Values from `<link rel="statica/data" id="...">` sources.
    Linked,
}

impl ContextScope {
    /// Layers in precedence order: bound values, then linked data.
    pub fn layers(self) -> (r: Vec<ContextLayer>)
        ensures
            r@ == seq![ContextLayer::Bound, ContextLayer::Linked],
    {
        let mut v: Vec<ContextLayer> = Vec::new();
        v.push(ContextLayer::Bound);
        v.push(ContextLayer::Linked);
        proof {
            assert(v@ =~= seq![ContextLayer::Bound, ContextLayer::Linked]);
        }
        v
    }
}


/// Every root is found again by its name.
pub proof fn law_root_name_round_trip(r: CanonicalRoot)
    ensures
        root_named(root_name(r)) == Some(r),
{
    reveal_strlit("data");
    reveal_strlit("item");
    reveal_strlit("page");
    reveal_strlit("i18n");
    assert("item"@[0] != "data"@[0]);
    assert("page"@[0] != "data"@[0]);
    assert("page"@[0] != "item"@[0]);
    assert("i18n"@[1] != "data"@[1]);
    assert("i18n"@[1] != "item"@[1]);
    assert("i18n"@[0] != "page"@[0]);
}


/// Data sources available to mount expressions, keyed by id (ids unique).
#[derive(Debug, Clone)]
pub struct ContextData<V> {
    entries: Vec<(String, V)>,
}

/// `HashMap::insert` on `(id, source)` entries.
pub open spec fn data_insert<V>(t: Seq<(Seq<char>, V)>, key: Seq<char>, v: V) -> Seq<(Seq<char>, V)> {
    match data_index(t, key) {
        Some(i) => t.update(i, (key, v)),
        None => t.push((key, v)),
    }
}

pub open spec fn data_index<V>(t: Seq<(Seq<char>, V)>, key: Seq<char>) -> Option<int>
    decreases t.len(),
{
    if t.len() == 0 {
        None
    } else if t[0].0 == key {
        Some(0)
    } else {
        match data_index(t.drop_first(), key) {
            Some(i) => Some(i + 1),
            None => None,
        }
    }
}

proof fn lemma_data_index<V>(t: Seq<(Seq<char>, V)>, key: Seq<char>)
    ensures
        data_index(t, key) matches Some(i) ==> 0 <= i < t.len() && t[i].0 == key && forall|j: int|
            0 <= j < i ==> t[j].0 != key,
        data_index(t, key) is None ==> forall|j: int| 0 <= j < t.len() ==> t[j].0 != key,
    decreases t.len(),
{
    if t.len() > 0 && t[0].0 != key {
        lemma_data_index(t.drop_first(), key);
        assert forall|j: int| 1 <= j < t.len() implies t[j] == t.drop_first()[j - 1] by {}
    }
}

/// Every link inserted in order (links win over existing ids).
pub open spec fn data_merge<V>(t: Seq<(Seq<char>, V)>, links: Seq<(Seq<char>, V)>) -> Seq<(Seq<char>, V)>
    decreases links.len(),
{
    if links.len() == 0 {
        t
    } else {
        data_insert(data_merge(t, links.drop_last()), links.last().0, links.last().1)
    }
}

pub open spec fn data_view<V>(e: Seq<(String, V)>) -> Seq<(Seq<char>, V)> {
    e.map_values(|p: (String, V)| (p.0@, p.1))
}

impl<V> View for ContextData<V> {
    type V = Seq<(Seq<char>, V)>;

    closed spec fn view(&self) -> Seq<(Seq<char>, V)> {
        data_view(self.entries@)
    }
}

impl<V> ContextData<V> {
    /// Data from `(id, source)` pairs; a repeated id keeps its first place
    /// and its last source.
    pub fn new(data: Vec<(String, V)>) -> (r: Self)
        ensures
            r@ == data_merge(Seq::<(Seq<char>, V)>::empty(), data_view(data@)),
    {
        let empty: ContextData<V> = ContextData { entries: Vec::new() };
        proof {
            assert(empty@ =~= Seq::<(Seq<char>, V)>::empty());
        }
        empty.with_links(data)
    }

    /// The `(id, source)` entries.
    pub fn as_map(&self) -> (r: &Vec<(String, V)>)
        ensures
            data_view(r@) == self@,
    {
        &self.entries
    }

    fn index_of(&self, key: &str) -> (r: Option<usize>)
        ensures
            match r {
                Some(i) => i < self@.len() && data_index(self@, key@) == Some(i as int),
                None => data_index(self@, key@) is None,
            },
    {
        let ghost t = self@;
        proof {
            lemma_data_index(t, key@);
        }
        let mut i: usize = 0;
        while i < self.entries.len()
            invariant
                i <= self.entries@.len(),
                t == self@,
                t.len() == self.entries@.len(),
                forall|j: int| 0 <= j < i ==> t[j].0 != key@,
                data_index(t, key@) matches Some(k) ==> 0 <= k < t.len() && t[k].0 == key@ && forall|j: int|
                    0 <= j < k ==> t[j].0 != key@,
                data_index(t, key@) is None ==> forall|j: int| 0 <= j < t.len() ==> t[j].0 != key@,
            decreases self.entries@.len() - i,
        {
            proof {
                assert(t[i as int].0 == self.entries@[i as int].0@);
            }
            if crate::text::str_eq(self.entries[i].0.as_str(), key) {
                return Some(i);
            }
            i += 1;
        }
        None
    }

    /// This data with `links` added (a link replaces the source of the same id).
    pub fn with_links(self, links: Vec<(String, V)>) -> (r: Self)
        ensures
            r@ == data_merge(self@, data_view(links@)),
    {
        let mut out = self;
        let ghost start = out@;
        let ghost lv = data_view(links@);
        let mut links = links;
        let n0 = links.len();
        assert(lv.len() == n0);
        let mut rev: Vec<(String, V)> = Vec::new();
        while links.len() > 0
            invariant
                data_view(links@) + data_view(rev@).reverse() == lv,
            decreases links@.len(),
        {
            let ghost before_l = data_view(links@);
            let ghost before_r = data_view(rev@);
            let e = links.pop().unwrap();
            let ghost ev = (e.0@, e.1);
            rev.push(e);
            proof {
                assert(data_view(links@) =~= before_l.drop_last());
                assert(before_l.last() == ev);
                assert(data_view(rev@) =~= before_r.push(ev));
                assert(data_view(rev@).reverse() =~= seq![ev] + before_r.reverse());
                assert(data_view(links@) + data_view(rev@).reverse() =~= before_l + before_r.reverse());
            }
        }
        proof {
            assert(data_view(links@) =~= Seq::<(Seq<char>, V)>::empty());
            assert(data_view(rev@).reverse() =~= lv);
            assert(lv.take(0) =~= Seq::<(Seq<char>, V)>::empty());
        }
        let mut taken: usize = 0;
        while rev.len() > 0
            invariant
                lv.len() == n0,
                taken + rev@.len() == lv.len(),
                data_view(rev@).reverse() == lv.skip(taken as int),
                out@ == data_merge(start, lv.take(taken as int)),
            decreases rev@.len(),
        {
            let ghost before_r = data_view(rev@);
            let (k, v) = rev.pop().unwrap();
            let ghost ev = (k@, v);
            proof {
                assert(before_r.reverse()[0] == before_r.last());
                assert(lv.skip(taken as int)[0] == lv[taken as int]);
                assert(lv[taken as int] == ev);
                assert(data_view(rev@) =~= before_r.drop_last());
                assert(before_r.drop_last().reverse() =~= before_r.reverse().drop_first());
                assert(lv.skip(taken as int).drop_first() =~= lv.skip(taken + 1));
                assert(data_view(rev@).reverse() =~= lv.skip(taken + 1));
                assert(lv.take(taken + 1).drop_last() =~= lv.take(taken as int));
                assert(lv.take(taken + 1).last() == ev);
            }
            match out.index_of(k.as_str()) {
                Some(i) => {
                    let ghost prev = out@;
                    out.entries.set(i, (k, v));
                    proof {
                        assert(out@ =~= prev.update(i as int, ev));
                    }
                },
                None => {
                    let ghost prev = out@;
                    out.entries.push((k, v));
                    proof {
                        assert(out@ =~= prev.push(ev));
                    }
                },
            }
            taken += 1;
        }
        proof {
            assert(lv.take(lv.len() as int) =~= lv);
        }
        out
    }
}

// ---------------------------------------------------------------------------
// The context tree

/// `m` added after `roots`, a name already there keeping its value.
pub open spec fn first_wins(roots: Seq<(Seq<char>, JsonView)>, m: Seq<(Seq<char>, JsonView)>) -> Seq<(Seq<char>, JsonView)>
    decreases m.len(),
{
    if m.len() == 0 {
        roots
    } else {
        let r = first_wins(roots, m.drop_last());
        if member_index(r, m.last().0) is Some {
            r
        } else {
            r.push(m.last())
        }
    }
}

/// The roots a bound value gives: its members when it is an object.
pub open spec fn bound_roots(b: JsonView) -> Seq<(Seq<char>, JsonView)> {
    match b {
        JsonView::Object(m) => m,
        _ => Seq::empty(),
    }
}

/// The value a data source holds.
pub open spec fn source_value(s: DataSource) -> JsonView {
    dataset_value(*s.data)
}

/// The roots linked data gives: each source's value under its id, except
/// the canonical root names.
pub open spec fn linked_roots_spec(d: Seq<(Seq<char>, DataSource)>) -> Seq<(Seq<char>, JsonView)>
    decreases d.len(),
{
    if d.len() == 0 {
        Seq::empty()
    } else {
        let r = linked_roots_spec(d.drop_last());
        if root_named(d.last().0) is Some {
            r
        } else {
            member_set(r, d.last().0, source_value(d.last().1))
        }
    }
}

/// The render context: bound roots, then linked roots not already bound.
pub open spec fn render_context_spec(bound: JsonView, data: Seq<(Seq<char>, DataSource)>) -> JsonView {
    JsonView::Object(first_wins(first_wins(Seq::empty(), bound_roots(bound)), linked_roots_spec(data)))
}

/// The render context with `catalog` merged into its `i18n` root, when it
/// has one.
pub open spec fn translated_context_spec(
    bound: JsonView,
    data: Seq<(Seq<char>, DataSource)>,
    catalog: Option<JsonView>,
) -> JsonView {
    let ctx = render_context_spec(bound, data)->Object_0;
    match (member_lookup(ctx, "i18n"@), catalog) {
        (Some(base), Some(c)) => JsonView::Object(member_set(ctx, "i18n"@, merge_spec(base, c))),
        _ => JsonView::Object(ctx),
    }
}

/// Ordered tree of context layers for one render scope.
#[derive(Debug)]
pub struct ContextTree {
    scope: ContextScope,
    bound: Value,
    data: ContextData<DataSource>,
}

fn add_first_wins(roots: &mut Vec<(String, Value)>, m: &Vec<(String, Value)>)
    ensures
        members_view(final(roots)@) == first_wins(members_view(old(roots)@), members_view(m@)),
{
    let ghost mv = members_view(m@);
    let ghost start = members_view(roots@);
    let mut i: usize = 0;
    proof {
        assert(mv.take(0) =~= Seq::<(Seq<char>, JsonView)>::empty());
    }
    while i < m.len()
        invariant
            i <= m@.len(),
            mv == members_view(m@),
            mv.len() == m@.len(),
            members_view(roots@) == first_wins(start, mv.take(i as int)),
        decreases m@.len() - i,
    {
        proof {
            assert(mv.take(i + 1).drop_last() =~= mv.take(i as int));
            assert(mv.take(i + 1).last() == (m@[i as int].0@, m@[i as int].1@));
        }
        if member_position(roots, m[i].0.as_str()).is_none() {
            let ghost before = members_view(roots@);
            roots.push((m[i].0.clone(), m[i].1.copy()));
            proof {
                assert(members_view(roots@) =~= before.push((m@[i as int].0@, m@[i as int].1@)));
            }
        }
        i += 1;
    }
    proof {
        assert(mv.take(i as int) =~= mv);
    }
}

fn linked_roots(data: &ContextData<DataSource>) -> (r: Vec<(String, Value)>)
    ensures
        members_view(r@) == linked_roots_spec(data@),
{
    let entries = data.as_map();
    let ghost d = data@;
    let mut out: Vec<(String, Value)> = Vec::new();
    let mut i: usize = 0;
    proof {
        assert(d.take(0) =~= Seq::<(Seq<char>, DataSource)>::empty());
        assert(members_view(out@) =~= Seq::<(Seq<char>, JsonView)>::empty());
    }
    while i < entries.len()
        invariant
            i <= entries@.len(),
            d == data@,
            data_view(entries@) == d,
            d.len() == entries@.len(),
            members_view(out@) == linked_roots_spec(d.take(i as int)),
        decreases entries@.len() - i,
    {
        proof {
            assert(d.take(i + 1).drop_last() =~= d.take(i as int));
            assert(d.take(i + 1).last() == (entries@[i as int].0@, entries@[i as int].1));
        }
        let id = &entries[i].0;
        if CanonicalRoot::from_str(id.as_str()).is_none() {
            let v = entries[i].1.value();
            let ghost before = members_view(out@);
            let ghost vv = v@;
            match member_position(&out, id.as_str()) {
                Some(p) => {
                    out.set(p, (id.clone(), v));
                    proof {
                        assert(members_view(out@) =~= before.update(p as int, (id@, vv)));
                    }
                },
                None => {
                    out.push((id.clone(), v));
                    proof {
                        assert(members_view(out@) =~= before.push((id@, vv)));
                    }
                },
            }
        }
        i += 1;
    }
    proof {
        assert(d.take(i as int) =~= d);
    }
    out
}

impl ContextTree {
    pub fn new(scope: ContextScope, bound: Value, data: ContextData<DataSource>) -> (r: Self)
        ensures
            r.scope() == scope,
            r.bound() == bound@,
            r.data() == data@,
    {
        ContextTree { scope, bound, data }
    }

    pub closed spec fn scope(&self) -> ContextScope {
        self.scope
    }

    pub closed spec fn bound(&self) -> JsonView {
        self.bound@
    }

    pub closed spec fn data(&self) -> Seq<(Seq<char>, DataSource)> {
        self.data@
    }

    /// The context a template renders with: the bound value's members,
    /// then the linked sources (not the canonical roots) under names not
    /// already bound.
    pub fn render_context(&self) -> (r: Value)
        ensures
            r@ == render_context_spec(self.bound(), self.data()),
    {
        let mut roots: Vec<(String, Value)> = Vec::new();
        proof {
            assert(members_view(roots@) =~= Seq::<(Seq<char>, JsonView)>::empty());
        }
        match &self.bound {
            Value::Object(m) => {
                add_first_wins(&mut roots, m);
            },
            _ => {
                proof {
                    assert(first_wins(Seq::empty(), Seq::<(Seq<char>, JsonView)>::empty()) =~= Seq::<
                        (Seq<char>, JsonView),
                    >::empty());
                }
            },
        }
        let linked = linked_roots(&self.data);
        add_first_wins(&mut roots, &linked);
        Value::Object(roots)
    }

    /// The render context with `catalog` merged into its `i18n` root; a
    /// context without an `i18n` root stays as it is.
    pub fn translated_context(&self, catalog: Option<&Value>) -> (r: Value)
        ensures
            r@ == translated_context_spec(
                self.bound(),
                self.data(),
                match catalog {
                    Some(c) => Some(c@),
                    None => None,
                },
            ),
    {
        let ctx = self.render_context();
        let mut members = match ctx {
            Value::Object(m) => m,
            _ => Vec::new(),
        };
        let ghost mv = members_view(members@);
        proof {
            reveal_strlit("i18n");
            lemma_member_index(mv, "i18n"@);
        }
        match (member_position(&members, "i18n"), catalog) {
            (Some(p), Some(c)) => {
                proof {
                    assert(mv[p as int] == (members@[p as int].0@, members@[p as int].1@));
                }
                let merged = deep_merge(&members[p].1, c);
                let ghost mg = merged@;
                members.set(p, (String::from_str("i18n"), merged));
                proof {
                    assert(members_view(members@) =~= mv.update(p as int, ("i18n"@, mg)));
                }
                Value::Object(members)
            },
            _ => Value::Object(members),
        }
    }
}

// ---------------------------------------------------------------------------
// Laws of the render context

proof fn lemma_lookup_push(s: Seq<(Seq<char>, JsonView)>, x: (Seq<char>, JsonView), k: Seq<char>)
    ensures
        member_lookup(s.push(x), k) == match member_lookup(s, k) {
            Some(v) => Some(v),
            None => if x.0 == k {
                Some(x.1)
            } else {
                None
            },
        },
    decreases s.len(),
{
    if s.len() == 0 {
        assert(s.push(x)[0] == x);
        assert(s.push(x).drop_first() =~= Seq::<(Seq<char>, JsonView)>::empty());
        assert(member_lookup(Seq::<(Seq<char>, JsonView)>::empty(), k) is None);
        assert(member_lookup(s, k) is None);
    } else {
        assert(s.push(x)[0] == s[0]);
        assert(s.push(x).drop_first() =~= s.drop_first().push(x));
        lemma_lookup_push(s.drop_first(), x, k);
    }
}

proof fn lemma_first_wins_lookup(r: Seq<(Seq<char>, JsonView)>, m: Seq<(Seq<char>, JsonView)>, k: Seq<char>)
    ensures
        member_lookup(first_wins(r, m), k) == match member_lookup(r, k) {
            Some(v) => Some(v),
            None => member_lookup(m, k),
        },
    decreases m.len(),
{
    if m.len() == 0 {
    } else {
        let m0 = m.drop_last();
        let x = m.last();
        assert(m =~= m0.push(x));
        lemma_first_wins_lookup(r, m0, k);
        lemma_lookup_push(m0, x, k);
        let r1 = first_wins(r, m0);
        lemma_member_index(r1, x.0);
        if member_index(r1, x.0) is None {
            lemma_lookup_push(r1, x, k);
        } else if x.0 == k {
            assert(member_lookup(r1, k) is Some);
        }
    }
}

proof fn lemma_linked_no_canonical(d: Seq<(Seq<char>, DataSource)>, k: Seq<char>)
    requires
        root_named(k) is Some,
    ensures
        member_lookup(linked_roots_spec(d), k) is None,
    decreases d.len(),
{
    if d.len() > 0 {
        lemma_linked_no_canonical(d.drop_last(), k);
        if root_named(d.last().0) is None {
            lemma_set_other(linked_roots_spec(d.drop_last()), d.last().0, source_value(d.last().1), k);
        }
    }
}

/// Bound values precede linked data, and linked data never stands in for a
/// canonical root: in the render context a name the bound value has reads
/// as bound; a canonical root name it lacks is absent; any other name reads
/// as the linked source of that id.
pub proof fn law_bound_roots_precede_linked(bound: JsonView, data: Seq<(Seq<char>, DataSource)>, key: Seq<char>)
    ensures
        member_lookup(bound_roots(bound), key) is Some ==> member_lookup(render_context_spec(bound, data)->Object_0, key)
            == member_lookup(bound_roots(bound), key),
        member_lookup(bound_roots(bound), key) is None && root_named(key) is Some ==> member_lookup(
            render_context_spec(bound, data)->Object_0,
            key,
        ) is None,
        member_lookup(bound_roots(bound), key) is None && root_named(key) is None ==> member_lookup(
            render_context_spec(bound, data)->Object_0,
            key,
        ) == member_lookup(linked_roots_spec(data), key),
{
    let b = first_wins(Seq::empty(), bound_roots(bound));
    lemma_first_wins_lookup(Seq::empty(), bound_roots(bound), key);
    lemma_first_wins_lookup(b, linked_roots_spec(data), key);
    if root_named(key) is Some {
        lemma_linked_no_canonical(data, key);
    }
}

// ---------------------------------------------------------------------------
// The canonical page context

/// The value of route parameter `p`: the locale for `[locale]`, else the
/// current value's field (or the nested item's), else `null`.
pub open spec fn param_value(p: Seq<char>, cur: JsonView, nested: Option<JsonView>, locale: Option<Seq<char>>) -> JsonView {
    if p == "locale"@ {
        match locale {
            Some(l) => JsonView::String(l),
            None => JsonView::Null,
        }
    } else {
        match read_field_spec(cur, p) {
            Some(v) => v,
            None => match nested {
                Some(n) => match read_field_spec(n, p) {
                    Some(v) => v,
                    None => JsonView::Null,
                },
                None => JsonView::Null,
            },
        }
    }
}

/// The `page.params` object: each route parameter under its name.
pub open spec fn params_members(
    params: Seq<Seq<char>>,
    cur: JsonView,
    nested: Option<JsonView>,
    locale: Option<Seq<char>>,
) -> Seq<(Seq<char>, JsonView)>
    decreases params.len(),
{
    if params.len() == 0 {
        Seq::empty()
    } else {
        member_set(
            params_members(params.drop_last(), cur, nested, locale),
            params.last(),
            param_value(params.last(), cur, nested, locale),
        )
    }
}

/// The `data` object: each page data source's value under its id.
pub open spec fn data_members(d: Seq<(Seq<char>, DataSource)>) -> Seq<(Seq<char>, JsonView)>
    decreases d.len(),
{
    if d.len() == 0 {
        Seq::empty()
    } else {
        member_set(data_members(d.drop_last()), d.last().0, source_value(d.last().1))
    }
}

/// The canonical context of a page render: `data` (page data by id),
/// `item` (the current record), `page` (route, params, and pagination when
/// the current value is a pagination chunk) and `i18n` (the locale).
pub open spec fn canonical_value_spec(
    route: Seq<char>,
    params: Seq<Seq<char>>,
    current: Option<JsonView>,
    data: Seq<(Seq<char>, DataSource)>,
    locale: Option<Seq<char>>,
) -> JsonView {
    let cur = match current {
        Some(c) => c,
        None => JsonView::Null,
    };
    let pag = read_field_spec(cur, "pagination"@);
    let nested = if pag is Some {
        read_field_spec(cur, "item"@)
    } else {
        None
    };
    let render_item = match nested {
        Some(n) => n,
        None => cur,
    };
    let is_pag = pag is Some || (read_field_spec(cur, "items"@) is Some && read_field_spec(cur, "total_pages"@) is Some);
    let page = seq![
        ("route"@, JsonView::String(route)),
        ("params"@, JsonView::Object(params_members(params, cur, nested, locale))),
    ] + if is_pag {
        seq![
            ("pagination"@, match pag {
                Some(p) => p,
                None => cur,
            }),
        ]
    } else {
        Seq::empty()
    };
    JsonView::Object(
        seq![
            ("data"@, JsonView::Object(data_members(data))),
            ("item"@, if is_pag && nested is None {
                JsonView::Null
            } else {
                render_item
            }),
            ("page"@, JsonView::Object(page)),
            ("i18n"@, JsonView::Object(seq![("locale"@, JsonView::String(match locale {
                Some(l) => l,
                None => Seq::empty(),
            }))])),
        ],
    )
}

pub open spec fn opt_json(o: Option<Value>) -> Option<JsonView> {
    match o {
        Some(v) => Some(v@),
        None => None,
    }
}

/// Canonical page context built by statica before page binding.
#[derive(Debug)]
pub struct CanonicalContext {
    value: Value,
}

fn set_member(m: &mut Vec<(String, Value)>, k: &str, v: Value)
    ensures
        members_view(final(m)@) == member_set(members_view(old(m)@), k@, v@),
{
    let ghost before = members_view(m@);
    let ghost vv = v@;
    match member_position(m, k) {
        Some(p) => {
            m.set(p, (String::from_str(k), v));
            proof {
                assert(members_view(m@) =~= before.update(p as int, (k@, vv)));
            }
        },
        None => {
            m.push((String::from_str(k), v));
            proof {
                assert(members_view(m@) =~= before.push((k@, vv)));
            }
        },
    }
}

fn opt_copy(v: Option<&Value>) -> (r: Option<Value>)
    ensures
        match v {
            Some(x) => r matches Some(y) && y@ == x@,
            None => r is None,
        },
{
    match v {
        Some(x) => Some(x.copy()),
        None => None,
    }
}

impl CanonicalContext {
    pub closed spec fn view_value(&self) -> JsonView {
        self.value@
    }

    /// The canonical context of `source` rendered with `current` (the
    /// collection item or pagination chunk), its data sources `page_data`
    /// and `locale` (see [`canonical_value_spec`]).
    pub fn new(source: &PageSource, current: Option<&Value>, page_data: &ContextData<DataSource>, locale: Option<&str>) -> (r: Self)
        ensures
            r.view_value() == canonical_value_spec(
                source.route@,
                param_views(source.params@),
                match current {
                    Some(c) => Some(c@),
                    None => None,
                },
                page_data@,
                match locale {
                    Some(l) => Some(l@),
                    None => None,
                },
            ),
    {
        proof {
            reveal_strlit("pagination");
            reveal_strlit("item");
            reveal_strlit("items");
            reveal_strlit("total_pages");
            reveal_strlit("locale");
        }
        let ghost lv = match locale {
            Some(l) => Some(l@),
            None => None::<Seq<char>>,
        };
        // data
        let entries = page_data.as_map();
        let ghost d = page_data@;
        let mut data: Vec<(String, Value)> = Vec::new();
        let mut i: usize = 0;
        proof {
            assert(d.take(0) =~= Seq::<(Seq<char>, DataSource)>::empty());
            assert(members_view(data@) =~= Seq::<(Seq<char>, JsonView)>::empty());
        }
        while i < entries.len()
            invariant
                i <= entries@.len(),
                d == page_data@,
                data_view(entries@) == d,
                d.len() == entries@.len(),
                lv == match locale {
                    Some(l) => Some(l@),
                    None => None::<Seq<char>>,
                },
                members_view(data@) == data_members(d.take(i as int)),
            decreases entries@.len() - i,
        {
            proof {
                assert(d.take(i + 1).drop_last() =~= d.take(i as int));
                assert(d.take(i + 1).last() == (entries@[i as int].0@, entries@[i as int].1));
            }
            set_member(&mut data, entries[i].0.as_str(), entries[i].1.value());
            i += 1;
        }
        proof {
            assert(d.take(i as int) =~= d);
        }
        let cur: Value = match current {
            Some(c) => c.copy(),
            None => Value::Null,
        };
        let pag = opt_copy(read_field(&cur, "pagination"));
        let nested: Option<Value> = if pag.is_some() {
            opt_copy(read_field(&cur, "item"))
        } else {
            None
        };
        let is_pag = pag.is_some() || (read_field(&cur, "items").is_some() && read_field(&cur, "total_pages").is_some());
        let ghost curv = match current {
            Some(c) => c@,
            None => JsonView::Null,
        };
        proof {
            assert(cur@ == curv);
            assert(opt_json(pag) == read_field_spec(curv, "pagination"@));
            assert(opt_json(nested) == if read_field_spec(curv, "pagination"@) is Some {
                read_field_spec(curv, "item"@)
            } else {
                None
            });
            assert(is_pag == (read_field_spec(curv, "pagination"@) is Some || (read_field_spec(curv, "items"@) is Some
                && read_field_spec(curv, "total_pages"@) is Some)));
        }
        let ghost nv = opt_json(nested);
        // params
        let ghost ps = param_views(source.params@);
        let mut params: Vec<(String, Value)> = Vec::new();
        let mut k: usize = 0;
        proof {
            assert(ps.take(0) =~= Seq::<Seq<char>>::empty());
            assert(members_view(params@) =~= Seq::<(Seq<char>, JsonView)>::empty());
        }
        while k < source.params.len()
            invariant
                k <= source.params@.len(),
                ps == param_views(source.params@),
                ps.len() == source.params@.len(),
                lv == match locale {
                    Some(l) => Some(l@),
                    None => None::<Seq<char>>,
                },
                nv == opt_json(nested),
                members_view(params@) == params_members(ps.take(k as int), cur@, nv, lv),
            decreases source.params@.len() - k,
        {
            let p = source.params[k].as_str();
            proof {
                assert(ps.take(k + 1).drop_last() =~= ps.take(k as int));
                assert(ps.take(k + 1).last() == p@);
            }
            let value: Value = if str_eq(p, "locale") {
                match locale {
                    Some(l) => Value::String(String::from_str(l)),
                    None => Value::Null,
                }
            } else {
                match read_field(&cur, p) {
                    Some(v) => v.copy(),
                    None => match &nested {
                        Some(n) => match read_field(n, p) {
                            Some(v) => v.copy(),
                            None => Value::Null,
                        },
                        None => Value::Null,
                    },
                }
            };
            proof {
                assert(value@ == param_value(p@, cur@, nv, lv));
            }
            set_member(&mut params, p, value);
            k += 1;
        }
        proof {
            assert(ps.take(k as int) =~= ps);
        }
        // page
        let mut page: Vec<(String, Value)> = Vec::new();
        page.push((String::from_str("route"), Value::String(String::from_str(source.route.as_str()))));
        page.push((String::from_str("params"), Value::Object(params)));
        let ghost pagev = opt_json(pag);
        let ghost pp = members_view(page@);
        let item: Value = if is_pag && nested.is_none() {
            Value::Null
        } else {
            match nested {
                Some(n) => n,
                None => cur.copy(),
            }
        };
        if is_pag {
            let pv = match pag {
                Some(p) => p,
                None => cur.copy(),
            };
            let ghost pvv = pv@;
            page.push((String::from_str("pagination"), pv));
            proof {
                assert(members_view(page@) =~= pp.push(("pagination"@, pvv)));
                assert(pvv == match pagev {
                    Some(p) => p,
                    None => curv,
                });
            }
        } else {
            proof {
                assert(members_view(page@) =~= pp + Seq::<(Seq<char>, JsonView)>::empty());
            }
        }
        let mut i18n: Vec<(String, Value)> = Vec::new();
        i18n.push((
            String::from_str("locale"),
            Value::String(match locale {
                Some(l) => String::from_str(l),
                None => String::new(),
            }),
        ));
        let ghost itemv = item@;
        let ghost pagem = members_view(page@);
        let ghost datam = members_view(data@);
        let ghost i18nm = members_view(i18n@);
        proof {
            assert(i18nm =~= seq![("locale"@, JsonView::String(match locale {
                Some(l) => l@,
                None => Seq::empty(),
            }))]);
            assert(itemv == if is_pag && nv is None {
                JsonView::Null
            } else {
                match nv {
                    Some(n) => n,
                    None => curv,
                }
            });
        }
        let mut value: Vec<(String, Value)> = Vec::new();
        value.push((String::from_str("data"), Value::Object(data)));
        value.push((String::from_str("item"), item));
        value.push((String::from_str("page"), Value::Object(page)));
        value.push((String::from_str("i18n"), Value::Object(i18n)));
        proof {
            assert(members_view(value@) =~= seq![
                ("data"@, JsonView::Object(datam)),
                ("item"@, itemv),
                ("page"@, JsonView::Object(pagem)),
                ("i18n"@, JsonView::Object(i18nm)),
            ]);
        }
        let ghost valm = members_view(value@);
        let r = CanonicalContext { value: Value::Object(value) };
        proof {
            let cur_o = match current {
                Some(c) => Some(c@),
                None => None,
            };
            let pag_s = read_field_spec(curv, "pagination"@);
            let is_pag_s = pag_s is Some || (read_field_spec(curv, "items"@) is Some && read_field_spec(curv, "total_pages"@) is Some);
            let page_s = seq![
                ("route"@, JsonView::String(source.route@)),
                ("params"@, JsonView::Object(params_members(ps, curv, nv, lv))),
            ] + if is_pag_s {
                seq![
                    ("pagination"@, match pag_s {
                        Some(p) => p,
                        None => curv,
                    }),
                ]
            } else {
                Seq::empty()
            };
            assert(pagem == page_s);
            assert(datam == data_members(page_data@));
            assert(r.value@ == JsonView::Object(valm));
            let ex = canonical_value_spec(source.route@, ps, cur_o, page_data@, lv);
            let em = ex->Object_0;
            assert(em.len() == 4);
            assert(valm.len() == 4);
            assert(valm[0] == em[0]);
            assert(valm[1] == em[1]);
            assert(valm[2] == em[2]);
            assert(valm[3] == em[3]);
            assert(valm =~= em);
            assert(r.view_value() == ex);
        }
        r
    }

    /// `page_data` with the canonical roots added as data sources of their
    /// own: each root's value under its name (`null` when missing), as JSON
    /// read from `statica:{name}`; every other id keeps its source.
    pub fn as_data_sources(&self, page_data: ContextData<DataSource>) -> (r: ContextData<DataSource>)
        ensures
            forall|name: Seq<char>|
                root_named(name) is Some ==> (data_get(r@, name) matches Some(s) && s.id@ == name && s.kind
                    == DataKind::Json && s.path@ == "statica:"@ + name && source_value(s) == root_value(
                    self.view_value(),
                    name,
                )),
            forall|name: Seq<char>| root_named(name) is None ==> data_get(r@, name) == data_get(page_data@, name),
    {
        let mut links: Vec<(String, DataSource)> = Vec::new();
        let names: [&str; 4] = ["data", "item", "page", "i18n"];
        let mut k: usize = 0;
        proof {
            reveal_strlit("data");
            reveal_strlit("item");
            reveal_strlit("page");
            reveal_strlit("i18n");
        }
        while k < 4
            invariant
                k <= 4,
                names@ == seq!["data", "item", "page", "i18n"],
                links@.len() == k,
                forall|j: int|
                    0 <= j < k ==> {
                        let e = #[trigger] links@[j];
                        &&& e.0@ == names@[j]@
                        &&& e.1.id@ == names@[j]@
                        &&& e.1.kind == DataKind::Json
                        &&& e.1.path@ == "statica:"@ + names@[j]@
                        &&& source_value(e.1) == root_value(self.view_value(), names@[j]@)
                    },
            decreases 4 - k,
        {
            let id = names[k];
            let value = match read_field(&self.value, id) {
                Some(v) => v.copy(),
                None => Value::Null,
            };
            let mut path = String::from_str("statica:");
            path.append(id);
            let src = DataSource { id: String::from_str(id), kind: DataKind::Json, path, data: Arc::new(DataSet::Json(value)) };
            links.push((String::from_str(id), src));
            k += 1;
        }
        let ghost lv = data_view(links@);
        let r = page_data.with_links(links);
        proof {
            assert(lv.len() == 4);
            assert(lv[0].0 == "data"@ && lv[1].0 == "item"@ && lv[2].0 == "page"@ && lv[3].0 == "i18n"@);
            assert("data"@[0] != "item"@[0] && "data"@[0] != "page"@[0] && "data"@[0] != "i18n"@[0]);
            assert("item"@[0] != "page"@[0] && "page"@[0] != "i18n"@[0] && "item"@[1] != "i18n"@[1]);
            assert forall|a: int, b: int| 0 <= a < b < lv.len() implies lv[a].0 != lv[b].0 by {}
            assert forall|name: Seq<char>| root_named(name) is Some implies (data_get(r@, name) matches Some(s) && s.id@
                == name && s.kind == DataKind::Json && s.path@ == "statica:"@ + name && source_value(s) == root_value(
                self.view_value(),
                name,
            )) by {
                let j: int = if name == "data"@ {
                    0
                } else if name == "item"@ {
                    1
                } else if name == "page"@ {
                    2
                } else {
                    3
                };
                assert(lv[j].0 == name);
                lemma_merge_get_link(page_data@, lv, j);
            }
            assert forall|name: Seq<char>| root_named(name) is None implies data_get(r@, name) == data_get(
                page_data@,
                name,
            ) by {
                assert forall|j: int| 0 <= j < lv.len() implies lv[j].0 != name by {
                    assert(root_named(lv[j].0) is Some);
                }
                lemma_merge_get_other(page_data@, lv, name);
            }
        }
        r
    }

    /// The context value.
    pub fn value(&self) -> (r: &Value)
        ensures
            r@ == self.view_value(),
    {
        &self.value
    }
}

/// The source stored under `key`.
pub open spec fn data_get<V>(t: Seq<(Seq<char>, V)>, key: Seq<char>) -> Option<V> {
    match data_index(t, key) {
        Some(i) => Some(t[i].1),
        None => None,
    }
}

/// The value of a root of the canonical context (`null` when missing).
pub open spec fn root_value(v: JsonView, name: Seq<char>) -> JsonView {
    match read_field_spec(v, name) {
        Some(x) => x,
        None => JsonView::Null,
    }
}

proof fn lemma_insert_get<V>(t: Seq<(Seq<char>, V)>, key: Seq<char>, v: V, other: Seq<char>)
    ensures
        data_get(data_insert(t, key, v), other) == if other == key {
            Some(v)
        } else {
            data_get(t, other)
        },
{
    lemma_data_index(t, key);
    lemma_data_index(t, other);
    let t2 = data_insert(t, key, v);
    lemma_data_index(t2, other);
    match data_index(t, key) {
        Some(i) => {
            assert(t2 == t.update(i, (key, v)));
            assert forall|j: int| 0 <= j < t.len() implies (t2[j].0 == other) == (t[j].0 == other) by {
                if j == i {
                    assert(t[j].0 == key);
                }
            }
            if other == key {
                match data_index(t2, other) {
                    Some(k) => {
                        if k < i {
                            assert(t2[k] == t[k]);
                        } else if k > i {
                            assert(t2[i].0 == other);
                        }
                    },
                    None => {
                        assert(t2[i].0 == other);
                    },
                }
            } else {
                match (data_index(t2, other), data_index(t, other)) {
                    (Some(k), Some(m)) => {
                        if k < m {
                            assert(t[k].0 != other);
                        } else if m < k {
                            assert(t2[m].0 != other);
                        }
                        assert(t2[k] == t[k]);
                    },
                    (Some(k), None) => {
                        assert(t[k].0 != other);
                    },
                    (None, Some(m)) => {
                        assert(t2[m].0 != other);
                    },
                    (None, None) => {},
                }
            }
        },
        None => {
            assert(t2 == t.push((key, v)));
            if other == key {
                match data_index(t2, other) {
                    Some(k) => {
                        if k < t.len() {
                            assert(t2[k] == t[k]);
                        }
                    },
                    None => {
                        assert(t2[t.len() as int].0 == other);
                    },
                }
            } else {
                match (data_index(t2, other), data_index(t, other)) {
                    (Some(k), Some(m)) => {
                        if k < m {
                            assert(t2[k] == t[k]);
                        } else if m < k {
                            assert(t2[m] == t[m]);
                        }
                    },
                    (Some(k), None) => {
                        if k < t.len() {
                            assert(t2[k] == t[k]);
                        }
                    },
                    (None, Some(m)) => {
                        assert(t2[m] == t[m]);
                    },
                    (None, None) => {},
                }
            }
        },
    }
}

proof fn lemma_merge_get_other<V>(t: Seq<(Seq<char>, V)>, links: Seq<(Seq<char>, V)>, name: Seq<char>)
    requires
        forall|j: int| 0 <= j < links.len() ==> links[j].0 != name,
    ensures
        data_get(data_merge(t, links), name) == data_get(t, name),
    decreases links.len(),
{
    if links.len() > 0 {
        lemma_merge_get_other(t, links.drop_last(), name);
        lemma_insert_get(data_merge(t, links.drop_last()), links.last().0, links.last().1, name);
    }
}

proof fn lemma_merge_get_link<V>(t: Seq<(Seq<char>, V)>, links: Seq<(Seq<char>, V)>, j: int)
    requires
        0 <= j < links.len(),
        forall|a: int, b: int| 0 <= a < b < links.len() ==> links[a].0 != links[b].0,
    ensures
        data_get(data_merge(t, links), links[j].0) == Some(links[j].1),
    decreases links.len(),
{
    let last = links.len() - 1;
    lemma_insert_get(data_merge(t, links.drop_last()), links[last].0, links[last].1, links[j].0);
    if j < last {
        assert(links.drop_last()[j] == links[j]);
        lemma_merge_get_link(t, links.drop_last(), j);
    }
}

} // verus!

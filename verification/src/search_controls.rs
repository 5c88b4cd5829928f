//! Search controls: each `<input type="statica/search">` of a page becomes a
//! trigger button and a search dialog, and the page loads the search
//! runtime once.

use vstd::prelude::*;

use crate::parse::ast::{nodes_view, tag_is, Document, DocumentView, Element, ElementView, Node, NodeView};
use crate::parse::attrs::{attr_entries, attr_lookup, attrs_insert, attrs_new, insert_attr_spec, AttrMap};
use crate::search::{index_href, index_href_spec, SearchOptions};
use crate::text::{chars_of, find_at, find_from, lemma_find_from_bounds, decimal, join, join_strings, lower_string, str_eq, usize_to_string, views};
use crate::tokens::{
    DATA_STATICA_SEARCH, DATA_STATICA_SEARCH_CLOSE, DATA_STATICA_SEARCH_META, DATA_STATICA_SEARCH_RESULTS,
    SEARCH_CSS_PATH, SEARCH_JS_PATH, TYPE_SEARCH,
};

verus! {

// ---------------------------------------------------------------------------
// Building elements

/// Attributes inserted in order (a repeated name keeps its place and takes
/// the later value), as `IndexMap`'s `collect` does.
pub open spec fn attrs_fold(pairs: Seq<(Seq<char>, Seq<char>)>) -> Seq<(Seq<char>, Seq<char>)>
    decreases pairs.len(),
{
    if pairs.len() == 0 {
        Seq::empty()
    } else {
        insert_attr_spec(attrs_fold(pairs.drop_last()), pairs.last().0, pairs.last().1)
    }
}

pub open spec fn str_pairs(p: Seq<(&str, &str)>) -> Seq<(Seq<char>, Seq<char>)> {
    p.map_values(|x: (&str, &str)| (x.0@, x.1@))
}

/// An element by value.
pub open spec fn mk_spec(name: Seq<char>, pairs: Seq<(Seq<char>, Seq<char>)>, children: Seq<NodeView>, void: bool) -> ElementView {
    ElementView { name, attrs: attrs_fold(pairs), children, void }
}

fn attr_map(pairs: &Vec<(&str, &str)>) -> (r: AttrMap)
    ensures
        attr_entries(r) == attrs_fold(str_pairs(pairs@)),
{
    let ghost ps = str_pairs(pairs@);
    let mut m = attrs_new();
    let mut i: usize = 0;
    proof {
        assert(ps.take(0) =~= Seq::<(Seq<char>, Seq<char>)>::empty());
    }
    while i < pairs.len()
        invariant
            i <= pairs@.len(),
            ps == str_pairs(pairs@),
            ps.len() == pairs@.len(),
            attr_entries(m) == attrs_fold(ps.take(i as int)),
        decreases pairs@.len() - i,
    {
        proof {
            assert(ps.take(i + 1).drop_last() =~= ps.take(i as int));
            assert(ps.take(i + 1).last() == (pairs@[i as int].0@, pairs@[i as int].1@));
        }
        let (k, v) = pairs[i];
        attrs_insert(&mut m, String::from_str(k), String::from_str(v));
        i += 1;
    }
    proof {
        assert(ps.take(i as int) =~= ps);
    }
    m
}

fn mk(name: &str, pairs: Vec<(&str, &str)>, children: Vec<Node>, void: bool) -> (r: Element)
    ensures
        r@ == mk_spec(name@, str_pairs(pairs@), nodes_view(children@), void),
{
    Element { name: String::from_str(name), attrs: attr_map(&pairs), children, void }
}

fn text_node(t: &str) -> (r: Node)
    ensures
        r@ == NodeView::Text(t@),
{
    Node::Text(String::from_str(t))
}

fn one(a: Node) -> (r: Vec<Node>)
    ensures
        nodes_view(r@) == seq![a@],
{
    let ghost av = a@;
    let mut v: Vec<Node> = Vec::new();
    v.push(a);
    proof {
        assert(nodes_view(v@) =~= seq![av]);
    }
    v
}

fn none() -> (r: Vec<Node>)
    ensures
        nodes_view(r@) == Seq::<NodeView>::empty(),
{
    let v: Vec<Node> = Vec::new();
    proof {
        assert(nodes_view(v@) =~= Seq::<NodeView>::empty());
    }
    v
}

// ---------------------------------------------------------------------------
// The control

/// The magnifier icon.
pub open spec fn icon_spec() -> NodeView {
    NodeView::Element(
        mk_spec(
            "svg"@,
            seq![("viewBox"@, "0 0 24 24"@), ("width"@, "18"@), ("height"@, "18"@), ("aria-hidden"@, "true"@), ("focusable"@, "false"@)],
            seq![
                NodeView::Element(mk_spec("circle"@, seq![("cx"@, "11"@), ("cy"@, "11"@), ("r"@, "7"@)], Seq::empty(), false)),
                NodeView::Element(mk_spec("path"@, seq![("d"@, "m16.5 16.5 4 4"@)], Seq::empty(), false)),
            ],
            false,
        ),
    )
}

pub open spec fn kbd_spec(k: Seq<char>) -> NodeView {
    NodeView::Element(mk_spec("kbd"@, Seq::empty(), seq![NodeView::Text(k)], false))
}

/// A keyboard hint: one or two keys, then what they do.
pub open spec fn hint_spec(first: Seq<char>, second: Seq<char>, text: Seq<char>) -> NodeView {
    NodeView::Element(
        mk_spec(
            "span"@,
            seq![("class"@, "statica-search-hint"@)],
            seq![kbd_spec(first)] + (if second.len() > 0 {
                seq![kbd_spec(second)]
            } else {
                Seq::empty()
            }) + seq![NodeView::Element(mk_spec("span"@, Seq::empty(), seq![NodeView::Text(text)], false))],
            false,
        ),
    )
}

/// The `id` of the control for the `seq`-th input: the input's own, or
/// `statica-search-{seq}`.
pub open spec fn control_id(input: ElementView, seq: nat) -> Seq<char> {
    match attr_lookup(input.attrs, "id"@) {
        Some(v) => v,
        None => "statica-search-"@ + decimal(seq),
    }
}

pub open spec fn or_default(v: Option<Seq<char>>, d: Seq<char>) -> Seq<char> {
    match v {
        Some(x) => x,
        None => d,
    }
}

/// The control that replaces a search input: a stylesheet link, a trigger
/// button, and a dialog holding the input, its meta line, its results and
/// keyboard hints, wired to the index at `output` with the given result
/// limit (at least 1), filters and URL field.
pub open spec fn control_spec(
    input: ElementView,
    seq: nat,
    output: Seq<char>,
    limit: nat,
    filters: Seq<Seq<char>>,
    url_field: Seq<char>,
) -> ElementView {
    let id = control_id(input, seq);
    let placeholder = or_default(attr_lookup(input.attrs, "placeholder"@), "Search"@);
    let label = or_default(attr_lookup(input.attrs, "aria-label"@), "Search site"@);
    let lim = decimal(if limit > 0 { limit } else { 1 });
    mk_spec(
        "div"@,
        seq![("class"@, "statica-search"@)],
        seq![
            NodeView::Element(mk_spec("link"@, seq![("rel"@, "stylesheet"@), ("href"@, SEARCH_CSS_PATH@)], Seq::empty(), true)),
            NodeView::Element(
                mk_spec(
                    "button"@,
                    seq![
                        ("class"@, "statica-search-trigger"@),
                        ("type"@, "button"@),
                        ("aria-controls"@, id),
                        ("aria-label"@, label),
                        ("title"@, label),
                    ],
                    seq![icon_spec()],
                    false,
                ),
            ),
            NodeView::Element(
                mk_spec(
                    "dialog"@,
                    seq![
                        ("id"@, id),
                        ("class"@, "statica-search-modal"@),
                        (DATA_STATICA_SEARCH@, Seq::empty()),
                        ("data-index"@, index_href_spec(output)),
                        ("data-limit"@, lim),
                        ("data-filters"@, join(filters, ","@)),
                        ("data-url-field"@, url_field),
                    ],
                    seq![
                        NodeView::Element(
                            mk_spec(
                                "div"@,
                                seq![("class"@, "statica-search-head"@)],
                                seq![
                                    NodeView::Element(
                                        mk_spec(
                                            "span"@,
                                            seq![("class"@, "statica-search-input-icon"@), ("aria-hidden"@, "true"@)],
                                            seq![icon_spec()],
                                            false,
                                        ),
                                    ),
                                    NodeView::Element(
                                        mk_spec(
                                            "div"@,
                                            seq![("class"@, "statica-search-bar"@)],
                                            seq![
                                                NodeView::Element(
                                                    mk_spec(
                                                        "input"@,
                                                        seq![
                                                            ("type"@, "search"@),
                                                            ("placeholder"@, placeholder),
                                                            ("aria-label"@, label),
                                                            ("autocomplete"@, "off"@),
                                                        ],
                                                        Seq::empty(),
                                                        true,
                                                    ),
                                                ),
                                            ],
                                            false,
                                        ),
                                    ),
                                    NodeView::Element(
                                        mk_spec(
                                            "button"@,
                                            seq![
                                                ("class"@, "statica-search-close"@),
                                                ("type"@, "button"@),
                                                ("aria-label"@, "Close search"@),
                                                (DATA_STATICA_SEARCH_CLOSE@, Seq::empty()),
                                            ],
                                            seq![NodeView::Text("Close"@)],
                                            false,
                                        ),
                                    ),
                                ],
                                false,
                            ),
                        ),
                        NodeView::Element(
                            mk_spec(
                                "div"@,
                                seq![("class"@, "statica-search-meta"@), (DATA_STATICA_SEARCH_META@, Seq::empty())],
                                Seq::empty(),
                                false,
                            ),
                        ),
                        NodeView::Element(
                            mk_spec(
                                "div"@,
                                seq![("class"@, "statica-search-results"@), (DATA_STATICA_SEARCH_RESULTS@, Seq::empty())],
                                Seq::empty(),
                                false,
                            ),
                        ),
                        NodeView::Element(
                            mk_spec(
                                "div"@,
                                seq![("class"@, "statica-search-footer"@)],
                                seq![
                                    hint_spec("↑"@, "↓"@, "to navigate"@),
                                    hint_spec("↵"@, Seq::empty(), "to select"@),
                                    hint_spec("Esc"@, Seq::empty(), "to exit"@),
                                ],
                                false,
                            ),
                        ),
                    ],
                    false,
                ),
            ),
        ],
        false,
    )
}

fn icon() -> (r: Node)
    ensures
        r@ == icon_spec(),
{
    let p1: Vec<(&str, &str)> = vec![("cx", "11"), ("cy", "11"), ("r", "7")];
    proof {
        assert(str_pairs(p1@) =~= seq![("cx"@, "11"@), ("cy"@, "11"@), ("r"@, "7"@)]);
    }
    let circle = mk("circle", p1, none(), false);
    let p2: Vec<(&str, &str)> = vec![("d", "m16.5 16.5 4 4")];
    proof {
        assert(str_pairs(p2@) =~= seq![("d"@, "m16.5 16.5 4 4"@)]);
    }
    let path = mk("path", p2, none(), false);
    let ghost cv = circle@;
    let ghost pv = path@;
    let mut kids: Vec<Node> = Vec::new();
    kids.push(Node::Element(circle));
    kids.push(Node::Element(path));
    proof {
        assert(nodes_view(kids@) =~= seq![NodeView::Element(cv), NodeView::Element(pv)]);
    }
    let pairs: Vec<(&str, &str)> = vec![("viewBox", "0 0 24 24"), ("width", "18"), ("height", "18"), ("aria-hidden", "true"), ("focusable", "false")];
    proof {
        assert(str_pairs(pairs@) =~= seq![("viewBox"@, "0 0 24 24"@), ("width"@, "18"@), ("height"@, "18"@), ("aria-hidden"@, "true"@), ("focusable"@, "false"@)]);
    }
    let r = Node::Element(mk("svg", pairs, kids, false));
    proof {
        assert(r@ =~= icon_spec());
    }
    r
}

fn kbd(k: &str) -> (r: Node)
    ensures
        r@ == kbd_spec(k@),
{
    let p3: Vec<(&str, &str)> = vec![];
    proof {
        assert(str_pairs(p3@) =~= Seq::<(Seq<char>, Seq<char>)>::empty());
    }
    let r = Node::Element(mk("kbd", p3, one(text_node(k)), false));
    proof {
        assert(r@ =~= kbd_spec(k@));
    }
    r
}

fn hint(first: &str, second: &str, text: &str) -> (r: Node)
    ensures
        r@ == hint_spec(first@, second@, text@),
{
    let mut kids: Vec<Node> = Vec::new();
    let k1 = kbd(first);
    let ghost k1v = k1@;
    kids.push(k1);
    let ghost mid = nodes_view(kids@);
    proof {
        assert(mid =~= seq![k1v]);
    }
    if second.unicode_len() > 0 {
        let k2 = kbd(second);
        let ghost k2v = k2@;
        kids.push(k2);
        proof {
            assert(nodes_view(kids@) =~= mid + seq![k2v]);
        }
    } else {
        proof {
            assert(nodes_view(kids@) =~= mid + Seq::<NodeView>::empty());
        }
    }
    let ghost before = nodes_view(kids@);
    let p4: Vec<(&str, &str)> = vec![];
    proof {
        assert(str_pairs(p4@) =~= Seq::<(Seq<char>, Seq<char>)>::empty());
    }
    let span = Node::Element(mk("span", p4, one(text_node(text)), false));
    let ghost sv = span@;
    kids.push(span);
    proof {
        assert(nodes_view(kids@) =~= before + seq![sv]);
    }
    let p5: Vec<(&str, &str)> = vec![("class", "statica-search-hint")];
    proof {
        assert(str_pairs(p5@) =~= seq![("class"@, "statica-search-hint"@)]);
    }
    let r = Node::Element(mk("span", p5, kids, false));
    proof {
        assert(r@ =~= hint_spec(first@, second@, text@));
    }
    r
}

fn attr_or<'a>(input: &'a Element, name: &str, default: &'a str) -> (r: &'a str)
    ensures
        r@ == or_default(attr_lookup(input@.attrs, name@), default@),
{
    match input.attr(name) {
        Some(v) => v,
        None => default,
    }
}

/// The control that replaces the `seq`-th search input (see
/// [`control_spec`]).
pub fn search_control(input: &Element, seq: usize, options: &SearchOptions) -> (r: Element)
    ensures
        r@ == control_spec(input@, seq as nat, options.output@, options.limit as nat, views(options.filters@), options.url_field@),
{
    proof {
        reveal_strlit("id");
        reveal_strlit("placeholder");
        reveal_strlit("aria-label");
        reveal_strlit("statica-search-");
        reveal_strlit("");
    }
    let id: String = match input.attr("id") {
        Some(v) => String::from_str(v),
        None => {
            let mut s = String::from_str("statica-search-");
            s.append(usize_to_string(seq).as_str());
            s
        },
    };
    let placeholder = attr_or(input, "placeholder", "Search");
    let label = attr_or(input, "aria-label", "Search site");
    let index = index_href(options.output.as_str());
    let limit = usize_to_string(if options.limit > 0 { options.limit } else { 1 });
    let filters = join_strings(&options.filters, ",");

    let p6: Vec<(&str, &str)> = vec![("rel", "stylesheet"), ("href", SEARCH_CSS_PATH)];
    proof {
        assert(str_pairs(p6@) =~= seq![("rel"@, "stylesheet"@), ("href"@, SEARCH_CSS_PATH@)]);
    }
    let link = mk("link", p6, none(), true);
    let p7: Vec<(&str, &str)> = vec![
            ("class", "statica-search-trigger"),
            ("type", "button"),
            ("aria-controls", id.as_str()),
            ("aria-label", label),
            ("title", label),
        ];
    proof {
        assert(str_pairs(p7@) =~= seq![("class"@, "statica-search-trigger"@), ("type"@, "button"@), ("aria-controls"@, id@), ("aria-label"@, label@), ("title"@, label@)]);
    }
    let trigger = mk("button", p7,
        one(icon()),
        false,
    );
    let p8: Vec<(&str, &str)> = vec![("class", "statica-search-input-icon"), ("aria-hidden", "true")];
    proof {
        assert(str_pairs(p8@) =~= seq![("class"@, "statica-search-input-icon"@), ("aria-hidden"@, "true"@)]);
    }
    let input_icon = mk("span", p8, one(icon()), false);
    let p9: Vec<(&str, &str)> = vec![("type", "search"), ("placeholder", placeholder), ("aria-label", label), ("autocomplete", "off")];
    proof {
        assert(str_pairs(p9@) =~= seq![("type"@, "search"@), ("placeholder"@, placeholder@), ("aria-label"@, label@), ("autocomplete"@, "off"@)]);
    }
    let field = mk("input", p9,
        none(),
        true,
    );
    let p10: Vec<(&str, &str)> = vec![("class", "statica-search-bar")];
    proof {
        assert(str_pairs(p10@) =~= seq![("class"@, "statica-search-bar"@)]);
    }
    let bar = mk("div", p10, one(Node::Element(field)), false);
    let p11: Vec<(&str, &str)> = vec![("class", "statica-search-close"), ("type", "button"), ("aria-label", "Close search"), (DATA_STATICA_SEARCH_CLOSE, "")];
    proof {
        assert(str_pairs(p11@) =~= seq![("class"@, "statica-search-close"@), ("type"@, "button"@), ("aria-label"@, "Close search"@), (DATA_STATICA_SEARCH_CLOSE@, ""@)]);
    }
    let close = mk("button", p11,
        one(text_node("Close")),
        false,
    );
    let ghost iiv = input_icon@;
    let ghost bv = bar@;
    let ghost cv = close@;
    let mut head_kids: Vec<Node> = Vec::new();
    head_kids.push(Node::Element(input_icon));
    head_kids.push(Node::Element(bar));
    head_kids.push(Node::Element(close));
    proof {
        assert(nodes_view(head_kids@) =~= seq![NodeView::Element(iiv), NodeView::Element(bv), NodeView::Element(cv)]);
    }
    let p12: Vec<(&str, &str)> = vec![("class", "statica-search-head")];
    proof {
        assert(str_pairs(p12@) =~= seq![("class"@, "statica-search-head"@)]);
    }
    let head = mk("div", p12, head_kids, false);
    let p13: Vec<(&str, &str)> = vec![("class", "statica-search-meta"), (DATA_STATICA_SEARCH_META, "")];
    proof {
        assert(str_pairs(p13@) =~= seq![("class"@, "statica-search-meta"@), (DATA_STATICA_SEARCH_META@, ""@)]);
    }
    let meta = mk("div", p13, none(), false);
    let p14: Vec<(&str, &str)> = vec![("class", "statica-search-results"), (DATA_STATICA_SEARCH_RESULTS, "")];
    proof {
        assert(str_pairs(p14@) =~= seq![("class"@, "statica-search-results"@), (DATA_STATICA_SEARCH_RESULTS@, ""@)]);
    }
    let results = mk("div", p14, none(), false);
    let h1 = hint("↑", "↓", "to navigate");
    let h2 = hint("↵", "", "to select");
    let h3 = hint("Esc", "", "to exit");
    let ghost h1v = h1@;
    let ghost h2v = h2@;
    let ghost h3v = h3@;
    let mut foot_kids: Vec<Node> = Vec::new();
    foot_kids.push(h1);
    foot_kids.push(h2);
    foot_kids.push(h3);
    proof {
        assert(nodes_view(foot_kids@) =~= seq![h1v, h2v, h3v]);
    }
    let p15: Vec<(&str, &str)> = vec![("class", "statica-search-footer")];
    proof {
        assert(str_pairs(p15@) =~= seq![("class"@, "statica-search-footer"@)]);
    }
    let footer = mk("div", p15, foot_kids, false);
    let ghost hv = head@;
    let ghost mv = meta@;
    let ghost rv = results@;
    let ghost fv = footer@;
    let mut dialog_kids: Vec<Node> = Vec::new();
    dialog_kids.push(Node::Element(head));
    dialog_kids.push(Node::Element(meta));
    dialog_kids.push(Node::Element(results));
    dialog_kids.push(Node::Element(footer));
    proof {
        assert(nodes_view(dialog_kids@) =~= seq![
            NodeView::Element(hv),
            NodeView::Element(mv),
            NodeView::Element(rv),
            NodeView::Element(fv),
        ]);
    }
    let p16: Vec<(&str, &str)> = vec![
            ("id", id.as_str()),
            ("class", "statica-search-modal"),
            (DATA_STATICA_SEARCH, ""),
            ("data-index", index.as_str()),
            ("data-limit", limit.as_str()),
            ("data-filters", filters.as_str()),
            ("data-url-field", options.url_field.as_str()),
        ];
    proof {
        assert(str_pairs(p16@) =~= seq![("id"@, id@), ("class"@, "statica-search-modal"@), (DATA_STATICA_SEARCH@, ""@), ("data-index"@, index@), ("data-limit"@, limit@), ("data-filters"@, filters@), ("data-url-field"@, options.url_field@)]);
    }
    let dialog = mk("dialog", p16,
        dialog_kids,
        false,
    );
    let ghost lv = link@;
    let ghost tv = trigger@;
    let ghost dv = dialog@;
    let mut kids: Vec<Node> = Vec::new();
    kids.push(Node::Element(link));
    kids.push(Node::Element(trigger));
    kids.push(Node::Element(dialog));
    proof {
        assert(nodes_view(kids@) =~= seq![NodeView::Element(lv), NodeView::Element(tv), NodeView::Element(dv)]);
    }
    let p17: Vec<(&str, &str)> = vec![("class", "statica-search")];
    proof {
        assert(str_pairs(p17@) =~= seq![("class"@, "statica-search"@)]);
    }
    let r = mk("div", p17, kids, false);
    proof {
        assert(id@ == control_id(input@, seq as nat));
        assert(placeholder@ == or_default(attr_lookup(input@.attrs, "placeholder"@), "Search"@));
        assert(label@ == or_default(attr_lookup(input@.attrs, "aria-label"@), "Search site"@));
        assert(limit@ == decimal(if options.limit > 0 { options.limit as nat } else { 1 }));
        assert(""@ =~= Seq::<char>::empty());
        assert(lv == mk_spec("link"@, seq![("rel"@, "stylesheet"@), ("href"@, SEARCH_CSS_PATH@)], Seq::empty(), true));
        assert(r@ =~= control_spec(input@, seq as nat, options.output@, options.limit as nat, views(options.filters@), options.url_field@));
    }
    r
}

// ---------------------------------------------------------------------------
// Rewriting a page

/// An `<input type="statica/search">`.
pub open spec fn is_search_input(e: ElementView) -> bool {
    tag_is(e.name, "input"@) && attr_lookup(e.attrs, "type"@) == Some(TYPE_SEARCH@)
}

/// The control for the `seq`-th input under `o`.
pub open spec fn control_of(e: ElementView, seq: nat, o: SearchOptions) -> ElementView {
    control_spec(e, seq, o.output@, o.limit as nat, views(o.filters@), o.url_field@)
}

/// The nodes with every search input replaced by its control, numbered in
/// document order after `next`; and the last number used.
pub open spec fn rewrite_nodes_spec(s: Seq<NodeView>, next: nat, o: SearchOptions) -> (Seq<NodeView>, nat)
    decreases s,
{
    if s.len() == 0 {
        (Seq::empty(), next)
    } else {
        proof {
            assert(decreases_to!(s => s[s.len() - 1]));
        }
        let p = rewrite_nodes_spec(s.drop_last(), next, o);
        let h = rewrite_node_spec(s[s.len() - 1], p.1, o);
        (p.0.push(h.0), h.1)
    }
}

pub open spec fn rewrite_node_spec(n: NodeView, next: nat, o: SearchOptions) -> (NodeView, nat)
    decreases n,
{
    match n {
        NodeView::Element(e) => if is_search_input(e) {
            (NodeView::Element(control_of(e, next + 1, o)), next + 1)
        } else {
            let k = rewrite_nodes_spec(e.children, next, o);
            (NodeView::Element(ElementView { children: k.0, ..e }), k.1)
        },
        _ => (n, next),
    }
}

/// The runtime script: `<script type="module" src="/statica/search.js">`.
pub open spec fn runtime_script_spec() -> NodeView {
    NodeView::Element(mk_spec("script"@, seq![("type"@, "module"@), ("src"@, SEARCH_JS_PATH@)], Seq::empty(), false))
}

/// Some element at any depth is the runtime script.
pub open spec fn nodes_have_runtime(s: Seq<NodeView>) -> bool
    decreases s,
{
    if s.len() == 0 {
        false
    } else {
        proof {
            assert(decreases_to!(s => s[s.len() - 1]));
        }
        nodes_have_runtime(s.drop_last()) || node_has_runtime(s[s.len() - 1])
    }
}

pub open spec fn node_has_runtime(n: NodeView) -> bool
    decreases n,
{
    match n {
        NodeView::Element(e) => (tag_is(e.name, "script"@) && attr_lookup(e.attrs, "src"@) == Some(SEARCH_JS_PATH@))
            || nodes_have_runtime(e.children),
        _ => false,
    }
}

/// `x` appended to the first `<body>` in document order under `n`, if any.
pub open spec fn append_node(n: NodeView, x: NodeView) -> Option<NodeView>
    decreases n, 0int,
{
    match n {
        NodeView::Element(e) => if tag_is(e.name, "body"@) {
            Some(NodeView::Element(ElementView { children: e.children.push(x), ..e }))
        } else {
            match append_nodes(e.children, 0, x) {
                Some(c) => Some(NodeView::Element(ElementView { children: c, ..e })),
                None => None,
            }
        },
        _ => None,
    }
}

pub open spec fn append_nodes(s: Seq<NodeView>, i: int, x: NodeView) -> Option<Seq<NodeView>>
    decreases s, s.len() - i,
{
    if i < 0 || i >= s.len() {
        None
    } else {
        proof {
            assert(decreases_to!(s => s[i]));
        }
        match append_node(s[i], x) {
            Some(n) => Some(s.update(i, n)),
            None => append_nodes(s, i + 1, x),
        }
    }
}

/// The page once its search controls are rewritten: unchanged without
/// search inputs; else the controls, and the runtime script (unless the
/// page has it) at the end of the first `<body>`, or of the page.
pub open spec fn search_rewrite_spec(d: DocumentView, o: SearchOptions) -> (DocumentView, nat) {
    let r = rewrite_nodes_spec(d.children, 0, o);
    if r.1 == 0 {
        (d, 0)
    } else if nodes_have_runtime(r.0) {
        (DocumentView { children: r.0, ..d }, r.1)
    } else {
        match append_nodes(r.0, 0, runtime_script_spec()) {
            Some(c) => (DocumentView { children: c, ..d }, r.1),
            None => (DocumentView { children: r.0.push(runtime_script_spec()), ..d }, r.1),
        }
    }
}

fn is_search_input_el(el: &Element) -> (r: bool)
    ensures
        r == is_search_input(el@),
{
    proof {
        reveal_strlit("input");
        reveal_strlit("type");
    }
    str_eq(lower_string(el.name.as_str()).as_str(), "input") && match el.attr("type") {
        Some(t) => str_eq(t, TYPE_SEARCH),
        None => false,
    }
}

fn rewrite_node(node: &Node, next: &mut usize, o: &SearchOptions) -> (r: Node)
    requires
        rewrite_node_spec(node@, *old(next) as nat, *o).1 <= usize::MAX,
    ensures
        rewrite_node_spec(node@, *old(next) as nat, *o) == (r@, *final(next) as nat),
    decreases node,
{
    match node {
        Node::Element(el) => {
            if is_search_input_el(el) {
                *next = *next + 1;
                Node::Element(search_control(el, *next, o))
            } else {
                let ghost cv = nodes_view(el.children@);
                let ghost start = *next as nat;
                let mut kids: Vec<Node> = Vec::new();
                let mut i: usize = 0;
                proof {
                    assert(cv.take(0) =~= Seq::<NodeView>::empty());
                    assert(nodes_view(kids@) =~= Seq::<NodeView>::empty());
                    lemma_rewrite_count_prefix(cv, cv.len() as int, start, *o);
                }
                while i < el.children.len()
                    invariant
                        i <= el.children@.len(),
                        *node == Node::Element(*el),
                        cv == nodes_view(el.children@),
                        cv.len() == el.children@.len(),
                        rewrite_nodes_spec(cv, start, *o).1 <= usize::MAX,
                        (nodes_view(kids@), *next as nat) == rewrite_nodes_spec(cv.take(i as int), start, *o),
                        start == *old(next) as nat,
                        !is_search_input(el@),
                    decreases el.children@.len() - i,
                {
                    proof {
                        assert(decreases_to!(*node => (*node)->Element_0));
                        assert(decreases_to!(el.children => el.children@));
                        assert(decreases_to!(el.children@ => el.children@[i as int]));
                        assert(cv.take(i + 1).drop_last() =~= cv.take(i as int));
                        assert(cv.take(i + 1)[i as int] == el.children@[i as int]@);
                        lemma_rewrite_count_mono(cv, i + 1, start, *o);
                    }
                    let ghost before = nodes_view(kids@);
                    let n = rewrite_node(&el.children[i], next, o);
                    kids.push(n);
                    proof {
                        assert(nodes_view(kids@) =~= before.push(n@));
                    }
                    i += 1;
                }
                proof {
                    assert(cv.take(i as int) =~= cv);
                }
                Node::Element(Element { name: el.name.clone(), attrs: crate::parse::attrs::attrs_clone(&el.attrs), children: kids, void: el.void })
            }
        },
        _ => node.copy(),
    }
}

/// The count never goes down along the nodes.
proof fn lemma_rewrite_count_grows(n: NodeView, next: nat, o: SearchOptions)
    ensures
        rewrite_node_spec(n, next, o).1 >= next,
    decreases n,
{
    match n {
        NodeView::Element(e) => {
            if !is_search_input(e) {
                lemma_rewrite_nodes_grows(e.children, next, o);
            }
        },
        _ => {},
    }
}

proof fn lemma_rewrite_nodes_grows(s: Seq<NodeView>, next: nat, o: SearchOptions)
    ensures
        rewrite_nodes_spec(s, next, o).1 >= next,
    decreases s,
{
    if s.len() > 0 {
        assert(decreases_to!(s => s[s.len() - 1]));
        lemma_rewrite_nodes_grows(s.drop_last(), next, o);
        lemma_rewrite_count_grows(s[s.len() - 1], rewrite_nodes_spec(s.drop_last(), next, o).1, o);
    }
}

/// The count after a prefix is at most the count after all of the nodes.
proof fn lemma_rewrite_count_mono(s: Seq<NodeView>, k: int, next: nat, o: SearchOptions)
    requires
        0 <= k <= s.len(),
    ensures
        rewrite_nodes_spec(s.take(k), next, o).1 <= rewrite_nodes_spec(s, next, o).1,
    decreases s.len() - k,
{
    if k < s.len() {
        lemma_rewrite_count_mono(s, k + 1, next, o);
        assert(s.take(k + 1).drop_last() =~= s.take(k));
        lemma_rewrite_count_grows(s.take(k + 1)[k], rewrite_nodes_spec(s.take(k), next, o).1, o);
    } else {
        assert(s.take(k) =~= s);
    }
}

proof fn lemma_rewrite_count_prefix(s: Seq<NodeView>, k: int, next: nat, o: SearchOptions)
    requires
        0 <= k <= s.len(),
    ensures
        rewrite_nodes_spec(s.take(k), next, o).1 <= rewrite_nodes_spec(s, next, o).1,
{
    lemma_rewrite_count_mono(s, k, next, o);
}

fn has_runtime(node: &Node) -> (r: bool)
    ensures
        r == node_has_runtime(node@),
    decreases node,
{
    match node {
        Node::Element(el) => {
            proof {
                reveal_strlit("script");
                reveal_strlit("src");
            }
            let is_script = str_eq(lower_string(el.name.as_str()).as_str(), "script") && match el.attr("src") {
                Some(v) => str_eq(v, SEARCH_JS_PATH),
                None => false,
            };
            if is_script {
                return true;
            }
            let ghost cv = nodes_view(el.children@);
            let mut i: usize = 0;
            proof {
                assert(cv.take(0) =~= Seq::<NodeView>::empty());
            }
            while i < el.children.len()
                invariant
                    i <= el.children@.len(),
                    *node == Node::Element(*el),
                    cv == nodes_view(el.children@),
                    cv.len() == el.children@.len(),
                    !nodes_have_runtime(cv.take(i as int)),
                decreases el.children@.len() - i,
            {
                proof {
                    assert(decreases_to!(*node => (*node)->Element_0));
                    assert(decreases_to!(el.children => el.children@));
                    assert(decreases_to!(el.children@ => el.children@[i as int]));
                    assert(cv.take(i + 1).drop_last() =~= cv.take(i as int));
                    assert(cv.take(i + 1)[i as int] == el.children@[i as int]@);
                }
                if has_runtime(&el.children[i]) {
                    proof {
                        lemma_runtime_prefix(cv, i + 1);
                    }
                    return true;
                }
                i += 1;
            }
            proof {
                assert(cv.take(i as int) =~= cv);
            }
            false
        },
        _ => false,
    }
}

/// A runtime script in a prefix is one in the whole list.
proof fn lemma_runtime_prefix(s: Seq<NodeView>, k: int)
    requires
        0 <= k <= s.len(),
        nodes_have_runtime(s.take(k)),
    ensures
        nodes_have_runtime(s),
    decreases s.len() - k,
{
    if k < s.len() {
        assert(s.take(k + 1).drop_last() =~= s.take(k));
        lemma_runtime_prefix(s, k + 1);
    } else {
        assert(s.take(k) =~= s);
    }
}

fn nodes_runtime(nodes: &Vec<Node>) -> (r: bool)
    ensures
        r == nodes_have_runtime(nodes_view(nodes@)),
{
    let ghost cv = nodes_view(nodes@);
    let mut i: usize = 0;
    proof {
        assert(cv.take(0) =~= Seq::<NodeView>::empty());
    }
    while i < nodes.len()
        invariant
            i <= nodes@.len(),
            cv == nodes_view(nodes@),
            cv.len() == nodes@.len(),
            !nodes_have_runtime(cv.take(i as int)),
        decreases nodes@.len() - i,
    {
        proof {
            assert(cv.take(i + 1).drop_last() =~= cv.take(i as int));
            assert(cv.take(i + 1)[i as int] == nodes@[i as int]@);
        }
        if has_runtime(&nodes[i]) {
            proof {
                lemma_runtime_prefix(cv, i + 1);
            }
            return true;
        }
        i += 1;
    }
    proof {
        assert(cv.take(i as int) =~= cv);
    }
    false
}

fn append_in_node(node: &Node, x: &Node) -> (r: Option<Node>)
    ensures
        match append_node(node@, x@) {
            Some(n) => r matches Some(y) && y@ == n,
            None => r is None,
        },
    decreases node,
{
    match node {
        Node::Element(el) => {
            proof {
                reveal_strlit("body");
            }
            if str_eq(lower_string(el.name.as_str()).as_str(), "body") {
                let mut kids = crate::parse::ast::copy_nodes(el.children.as_slice());
                let ghost kv = nodes_view(kids@);
                kids.push(x.copy());
                proof {
                    assert(nodes_view(kids@) =~= kv.push(x@));
                }
                return Some(Node::Element(Element { name: el.name.clone(), attrs: crate::parse::attrs::attrs_clone(&el.attrs), children: kids, void: el.void }));
            }
            let ghost cv = nodes_view(el.children@);
            let mut i: usize = 0;
            while i < el.children.len()
                invariant
                    i <= el.children@.len(),
                    *node == Node::Element(*el),
                    cv == nodes_view(el.children@),
                    cv.len() == el.children@.len(),
                    append_nodes(cv, 0, x@) == append_nodes(cv, i as int, x@),
                    !tag_is(el@.name, "body"@),
                decreases el.children@.len() - i,
            {
                proof {
                    assert(decreases_to!(*node => (*node)->Element_0));
                    assert(decreases_to!(el.children => el.children@));
                    assert(decreases_to!(el.children@ => el.children@[i as int]));
                    assert(cv[i as int] == el.children@[i as int]@);
                }
                match append_in_node(&el.children[i], x) {
                    Some(c) => {
                        let ghost cvv = c@;
                        let mut kids = crate::parse::ast::copy_nodes(el.children.as_slice());
                        kids.set(i, c);
                        proof {
                            assert(nodes_view(kids@) =~= cv.update(i as int, cvv));
                        }
                        return Some(Node::Element(Element { name: el.name.clone(), attrs: crate::parse::attrs::attrs_clone(&el.attrs), children: kids, void: el.void }));
                    },
                    None => {},
                }
                i += 1;
            }
            None
        },
        _ => None,
    }
}

fn runtime_script() -> (r: Node)
    ensures
        r@ == runtime_script_spec(),
{
    let p: Vec<(&str, &str)> = vec![("type", "module"), ("src", SEARCH_JS_PATH)];
    proof {
        assert(str_pairs(p@) =~= seq![("type"@, "module"@), ("src"@, SEARCH_JS_PATH@)]);
    }
    Node::Element(mk("script", p, none(), false))
}

/// Rewrite every `<input type="statica/search">` of the page into its
/// search control (numbered in document order) and, when there was one,
/// load the search runtime once (see [`search_rewrite_spec`]); the result
/// is the number of controls.
pub fn rewrite_search_controls(doc: &mut Document, options: &SearchOptions) -> (r: usize)
    requires
        rewrite_nodes_spec(old(doc)@.children, 0, *options).1 <= usize::MAX,
    ensures
        (final(doc)@, r as nat) == search_rewrite_spec(old(doc)@, *options),
{
    let ghost cv = nodes_view(doc.children@);
    let mut next: usize = 0;
    let mut out: Vec<Node> = Vec::new();
    let mut i: usize = 0;
    proof {
        assert(cv.take(0) =~= Seq::<NodeView>::empty());
        assert(nodes_view(out@) =~= Seq::<NodeView>::empty());
    }
    while i < doc.children.len()
        invariant
            i <= doc.children@.len(),
            cv == nodes_view(doc.children@),
            cv.len() == doc.children@.len(),
            rewrite_nodes_spec(cv, 0, *options).1 <= usize::MAX,
            (nodes_view(out@), next as nat) == rewrite_nodes_spec(cv.take(i as int), 0, *options),
        decreases doc.children@.len() - i,
    {
        proof {
            assert(cv.take(i + 1).drop_last() =~= cv.take(i as int));
            assert(cv.take(i + 1)[i as int] == doc.children@[i as int]@);
            lemma_rewrite_count_mono(cv, i + 1, 0, *options);
        }
        let ghost before = nodes_view(out@);
        let n = rewrite_node(&doc.children[i], &mut next, options);
        out.push(n);
        proof {
            assert(nodes_view(out@) =~= before.push(n@));
        }
        i += 1;
    }
    proof {
        assert(cv.take(i as int) =~= cv);
    }
    if next == 0 {
        return 0;
    }
    if nodes_runtime(&out) {
        doc.children = out;
        return next;
    }
    let script = runtime_script();
    let ghost ov = nodes_view(out@);
    proof {
        assert(doc@ == old(doc)@);
    }
    let mut j: usize = 0;
    while j < out.len()
        invariant
            j <= out@.len(),
            ov == nodes_view(out@),
            ov.len() == out@.len(),
            append_nodes(ov, 0, script@) == append_nodes(ov, j as int, script@),
            script@ == runtime_script_spec(),
            (ov, next as nat) == rewrite_nodes_spec(cv, 0, *options),
            cv == nodes_view(doc.children@),
            doc@ == old(doc)@,
            next != 0,
            !nodes_have_runtime(ov),
        decreases out@.len() - j,
    {
        proof {
            assert(ov[j as int] == out@[j as int]@);
        }
        match append_in_node(&out[j], &script) {
            Some(c) => {
                let ghost cvv = c@;
                out.set(j, c);
                proof {
                    assert(nodes_view(out@) =~= ov.update(j as int, cvv));
                }
                doc.children = out;
                return next;
            },
            None => {},
        }
        j += 1;
    }
    let ghost sv = script@;
    out.push(script);
    proof {
        assert(nodes_view(out@) =~= ov.push(sv));
    }
    doc.children = out;
    next
}

// ---------------------------------------------------------------------------
// Counting controls in written pages

/// Non-overlapping occurrences of `p` in `s` from `i` (`str::matches`).
pub open spec fn count_from(s: Seq<char>, p: Seq<char>, i: int) -> nat
    decreases s.len() - i,
{
    if i < 0 || i > s.len() || p.len() == 0 {
        0
    } else {
        match find_from(s, p, i) {
            Some(k) => {
                proof {
                    lemma_find_from_bounds(s, p, i);
                }
                1 + count_from(s, p, k + p.len())
            },
            None => 0,
        }
    }
}

/// The search controls in the written pages: occurrences of
/// `data-statica-search` in each page's HTML, summed.
pub open spec fn controls_total(htmls: Seq<Seq<char>>) -> nat
    decreases htmls.len(),
{
    if htmls.len() == 0 {
        0
    } else {
        controls_total(htmls.drop_last()) + count_from(htmls.last(), DATA_STATICA_SEARCH@, 0)
    }
}

proof fn lemma_count_bound(s: Seq<char>, p: Seq<char>, i: int)
    requires
        0 <= i <= s.len(),
        p.len() > 0,
    ensures
        count_from(s, p, i) <= s.len() - i,
    decreases s.len() - i,
{
    lemma_find_from_bounds(s, p, i);
    match find_from(s, p, i) {
        Some(k) => {
            lemma_count_bound(s, p, k + p.len());
        },
        None => {},
    }
}

fn count_matches(s: &str, pat: &str) -> (r: usize)
    requires
        pat@.len() > 0,
    ensures
        r == count_from(s@, pat@, 0),
{
    let v = chars_of(s);
    let pv = chars_of(pat);
    let mut i: usize = 0;
    let mut n: usize = 0;
    proof {
        lemma_count_bound(v@, pv@, 0);
    }
    loop
        invariant
            i <= v@.len(),
            v@ == s@,
            pv@ == pat@,
            pv@.len() > 0,
            n + count_from(v@, pv@, i as int) == count_from(v@, pv@, 0),
            count_from(v@, pv@, 0) <= v@.len(),
        decreases v@.len() - i,
    {
        proof {
            lemma_find_from_bounds(v@, pv@, i as int);
        }
        match find_at(v.as_slice(), i, pv.as_slice()) {
            Some(k) => {
                proof {
                    lemma_count_bound(v@, pv@, k + pv@.len());
                    assert(crate::text::match_at(v@, pv@, k as int));
                    assert(count_from(v@, pv@, i as int) == 1 + count_from(v@, pv@, k + pv@.len()));
                    assert(v@.len() == v.len());
                }
                n = n + 1;
                i = k + pv.len();
            },
            None => {
                return n;
            },
        }
    }
}

/// How many search controls the written pages hold (see
/// [`controls_total`]); `htmls` are the pages' texts.
pub fn count_controls_in_outputs(htmls: &[String]) -> (r: usize)
    requires
        controls_total(views(htmls@)) <= usize::MAX,
    ensures
        r == controls_total(views(htmls@)),
{
    let ghost hv = views(htmls@);
    let mut total: usize = 0;
    let mut i: usize = 0;
    proof {
        assert(hv.take(0) =~= Seq::<Seq<char>>::empty());
    }
    while i < htmls.len()
        invariant
            i <= htmls@.len(),
            hv == views(htmls@),
            hv.len() == htmls@.len(),
            controls_total(hv) <= usize::MAX,
            total == controls_total(hv.take(i as int)),
        decreases htmls@.len() - i,
    {
        proof {
            assert(hv.take(i + 1).drop_last() =~= hv.take(i as int));
            assert(hv.take(i + 1).last() == htmls@[i as int]@);
            lemma_total_mono(hv, i + 1);
            reveal_strlit("data-statica-search");
        }
        let c = count_matches(htmls[i].as_str(), DATA_STATICA_SEARCH);
        total = total + c;
        i += 1;
    }
    proof {
        assert(hv.take(i as int) =~= hv);
    }
    total
}

proof fn lemma_total_mono(h: Seq<Seq<char>>, k: int)
    requires
        0 <= k <= h.len(),
    ensures
        controls_total(h.take(k)) <= controls_total(h),
    decreases h.len() - k,
{
    if k < h.len() {
        lemma_total_mono(h, k + 1);
        assert(h.take(k + 1).drop_last() =~= h.take(k));
    } else {
        assert(h.take(k) =~= h);
    }
}

// ---------------------------------------------------------------------------
// Without a bound on the count

fn count_inputs(node: &Node, acc: usize, o: &SearchOptions) -> (r: Option<usize>)
    ensures
        match r {
            Some(c) => c as nat == rewrite_node_spec(node@, acc as nat, *o).1,
            None => rewrite_node_spec(node@, acc as nat, *o).1 > usize::MAX,
        },
    decreases node,
{
    match node {
        Node::Element(el) => {
            if is_search_input_el(el) {
                return acc.checked_add(1);
            }
            let ghost cv = nodes_view(el.children@);
            let mut c = acc;
            let mut i: usize = 0;
            proof {
                assert(cv.take(0) =~= Seq::<NodeView>::empty());
            }
            while i < el.children.len()
                invariant
                    i <= el.children@.len(),
                    *node == Node::Element(*el),
                    cv == nodes_view(el.children@),
                    cv.len() == el.children@.len(),
                    !is_search_input(el@),
                    c as nat == rewrite_nodes_spec(cv.take(i as int), acc as nat, *o).1,
                decreases el.children@.len() - i,
            {
                proof {
                    assert(decreases_to!(*node => (*node)->Element_0));
                    assert(decreases_to!(el.children => el.children@));
                    assert(decreases_to!(el.children@ => el.children@[i as int]));
                    assert(cv.take(i + 1).drop_last() =~= cv.take(i as int));
                    assert(cv.take(i + 1)[i as int] == el.children@[i as int]@);
                }
                match count_inputs(&el.children[i], c, o) {
                    Some(n) => {
                        c = n;
                    },
                    None => {
                        proof {
                            lemma_rewrite_count_mono(cv, i + 1, acc as nat, *o);
                        }
                        return None;
                    },
                }
                i += 1;
            }
            proof {
                assert(cv.take(i as int) =~= cv);
            }
            Some(c)
        },
        _ => Some(acc),
    }
}

/// [`rewrite_search_controls`] for any page: `None`, and the page as it
/// was, when the number of search inputs does not fit a `usize`.
pub fn rewrite_search_controls_checked(doc: &mut Document, options: &SearchOptions) -> (r: Option<usize>)
    ensures
        rewrite_nodes_spec(old(doc)@.children, 0, *options).1 <= usize::MAX ==> (r matches Some(n) && (
        final(doc)@,
        n as nat,
    ) == search_rewrite_spec(old(doc)@, *options)),
        rewrite_nodes_spec(old(doc)@.children, 0, *options).1 > usize::MAX ==> (r is None && final(doc)@ == old(doc)@),
{
    let ghost cv = nodes_view(doc.children@);
    let mut c: usize = 0;
    let mut i: usize = 0;
    proof {
        assert(cv.take(0) =~= Seq::<NodeView>::empty());
    }
    while i < doc.children.len()
        invariant
            i <= doc.children@.len(),
            cv == nodes_view(doc.children@),
            cv.len() == doc.children@.len(),
            doc@ == old(doc)@,
            c as nat == rewrite_nodes_spec(cv.take(i as int), 0, *options).1,
        decreases doc.children@.len() - i,
    {
        proof {
            assert(cv.take(i + 1).drop_last() =~= cv.take(i as int));
            assert(cv.take(i + 1)[i as int] == doc.children@[i as int]@);
        }
        match count_inputs(&doc.children[i], c, options) {
            Some(n) => {
                c = n;
            },
            None => {
                proof {
                    lemma_rewrite_count_mono(cv, i + 1, 0, *options);
                }
                return None;
            },
        }
        i += 1;
    }
    proof {
        assert(cv.take(i as int) =~= cv);
    }
    Some(rewrite_search_controls(doc, options))
}

} // verus!

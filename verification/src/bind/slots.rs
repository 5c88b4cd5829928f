//! Named and default `<slot>` filling on the tree.

use vstd::prelude::*;

use crate::parse::ast::{
    copy_nodes, is_default_slot, is_named_slot, nodes_view, Element, ElementView, Node, NodeView, SlotKind,
};
use crate::parse::attrs::{attr_lookup, attrs_clone, attrs_shift_remove, remove_attr_spec};
use crate::text::{str_eq, trim, trim_str};
use crate::tokens::ATTR_SLOT;

verus! {

/// Children of a fragment mount, sorted into what fills the default slot and
/// what fills each named slot.
#[derive(Debug)]
pub struct SlotProjection {
    default: Vec<Node>,
    /// Slot name → its children, in order of first use; names are unique.
    named: Vec<(String, Vec<Node>)>,
}

/// Mathematical value of a [`SlotProjection`].
#[verifier::ext_equal]
pub struct ProjectionView {
    pub default: Seq<NodeView>,
    pub named: Seq<(Seq<char>, Seq<NodeView>)>,
}

pub open spec fn named_view(t: Seq<(String, Vec<Node>)>) -> Seq<(Seq<char>, Seq<NodeView>)> {
    t.map_values(|e: (String, Vec<Node>)| (e.0@, nodes_view(e.1@)))
}

impl View for SlotProjection {
    type V = ProjectionView;

    closed spec fn view(&self) -> ProjectionView {
        ProjectionView { default: nodes_view(self.default@), named: named_view(self.named@) }
    }
}

/// Position of the entry named `k`.
pub open spec fn named_index(t: Seq<(Seq<char>, Seq<NodeView>)>, k: Seq<char>) -> Option<int>
    decreases t.len(),
{
    if t.len() == 0 {
        None
    } else if t[0].0 == k {
        Some(0)
    } else {
        match named_index(t.drop_first(), k) {
            Some(i) => Some(i + 1),
            None => None,
        }
    }
}

/// The children projected into the slot named `k`.
pub open spec fn named_get(t: Seq<(Seq<char>, Seq<NodeView>)>, k: Seq<char>) -> Option<Seq<NodeView>> {
    match named_index(t, k) {
        Some(i) => Some(t[i].1),
        None => None,
    }
}

/// `named.entry(k).or_default().push(n)`.
pub open spec fn named_push(t: Seq<(Seq<char>, Seq<NodeView>)>, k: Seq<char>, n: NodeView) -> Seq<(Seq<char>, Seq<NodeView>)> {
    match named_index(t, k) {
        Some(i) => t.update(i, (k, t[i].1.push(n))),
        None => t.push((k, seq![n])),
    }
}

/// `named.entry(k).or_default().extend(ns)`.
pub open spec fn named_extend(t: Seq<(Seq<char>, Seq<NodeView>)>, k: Seq<char>, ns: Seq<NodeView>) -> Seq<(Seq<char>, Seq<NodeView>)> {
    match named_index(t, k) {
        Some(i) => t.update(i, (k, t[i].1 + ns)),
        None => t.push((k, ns)),
    }
}

proof fn lemma_named_index(t: Seq<(Seq<char>, Seq<NodeView>)>, k: Seq<char>)
    ensures
        named_index(t, k) matches Some(i) ==> 0 <= i < t.len() && t[i].0 == k && forall|j: int|
            0 <= j < i ==> t[j].0 != k,
        named_index(t, k) is None ==> forall|j: int| 0 <= j < t.len() ==> t[j].0 != k,
    decreases t.len(),
{
    if t.len() > 0 && t[0].0 != k {
        lemma_named_index(t.drop_first(), k);
        assert forall|j: int| 1 <= j < t.len() implies t[j] == t.drop_first()[j - 1] by {}
    }
}

/// The name a mount child is sent to: its trimmed, non-empty `slot`.
pub open spec fn slot_target(n: NodeView) -> Option<Seq<char>> {
    match n {
        NodeView::Element(e) => match attr_lookup(e.attrs, ATTR_SLOT@) {
            Some(v) => if trim(v).len() > 0 {
                Some(trim(v))
            } else {
                None
            },
            None => None,
        },
        _ => None,
    }
}

/// One mount child sorted in: a child sent to a named slot loses its
/// `slot` attribute; every other child goes to the default slot.
pub open spec fn project_step(p: ProjectionView, n: NodeView) -> ProjectionView {
    match slot_target(n) {
        Some(k) => {
            let e = n->Element_0;
            ProjectionView {
                named: named_push(p.named, k, NodeView::Element(ElementView { attrs: remove_attr_spec(e.attrs, ATTR_SLOT@), ..e })),
                ..p
            }
        },
        None => ProjectionView { default: p.default.push(n), ..p },
    }
}

/// The projection of the mount children `s`, sorted in order.
pub open spec fn projection_of(s: Seq<NodeView>) -> ProjectionView
    decreases s.len(),
{
    if s.len() == 0 {
        ProjectionView { default: Seq::empty(), named: Seq::empty() }
    } else {
        project_step(projection_of(s.drop_last()), s.last())
    }
}

impl SlotProjection {
    fn named_position(&self, name: &str) -> (r: Option<usize>)
        ensures
            match r {
                Some(i) => i < self.named@.len() && named_index(self@.named, name@) == Some(i as int),
                None => named_index(self@.named, name@) is None,
            },
    {
        let ghost t = self@.named;
        proof {
            lemma_named_index(t, name@);
        }
        let mut i: usize = 0;
        while i < self.named.len()
            invariant
                i <= self.named@.len(),
                t == self@.named,
                t.len() == self.named@.len(),
                forall|j: int| 0 <= j < i ==> t[j].0 != name@,
                named_index(t, name@) matches Some(k) ==> 0 <= k < t.len() && t[k].0 == name@ && forall|j: int|
                    0 <= j < k ==> t[j].0 != name@,
                named_index(t, name@) is None ==> forall|j: int| 0 <= j < t.len() ==> t[j].0 != name@,
            decreases self.named@.len() - i,
        {
            proof {
                assert(t[i as int].0 == self.named@[i as int].0@);
            }
            if str_eq(self.named[i].0.as_str(), name) {
                proof {
                    match named_index(t, name@) {
                        Some(k) => {
                            if k < i {
                                assert(t[k].0 != name@);
                            }
                        },
                        None => {
                            assert(t[i as int].0 != name@);
                        },
                    }
                }
                return Some(i);
            }
            i += 1;
        }
        None
    }

    fn push_named(&mut self, name: &str, n: Node)
        ensures
            final(self)@ == (ProjectionView { named: named_push(old(self)@.named, name@, n@), ..old(self)@ }),
    {
        match self.named_position(name) {
            Some(i) => {
                let ghost before = self.named@;
                proof {
                    lemma_named_index(self@.named, name@);
                    assert(self@.named[i as int].0 == before[i as int].0@);
                }
                let (k, mut v) = self.named.remove(i);
                proof {
                    assert(k == before[i as int].0);
                    assert(v == before[i as int].1);
                }
                let ghost vv = nodes_view(v@);
                v.push(n);
                proof {
                    assert(nodes_view(v@) =~= vv.push(n@));
                }
                let ghost kv = (k, v);
                self.named.insert(i, (k, v));
                proof {
                    assert(self.named@ =~= before.update(i as int, kv));
                    assert(named_view(self.named@) =~= named_view(before).update(
                        i as int,
                        (name@, nodes_view(before[i as int].1@).push(n@)),
                    ));
                    assert(self@ =~= (ProjectionView { named: named_push(old(self)@.named, name@, n@), ..old(self)@ }));
                }
            },
            None => {
                let mut v: Vec<Node> = Vec::new();
                v.push(n);
                let ghost vn = n@;
                proof {
                    assert(nodes_view(v@) =~= seq![vn]);
                }
                self.named.push((String::from_str(name), v));
                proof {
                    assert(named_view(self.named@) =~= named_view(old(self).named@).push((name@, seq![vn])));
                    assert(self@ =~= (ProjectionView { named: named_push(old(self)@.named, name@, vn), ..old(self)@ }));
                }
            },
        }
    }

    /// Nothing projected.
    pub(crate) fn empty() -> (r: Self)
        ensures
            r@ == (ProjectionView { default: Seq::empty(), named: Seq::empty() }),
    {
        let r = SlotProjection { default: Vec::new(), named: Vec::new() };
        proof {
            assert(r@ =~= (ProjectionView { default: Seq::empty(), named: Seq::empty() }));
        }
        r
    }

    pub(crate) fn push_default(&mut self, n: Node)
        ensures
            final(self)@ == (ProjectionView { default: old(self)@.default.push(n@), ..old(self)@ }),
    {
        let ghost nv = n@;
        self.default.push(n);
        proof {
            assert(self@ =~= (ProjectionView { default: old(self)@.default.push(nv), ..old(self)@ }));
        }
    }

    /// `named.entry(name).or_default().extend(ns)`.
    pub(crate) fn extend_named(&mut self, name: &str, ns: Vec<Node>)
        ensures
            final(self)@ == (ProjectionView { named: named_extend(old(self)@.named, name@, nodes_view(ns@)), ..old(self)@ }),
    {
        let ghost nsv = nodes_view(ns@);
        match self.named_position(name) {
            Some(i) => {
                let ghost before = self.named@;
                proof {
                    lemma_named_index(self@.named, name@);
                    assert(self@.named[i as int].0 == before[i as int].0@);
                }
                let (k, mut v) = self.named.remove(i);
                proof {
                    assert(k == before[i as int].0);
                    assert(v == before[i as int].1);
                }
                let ghost vv = nodes_view(v@);
                let mut j: usize = 0;
                while j < ns.len()
                    invariant
                        j <= ns@.len(),
                        nsv == nodes_view(ns@),
                        nodes_view(v@) == vv + nsv.take(j as int),
                    decreases ns@.len() - j,
                {
                    let ghost b = nodes_view(v@);
                    v.push(ns[j].copy());
                    proof {
                        assert(nodes_view(v@) =~= b.push(ns@[j as int]@));
                        assert(nsv.take(j + 1) =~= nsv.take(j as int).push(ns@[j as int]@));
                    }
                    j += 1;
                }
                proof {
                    assert(nsv.take(j as int) =~= nsv);
                }
                let ghost kv = (k, v);
                self.named.insert(i, (k, v));
                proof {
                    assert(self.named@ =~= before.update(i as int, kv));
                    assert(named_view(self.named@) =~= named_view(before).update(i as int, (name@, vv + nsv)));
                    assert(self@ =~= (ProjectionView { named: named_extend(old(self)@.named, name@, nsv), ..old(self)@ }));
                }
            },
            None => {
                self.named.push((String::from_str(name), ns));
                proof {
                    assert(named_view(self.named@) =~= named_view(old(self).named@).push((name@, nsv)));
                    assert(self@ =~= (ProjectionView { named: named_extend(old(self)@.named, name@, nsv), ..old(self)@ }));
                }
            },
        }
    }

    /// Sort the children of a fragment mount: an element with a non-blank
    /// `slot="name"` goes, without that attribute, to the slot of that
    /// (trimmed) name; everything else to the default slot. Order is kept.
    pub fn from_mount_children(children: &[Node]) -> (r: Self)
        ensures
            r@ == projection_of(nodes_view(children@)),
    {
        let ghost cv = nodes_view(children@);
        let mut projection = SlotProjection { default: Vec::new(), named: Vec::new() };
        let mut i: usize = 0;
        proof {
            assert(cv.take(0) =~= Seq::<NodeView>::empty());
            assert(projection@ =~= projection_of(cv.take(0)));
        }
        while i < children.len()
            invariant
                i <= children@.len(),
                cv == nodes_view(children@),
                cv.len() == children@.len(),
                projection@ == projection_of(cv.take(i as int)),
            decreases children@.len() - i,
        {
            proof {
                assert(cv.take(i + 1).drop_last() =~= cv.take(i as int));
                assert(cv.take(i + 1).last() == children@[i as int]@);
            }
            let child = &children[i];
            let target: Option<String> = match child {
                Node::Element(el) => match el.attr(ATTR_SLOT) {
                    Some(v) => {
                        let t = trim_str(v);
                        if t.unicode_len() > 0 {
                            Some(t)
                        } else {
                            None
                        }
                    },
                    None => None,
                },
                _ => None,
            };
            match target {
                Some(name) => {
                    match child {
                        Node::Element(el) => {
                            let mut attrs = attrs_clone(&el.attrs);
                            attrs_shift_remove(&mut attrs, ATTR_SLOT);
                            let moved = Node::Element(Element {
                                name: el.name.clone(),
                                attrs,
                                children: copy_nodes(el.children.as_slice()),
                                void: el.void,
                            });
                            projection.push_named(name.as_str(), moved);
                        },
                        _ => {},
                    }
                },
                None => {
                    let ghost before = projection@;
                    projection.default.push(child.copy());
                    proof {
                        assert(projection@ =~= (ProjectionView { default: before.default.push(child@), ..before }));
                    }
                },
            }
            i += 1;
        }
        proof {
            assert(cv.take(i as int) =~= cv);
        }
        projection
    }

    /// What fills the default slot.
    pub fn default_children(&self) -> (r: &[Node])
        ensures
            nodes_view(r@) == self@.default,
    {
        self.default.as_slice()
    }

    /// What fills the slot named `name`, if any child was sent to it.
    fn named_children(&self, name: &str) -> (r: Option<&[Node]>)
        ensures
            match r {
                Some(c) => named_get(self@.named, name@) == Some(nodes_view(c@)),
                None => named_get(self@.named, name@) is None,
            },
    {
        match self.named_position(name) {
            Some(i) => {
                proof {
                    assert(self@.named[i as int].1 == nodes_view(self.named@[i as int].1@));
                }
                Some(self.named[i].1.as_slice())
            },
            None => None,
        }
    }
}

// ---------------------------------------------------------------------------
// Filling

/// `s` with the node at `i` replaced by `c`.
pub open spec fn splice_at(s: Seq<NodeView>, i: int, c: Seq<NodeView>) -> Seq<NodeView> {
    s.take(i) + c + s.skip(i + 1)
}

/// What replaces a slot: the projected children, or the slot's own
/// (fallback) children when nothing was projected.
pub open spec fn slot_fill(projected: Option<Seq<NodeView>>, fallback: Seq<NodeView>) -> Seq<NodeView> {
    match projected {
        Some(c) => if c.len() > 0 {
            c
        } else {
            fallback
        },
        None => fallback,
    }
}

/// The walk of [`fill_projection_slots`] over `s` from position `i` on,
/// with at most `fuel` steps; `None` when the steps run out first.
///
/// A default slot takes the default children, a named slot the children
/// sent to its name, either its own children when nothing was sent; the
/// walk then goes on after the first node put in. Other elements have their
/// children filled.
pub open spec fn fill_from(s: Seq<NodeView>, i: int, p: ProjectionView, fuel: nat) -> Option<Seq<NodeView>>
    decreases fuel,
{
    if fuel == 0 {
        None
    } else if i < 0 || i >= s.len() {
        Some(s)
    } else {
        match s[i] {
            NodeView::Element(e) => if is_default_slot(e) {
                fill_from(splice_at(s, i, slot_fill(Some(p.default), e.children)), i + 1, p, (fuel - 1) as nat)
            } else if is_named_slot(e) {
                let c = slot_fill(named_get(p.named, attr_lookup(e.attrs, "name"@).unwrap()), e.children);
                fill_from(splice_at(s, i, c), i + 1, p, (fuel - 1) as nat)
            } else {
                match fill_from(e.children, 0, p, (fuel - 1) as nat) {
                    Some(k) => fill_from(
                        s.update(i, NodeView::Element(ElementView { children: k, ..e })),
                        i + 1,
                        p,
                        (fuel - 1) as nat,
                    ),
                    None => None,
                }
            },
            _ => fill_from(s, i + 1, p, (fuel - 1) as nat),
        }
    }
}

/// The walk over `s` ends. It does not where a projected node after the
/// first one holds a slot that is filled again with it.
pub open spec fn fill_terminates(s: Seq<NodeView>, p: ProjectionView) -> bool {
    exists|f: nat| fill_from(s, 0, p, f) is Some
}

/// What the walk over `s` leaves.
pub open spec fn fill_result(s: Seq<NodeView>, p: ProjectionView) -> Seq<NodeView> {
    fill_from(s, 0, p, choose|f: nat| fill_from(s, 0, p, f) is Some).unwrap()
}

fn push_copies(out: &mut Vec<Node>, src: &[Node], lo: usize, hi: usize)
    requires
        lo <= hi <= src@.len(),
    ensures
        nodes_view(final(out)@) == nodes_view(old(out)@) + nodes_view(src@).subrange(lo as int, hi as int),
{
    let mut j = lo;
    proof {
        assert(nodes_view(out@) =~= nodes_view(old(out)@) + nodes_view(src@).subrange(lo as int, lo as int));
    }
    while j < hi
        invariant
            lo <= j <= hi,
            hi <= src@.len(),
            nodes_view(out@) == nodes_view(old(out)@) + nodes_view(src@).subrange(lo as int, j as int),
        decreases hi - j,
    {
        let ghost before = nodes_view(out@);
        out.push(src[j].copy());
        proof {
            assert(nodes_view(out@) =~= before.push(src@[j as int]@));
            assert(nodes_view(src@).subrange(lo as int, j + 1) =~= nodes_view(src@).subrange(lo as int, j as int).push(
                src@[j as int]@,
            ));
        }
        j += 1;
    }
}

fn splice_nodes(nodes: &Vec<Node>, i: usize, c: &[Node]) -> (r: Vec<Node>)
    requires
        i < nodes@.len(),
    ensures
        nodes_view(r@) == splice_at(nodes_view(nodes@), i as int, nodes_view(c@)),
{
    let ghost s = nodes_view(nodes@);
    let mut out: Vec<Node> = Vec::new();
    proof {
        assert(nodes_view(out@) =~= Seq::<NodeView>::empty());
    }
    push_copies(&mut out, nodes.as_slice(), 0, i);
    push_copies(&mut out, c, 0, c.len());
    let n = nodes.len();
    push_copies(&mut out, nodes.as_slice(), i + 1, n);
    proof {
        assert(nodes_view(c@).subrange(0, c@.len() as int) =~= nodes_view(c@));
        assert(s.subrange(0, i as int) =~= s.take(i as int));
        assert(s.subrange(i + 1, s.len() as int) =~= s.skip(i + 1));
        assert(nodes_view(out@) =~= splice_at(s, i as int, nodes_view(c@)));
    }
    out
}

pub(crate) fn fill_rec(nodes: &mut Vec<Node>, p: &SlotProjection, Ghost(fuel): Ghost<nat>)
    requires
        fill_from(nodes_view(old(nodes)@), 0, p@, fuel) is Some,
    ensures
        nodes_view(final(nodes)@) == fill_from(nodes_view(old(nodes)@), 0, p@, fuel).unwrap(),
    decreases fuel,
{
    let ghost res = fill_from(nodes_view(nodes@), 0, p@, fuel).unwrap();
    let ghost mut g: nat = fuel;
    let mut i: usize = 0;
    while i < nodes.len()
        invariant
            g <= fuel,
            fill_from(nodes_view(nodes@), i as int, p@, g) == Some(res),
        decreases g,
    {
        let ghost s = nodes_view(nodes@);
        proof {
            assert(s[i as int] == nodes@[i as int]@);
        }
        let step: Option<Vec<Node>> = match &nodes[i] {
            Node::Element(el) => match el.slot_kind() {
                Some(SlotKind::Default) => {
                    let c = p.default_children();
                    if c.len() > 0 {
                        Some(splice_nodes(nodes, i, c))
                    } else {
                        Some(splice_nodes(nodes, i, el.children.as_slice()))
                    }
                },
                Some(SlotKind::Named(name)) => {
                    match p.named_children(name.as_str()) {
                        Some(c) => {
                            if c.len() > 0 {
                                Some(splice_nodes(nodes, i, c))
                            } else {
                                Some(splice_nodes(nodes, i, el.children.as_slice()))
                            }
                        },
                        None => Some(splice_nodes(nodes, i, el.children.as_slice())),
                    }
                },
                _ => {
                    proof {
                        reveal_strlit("slot");
                    }
                    let mut kids = copy_nodes(el.children.as_slice());
                    fill_rec(&mut kids, p, Ghost((g - 1) as nat));
                    let filled = Node::Element(Element {
                        name: el.name.clone(),
                        attrs: attrs_clone(&el.attrs),
                        children: kids,
                        void: el.void,
                    });
                    let mut v = copy_nodes(nodes.as_slice());
                    v.set(i, filled);
                    proof {
                        assert(nodes_view(v@) =~= s.update(i as int, filled@));
                    }
                    Some(v)
                },
            },
            _ => None,
        };
        match step {
            Some(v) => {
                *nodes = v;
            },
            None => {},
        }
        i += 1;
        proof {
            g = (g - 1) as nat;
        }
    }
    proof {
        assert(g > 0);
    }
}

fn fill_budget(nodes: &Vec<Node>, p: &SlotProjection, fuel: usize) -> (r: Option<Vec<Node>>)
    ensures
        match fill_from(nodes_view(nodes@), 0, p@, fuel as nat) {
            Some(res) => r matches Some(v) && nodes_view(v@) == res,
            None => r is None,
        },
    decreases fuel,
{
    let ghost start = nodes_view(nodes@);
    let mut cur = copy_nodes(nodes.as_slice());
    let mut g: usize = fuel;
    let mut i: usize = 0;
    while g > 0 && i < cur.len()
        invariant
            g <= fuel,
            start == nodes_view(nodes@),
            fill_from(start, 0, p@, fuel as nat) == fill_from(nodes_view(cur@), i as int, p@, g as nat),
        decreases g,
    {
        let ghost s = nodes_view(cur@);
        proof {
            assert(s[i as int] == cur@[i as int]@);
        }
        let step: Option<Vec<Node>> = match &cur[i] {
            Node::Element(el) => match el.slot_kind() {
                Some(SlotKind::Default) => {
                    let c = p.default_children();
                    if c.len() > 0 {
                        Some(splice_nodes(&cur, i, c))
                    } else {
                        Some(splice_nodes(&cur, i, el.children.as_slice()))
                    }
                },
                Some(SlotKind::Named(name)) => {
                    match p.named_children(name.as_str()) {
                        Some(c) => {
                            if c.len() > 0 {
                                Some(splice_nodes(&cur, i, c))
                            } else {
                                Some(splice_nodes(&cur, i, el.children.as_slice()))
                            }
                        },
                        None => Some(splice_nodes(&cur, i, el.children.as_slice())),
                    }
                },
                _ => {
                    proof {
                        reveal_strlit("slot");
                    }
                    match fill_budget(&el.children, p, g - 1) {
                        None => {
                            proof {
                                assert(fill_from(nodes_view(el.children@), 0, p@, (g - 1) as nat) is None);
                                assert(s[i as int] == NodeView::Element(el@));
                                assert(fill_from(s, i as int, p@, g as nat) is None);
                            }
                            return None;
                        },
                        Some(kids) => {
                            let filled = Node::Element(Element {
                                name: el.name.clone(),
                                attrs: attrs_clone(&el.attrs),
                                children: kids,
                                void: el.void,
                            });
                            let mut v = copy_nodes(cur.as_slice());
                            v.set(i, filled);
                            proof {
                                assert(nodes_view(v@) =~= s.update(i as int, filled@));
                            }
                            Some(v)
                        },
                    }
                },
            },
            _ => None,
        };
        match step {
            Some(v) => {
                cur = v;
            },
            None => {},
        }
        i += 1;
        g -= 1;
    }
    if g == 0 {
        return None;
    }
    Some(cur)
}

/// Fill the slots as [`fill_projection_slots`] does, walking at most
/// `max_steps` steps (see [`fill_from`]): `true` and the filled nodes when
/// the walk ends within them, `false` and the nodes as they were otherwise.
pub fn fill_projection_slots_within(nodes: &mut Vec<Node>, projection: &SlotProjection, max_steps: usize) -> (r: bool)
    ensures
        r == fill_from(nodes_view(old(nodes)@), 0, projection@, max_steps as nat) is Some,
        r ==> nodes_view(final(nodes)@) == fill_from(nodes_view(old(nodes)@), 0, projection@, max_steps as nat).unwrap(),
        !r ==> final(nodes)@ == old(nodes)@,
{
    match fill_budget(nodes, projection, max_steps) {
        Some(v) => {
            *nodes = v;
            true
        },
        None => false,
    }
}

/// Fill the default and named slots of `nodes` from a mount's projection
/// (see [`fill_from`]), for a walk that ends.
pub fn fill_projection_slots(nodes: &mut Vec<Node>, projection: &SlotProjection)
    requires
        fill_terminates(nodes_view(old(nodes)@), projection@),
    ensures
        nodes_view(final(nodes)@) == fill_result(nodes_view(old(nodes)@), projection@),
{
    let ghost f = choose|f: nat| fill_from(nodes_view(nodes@), 0, projection@, f) is Some;
    fill_rec(nodes, projection, Ghost(f));
}

// ---------------------------------------------------------------------------
// Clearing

/// Every named slot left in `s` replaced by its own (fallback) children, at
/// any depth.
pub open spec fn clear_nodes_spec(s: Seq<NodeView>) -> Seq<NodeView>
    decreases s,
{
    if s.len() == 0 {
        Seq::empty()
    } else {
        proof {
            assert(decreases_to!(s => s[s.len() - 1]));
        }
        clear_nodes_spec(s.drop_last()) + clear_node_spec(s[s.len() - 1])
    }
}

pub open spec fn clear_node_spec(n: NodeView) -> Seq<NodeView>
    decreases n,
{
    match n {
        NodeView::Element(e) => if is_named_slot(e) {
            clear_nodes_spec(e.children)
        } else {
            seq![NodeView::Element(ElementView { children: clear_nodes_spec(e.children), ..e })]
        },
        _ => seq![n],
    }
}

fn clear_node(node: &Node, out: &mut Vec<Node>)
    ensures
        nodes_view(final(out)@) == nodes_view(old(out)@) + clear_node_spec(node@),
    decreases node,
{
    match node {
        Node::Element(el) => {
            let named = match el.slot_kind() {
                Some(SlotKind::Named(_)) => true,
                _ => false,
            };
            proof {
                reveal_strlit("slot");
            }
            let ghost cv = nodes_view(el.children@);
            let ghost start = nodes_view(out@);
            let mut kids: Vec<Node> = Vec::new();
            let mut i: usize = 0;
            proof {
                assert(cv.take(0) =~= Seq::<NodeView>::empty());
                assert(nodes_view(kids@) =~= Seq::<NodeView>::empty());
                assert(nodes_view(out@) =~= start + Seq::<NodeView>::empty());
            }
            while i < el.children.len()
                invariant
                    i <= el.children@.len(),
                    *node == Node::Element(*el),
                    cv == nodes_view(el.children@),
                    cv.len() == el.children@.len(),
                    named ==> nodes_view(out@) == start + clear_nodes_spec(cv.take(i as int)),
                    !named ==> nodes_view(out@) == start,
                    !named ==> nodes_view(kids@) == clear_nodes_spec(cv.take(i as int)),
                decreases el.children@.len() - i,
            {
                proof {
                    assert(decreases_to!(*node => (*node)->Element_0));
                    assert(decreases_to!(el.children => el.children@));
                    assert(decreases_to!(el.children@ => el.children@[i as int]));
                    assert(cv.take(i + 1).drop_last() =~= cv.take(i as int));
                    assert(cv.take(i + 1)[i as int] == el.children@[i as int]@);
                }
                if named {
                    clear_node(&el.children[i], out);
                } else {
                    clear_node(&el.children[i], &mut kids);
                }
                proof {
                    if named {
                        assert(nodes_view(out@) =~= start + clear_nodes_spec(cv.take(i + 1)));
                    }
                }
                i += 1;
            }
            proof {
                assert(cv.take(i as int) =~= cv);
            }
            if !named {
                let e = Node::Element(Element { name: el.name.clone(), attrs: attrs_clone(&el.attrs), children: kids, void: el.void });
                let ghost ev = e@;
                out.push(e);
                proof {
                    assert(nodes_view(out@) =~= start + seq![ev]);
                }
            }
        },
        _ => {
            let ghost start = nodes_view(out@);
            out.push(node.copy());
            proof {
                assert(nodes_view(out@) =~= start + seq![node@]);
            }
        },
    }
}

/// Replace every named slot that nothing filled by its fallback children,
/// at any depth (the fallback is read again, so nested named slots go too).
pub fn clear_remaining_named_slots(nodes: &mut Vec<Node>)
    ensures
        nodes_view(final(nodes)@) == clear_nodes_spec(nodes_view(old(nodes)@)),
{
    let ghost cv = nodes_view(nodes@);
    let mut out: Vec<Node> = Vec::new();
    let mut i: usize = 0;
    proof {
        assert(cv.take(0) =~= Seq::<NodeView>::empty());
        assert(nodes_view(out@) =~= Seq::<NodeView>::empty());
    }
    while i < nodes.len()
        invariant
            i <= nodes@.len(),
            cv == nodes_view(nodes@),
            cv.len() == nodes@.len(),
            nodes_view(out@) == clear_nodes_spec(cv.take(i as int)),
        decreases nodes@.len() - i,
    {
        proof {
            assert(cv.take(i + 1).drop_last() =~= cv.take(i as int));
            assert(cv.take(i + 1)[i as int] == nodes@[i as int]@);
        }
        clear_node(&nodes[i], &mut out);
        i += 1;
    }
    proof {
        assert(cv.take(i as int) =~= cv);
    }
    *nodes = out;
}

} // verus!

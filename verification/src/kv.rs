//! Compact `key=value,key=value` override strings (CLI SPECs).
//!
//! A SPEC is split at `,`; each non-blank piece must hold `=`. Pieces are
//! applied left to right, and the first failure stops the walk, leaving the
//! effect of the pieces before it in place.

use vstd::prelude::*;

use crate::text::{
    char_index, chars_of, find_char_in, split_on, split_ranges, string_of, string_range, trim,
    trim_range,
};
use vstd::slice::slice_subrange;

verus! {

/// One piece of a SPEC: a trimmed `(key, value)`, or the message for a piece
/// without `=`.
pub enum KvItem {
    Pair(String, String),
    Bad(String),
}

pub type KvView = Result<(Seq<char>, Seq<char>), Seq<char>>;

impl View for KvItem {
    type V = KvView;

    open spec fn view(&self) -> KvView {
        match self {
            KvItem::Pair(k, v) => Ok((k@, v@)),
            KvItem::Bad(m) => Err(m@),
        }
    }
}

pub open spec fn kv_views(v: Seq<KvItem>) -> Seq<KvView> {
    v.map_values(|i: KvItem| i@)
}

/// The reading of one trimmed, non-blank piece.
pub open spec fn kv_item(p: Seq<char>) -> KvView {
    match char_index(p, '=') {
        Some(i) => Ok((trim(p.take(i)), trim(p.skip(i + 1)))),
        None => Err("SPEC needs key=value, got `"@ + p + "`"@),
    }
}

/// The readings of the non-blank pieces, in order.
pub open spec fn kv_items_of(parts: Seq<Seq<char>>) -> Seq<KvView>
    decreases parts.len(),
{
    if parts.len() == 0 {
        Seq::empty()
    } else {
        let p = trim(parts[0]);
        let rest = kv_items_of(parts.drop_first());
        if p.len() == 0 {
            rest
        } else {
            seq![kv_item(p)] + rest
        }
    }
}

/// The pieces of a SPEC.
pub open spec fn kv_items(spec: Seq<char>) -> Seq<KvView> {
    kv_items_of(split_on(spec, ','))
}

/// A settings table that a SPEC can update key by key.
pub trait KvTarget: Sized {
    type Model;

    spec fn kv_view(&self) -> Self::Model;

    /// The settings after `key=value`, or the message when the key is unknown
    /// or the value does not parse.
    spec fn kv_step(m: Self::Model, key: Seq<char>, value: Seq<char>) -> Result<Self::Model, Seq<char>>;

    fn set_key(&mut self, key: &str, value: &str) -> (r: Result<(), String>)
        ensures
            match Self::kv_step(old(self).kv_view(), key@, value@) {
                Ok(n) => r is Ok && final(self).kv_view() == n,
                Err(m) => r matches Err(e) && e@ == m && final(self).kv_view() == old(self).kv_view(),
            },
    ;
}

/// The settings after the pieces `items`, with the first failure's message.
pub open spec fn kv_fold<T: KvTarget>(init: T::Model, items: Seq<KvView>) -> (T::Model, Option<Seq<char>>)
    decreases items.len(),
{
    if items.len() == 0 {
        (init, None)
    } else {
        match items[0] {
            Err(m) => (init, Some(m)),
            Ok((k, v)) => match T::kv_step(init, k, v) {
                Ok(n) => kv_fold::<T>(n, items.drop_first()),
                Err(m) => (init, Some(m)),
            },
        }
    }
}

/// The reading of the trimmed piece `v[a..b]`.
fn kv_piece(v: &[char], a: usize, b: usize) -> (r: KvItem)
    requires
        a <= b <= v@.len(),
    ensures
        r@ == kv_item(v@.subrange(a as int, b as int)),
{
    let ghost p = v@.subrange(a as int, b as int);
    match find_char_in(v, a, b, '=') {
        Some(i) => {
            proof {
                assert(p.take(i - a) =~= v@.subrange(a as int, i as int));
                assert(p.skip(i - a + 1) =~= v@.subrange(i + 1, b as int));
            }
            let (ka, kb) = trim_range(v, a, i);
            let (va, vb) = trim_range(v, i + 1, b);
            KvItem::Pair(string_range(v, ka, kb), string_range(v, va, vb))
        },
        None => {
            let mut m = String::from_str("SPEC needs key=value, got `");
            m.append(string_of(slice_subrange(v, a, b)).as_str());
            m.append("`");
            KvItem::Bad(m)
        },
    }
}

/// Split a SPEC into its pieces (see [`kv_items`]).
pub fn kv_split(spec: &str) -> (r: Vec<KvItem>)
    ensures
        kv_views(r@) == kv_items(spec@),
{
    let v = chars_of(spec);
    let parts = split_ranges(v.as_slice(), 0, v.len(), ',');
    let ghost ps = split_on(v@, ',');
    proof {
        assert(v@.subrange(0, v@.len() as int) =~= v@);
        assert(ps.skip(0) =~= ps);
    }
    let mut out: Vec<KvItem> = Vec::new();
    let mut i: usize = 0;
    while i < parts.len()
        invariant
            i <= parts@.len(),
            parts@.len() == ps.len(),
            ps == split_on(v@, ','),
            v@ == spec@,
            forall|k: int|
                0 <= k < parts@.len() ==> {
                    &&& (#[trigger] parts@[k]).0 <= parts@[k].1 <= v@.len()
                    &&& v@.subrange(parts@[k].0 as int, parts@[k].1 as int) == ps[k]
                },
            kv_items(spec@) == kv_views(out@) + kv_items_of(ps.skip(i as int)),
        decreases parts@.len() - i,
    {
        let (a, b) = parts[i];
        let (ta, tb) = trim_range(v.as_slice(), a, b);
        proof {
            assert(ps.skip(i as int).drop_first() =~= ps.skip(i + 1));
            assert(ps.skip(i as int)[0] == ps[i as int]);
        }
        if ta < tb {
            let ghost before = out@;
            out.push(kv_piece(v.as_slice(), ta, tb));
            proof {
                assert(kv_views(out@) =~= kv_views(before) + seq![kv_item(v@.subrange(ta as int, tb as int))]);
                assert(kv_views(out@) + kv_items_of(ps.skip(i + 1)) =~= kv_views(before) + kv_items_of(ps.skip(i as int)));
            }
        }
        i += 1;
    }
    proof {
        assert(ps.skip(parts@.len() as int) =~= Seq::<Seq<char>>::empty());
        assert(kv_views(out@) + Seq::<KvView>::empty() =~= kv_views(out@));
    }
    out
}

/// Apply every piece of `spec` to `cfg`, stopping at the first failure.
pub fn apply_kv<T: KvTarget>(cfg: &mut T, spec: &str) -> (r: Result<(), String>)
    ensures
        final(cfg).kv_view() == kv_fold::<T>(old(cfg).kv_view(), kv_items(spec@)).0,
        match r {
            Ok(_) => kv_fold::<T>(old(cfg).kv_view(), kv_items(spec@)).1 is None,
            Err(m) => kv_fold::<T>(old(cfg).kv_view(), kv_items(spec@)).1 == Some(m@),
        },
{
    let items = kv_split(spec);
    let ghost iv = kv_views(items@);
    let ghost start = cfg.kv_view();
    let mut i: usize = 0;
    proof {
        assert(iv.skip(0) =~= iv);
    }
    while i < items.len()
        invariant
            i <= items@.len(),
            iv == kv_views(items@),
            iv == kv_items(spec@),
            start == old(cfg).kv_view(),
            kv_fold::<T>(start, iv) == kv_fold::<T>(cfg.kv_view(), iv.skip(i as int)),
        decreases items@.len() - i,
    {
        proof {
            assert(iv.skip(i as int).drop_first() =~= iv.skip(i + 1));
            assert(iv.skip(i as int)[0] == items@[i as int]@);
        }
        match &items[i] {
            KvItem::Bad(m) => {
                return Err(m.clone());
            },
            KvItem::Pair(k, v) => {
                let r = cfg.set_key(k.as_str(), v.as_str());
                match r {
                    Ok(_) => {},
                    Err(m) => {
                        return Err(m);
                    },
                }
            },
        }
        i += 1;
    }
    proof {
        assert(iv.skip(items@.len() as int) =~= Seq::<KvView>::empty());
    }
    Ok(())
}

} // verus!

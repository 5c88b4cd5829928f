//! Unix path components (`Path::components`) and the comparisons built on them.
//!
//! A path is read as its components: `/` for the root, `.` for a leading
//! current-directory marker of a relative path, and its other non-empty
//! segments (`.` segments elsewhere and repeated separators are dropped).

use vstd::prelude::*;

use crate::text::{chars_of, join, join_strings, range_eq, split_on, split_ranges, string_range, views};

verus! {

/// Non-empty segments other than `.`.
pub open spec fn normal_parts(segs: Seq<Seq<char>>) -> Seq<Seq<char>>
    decreases segs.len(),
{
    if segs.len() == 0 {
        Seq::empty()
    } else {
        let rest = normal_parts(segs.drop_first());
        if segs[0].len() == 0 || segs[0] == "."@ {
            rest
        } else {
            seq![segs[0]] + rest
        }
    }
}

/// `Path::components`, each as text.
pub open spec fn components(p: Seq<char>) -> Seq<Seq<char>> {
    let segs = split_on(p, '/');
    if p.len() > 0 && p[0] == '/' {
        seq!["/"@] + normal_parts(segs)
    } else if segs.len() > 0 && segs[0] == "."@ {
        seq!["."@] + normal_parts(segs.drop_first())
    } else {
        normal_parts(segs)
    }
}

/// `a` is a prefix of `b`.
pub open spec fn is_prefix_of(a: Seq<Seq<char>>, b: Seq<Seq<char>>) -> bool {
    a.len() <= b.len() && b.take(a.len() as int) == a
}

/// `Path::starts_with`: whole components match.
pub open spec fn path_starts_with(p: Seq<char>, base: Seq<char>) -> bool {
    is_prefix_of(components(base), components(p))
}

/// `Path::strip_prefix`, as the remaining components.
pub open spec fn strip_prefix_spec(p: Seq<char>, base: Seq<char>) -> Option<Seq<Seq<char>>> {
    if path_starts_with(p, base) {
        Some(components(p).skip(components(base).len() as int))
    } else {
        None
    }
}

/// `Path::file_name`: the last component when it is a name.
pub open spec fn file_name_spec(p: Seq<char>) -> Option<Seq<char>> {
    let c = components(p);
    if c.len() > 0 && c.last() != "/"@ && c.last() != "."@ && c.last() != ".."@ {
        Some(c.last())
    } else {
        None
    }
}

/// The normal segments of `v[lo..hi]` split at `/`.
fn normal_parts_of(v: &[char], parts: &Vec<(usize, usize)>, from: usize, Ghost(ps): Ghost<Seq<Seq<char>>>) -> (r: Vec<String>)
    requires
        from <= parts@.len(),
        parts@.len() == ps.len(),
        forall|k: int|
            0 <= k < parts@.len() ==> {
                &&& (#[trigger] parts@[k]).0 <= parts@[k].1 <= v@.len()
                &&& v@.subrange(parts@[k].0 as int, parts@[k].1 as int) == ps[k]
            },
    ensures
        views(r@) == normal_parts(ps.skip(from as int)),
{
    let dot = chars_of(".");
    let mut out: Vec<String> = Vec::new();
    let mut i: usize = from;
    proof {
        assert(views(out@) + normal_parts(ps.skip(from as int)) =~= normal_parts(ps.skip(from as int)));
    }
    while i < parts.len()
        invariant
            from <= i <= parts@.len(),
            parts@.len() == ps.len(),
            dot@ == "."@,
            forall|k: int|
                0 <= k < parts@.len() ==> {
                    &&& (#[trigger] parts@[k]).0 <= parts@[k].1 <= v@.len()
                    &&& v@.subrange(parts@[k].0 as int, parts@[k].1 as int) == ps[k]
                },
            normal_parts(ps.skip(from as int)) == views(out@) + normal_parts(ps.skip(i as int)),
        decreases parts@.len() - i,
    {
        let (a, b) = parts[i];
        proof {
            assert(ps.skip(i as int).drop_first() =~= ps.skip(i + 1));
            assert(ps.skip(i as int)[0] == ps[i as int]);
        }
        if a < b && !range_eq(v, a, b, dot.as_slice()) {
            let ghost before = views(out@);
            out.push(string_range(v, a, b));
            proof {
                assert(views(out@) =~= before + seq![ps[i as int]]);
                assert(views(out@) + normal_parts(ps.skip(i + 1)) =~= before + normal_parts(ps.skip(i as int)));
            }
        }
        i += 1;
    }
    proof {
        assert(ps.skip(parts@.len() as int) =~= Seq::<Seq<char>>::empty());
        assert(views(out@) + Seq::<Seq<char>>::empty() =~= views(out@));
    }
    out
}

/// `Path::components` of `p`, each as text.
pub fn components_of(p: &str) -> (r: Vec<String>)
    ensures
        views(r@) == components(p@),
{
    let v = chars_of(p);
    let parts = split_ranges(v.as_slice(), 0, v.len(), '/');
    let ghost ps = split_on(v@, '/');
    proof {
        assert(v@.subrange(0, v@.len() as int) =~= v@);
        crate::text::lemma_split_nonempty(v@, '/');
        assert(ps.skip(0) =~= ps);
        assert(ps.skip(1) =~= ps.drop_first());
    }
    let dot = chars_of(".");
    if v.len() > 0 && v[0] == '/' {
        let rest = normal_parts_of(v.as_slice(), &parts, 0, Ghost(ps));
        let mut out: Vec<String> = Vec::new();
        out.push(String::from_str("/"));
        let mut i: usize = 0;
        while i < rest.len()
            invariant
                i <= rest@.len(),
                views(out@) == seq!["/"@] + views(rest@).take(i as int),
            decreases rest@.len() - i,
        {
            let ghost before = views(out@);
            out.push(String::from_str(rest[i].as_str()));
            proof {
                assert(views(out@) =~= before.push(rest@[i as int]@));
                assert(views(rest@).take(i + 1) =~= views(rest@).take(i as int).push(rest@[i as int]@));
            }
            i += 1;
        }
        proof {
            assert(views(rest@).take(rest@.len() as int) =~= views(rest@));
        }
        out
    } else {
        let (a, b) = parts[0];
        if range_eq(v.as_slice(), a, b, dot.as_slice()) {
            let rest = normal_parts_of(v.as_slice(), &parts, 1, Ghost(ps));
            let mut out: Vec<String> = Vec::new();
            out.push(String::from_str("."));
            let mut i: usize = 0;
            while i < rest.len()
                invariant
                    i <= rest@.len(),
                    views(out@) == seq!["."@] + views(rest@).take(i as int),
                decreases rest@.len() - i,
            {
                let ghost before = views(out@);
                out.push(String::from_str(rest[i].as_str()));
                proof {
                    assert(views(out@) =~= before.push(rest@[i as int]@));
                    assert(views(rest@).take(i + 1) =~= views(rest@).take(i as int).push(rest@[i as int]@));
                }
                i += 1;
            }
            proof {
                assert(views(rest@).take(rest@.len() as int) =~= views(rest@));
            }
            out
        } else {
            normal_parts_of(v.as_slice(), &parts, 0, Ghost(ps))
        }
    }
}

fn strings_eq(a: &Vec<String>, b: &Vec<String>, n: usize) -> (r: bool)
    requires
        n <= a@.len(),
        n <= b@.len(),
    ensures
        r == (views(a@).take(n as int) == views(b@).take(n as int)),
{
    let mut i: usize = 0;
    while i < n
        invariant
            i <= n,
            n <= a@.len(),
            n <= b@.len(),
            views(a@).take(i as int) == views(b@).take(i as int),
        decreases n - i,
    {
        if !crate::text::str_eq(a[i].as_str(), b[i].as_str()) {
            proof {
                assert(views(a@).take(n as int)[i as int] != views(b@).take(n as int)[i as int]);
            }
            return false;
        }
        proof {
            assert(views(a@).take(i + 1) =~= views(a@).take(i as int).push(a@[i as int]@));
            assert(views(b@).take(i + 1) =~= views(b@).take(i as int).push(b@[i as int]@));
        }
        i += 1;
    }
    true
}

/// `Path::starts_with` on whole components.
pub fn starts_with_path(p: &str, base: &str) -> (r: bool)
    ensures
        r == path_starts_with(p@, base@),
{
    let pc = components_of(p);
    let bc = components_of(base);
    if bc.len() > pc.len() {
        return false;
    }
    let r = strings_eq(&pc, &bc, bc.len());
    proof {
        assert(views(bc@).take(bc@.len() as int) =~= views(bc@));
    }
    r
}

/// `Path::file_name` as text.
pub fn file_name(p: &str) -> (r: Option<String>)
    ensures
        match r {
            Some(n) => file_name_spec(p@) == Some(n@),
            None => file_name_spec(p@) is None,
        },
{
    let c = components_of(p);
    if c.len() == 0 {
        return None;
    }
    let last = c[c.len() - 1].as_str();
    if crate::text::str_eq(last, "/") || crate::text::str_eq(last, ".") || crate::text::str_eq(last, "..") {
        None
    } else {
        Some(String::from_str(last))
    }
}

/// The text of a component list built by `PathBuf::push` (root first).
pub open spec fn render(cs: Seq<Seq<char>>) -> Seq<char> {
    if cs.len() > 0 && cs[0] == "/"@ {
        "/"@ + crate::text::join(cs.drop_first(), "/"@)
    } else {
        crate::text::join(cs, "/"@)
    }
}

pub fn render_components(cs: &Vec<String>) -> (r: String)
    ensures
        r@ == render(views(cs@)),
{
    if cs.len() > 0 && crate::text::str_eq(cs[0].as_str(), "/") {
        let mut rest: Vec<String> = Vec::new();
        let mut i: usize = 1;
        while i < cs.len()
            invariant
                1 <= i <= cs@.len(),
                views(rest@) == views(cs@).drop_first().take(i - 1),
            decreases cs@.len() - i,
        {
            let ghost before = views(rest@);
            rest.push(String::from_str(cs[i].as_str()));
            proof {
                assert(views(rest@) =~= before.push(cs@[i as int]@));
                assert(views(cs@).drop_first().take(i as int) =~= views(cs@).drop_first().take(i - 1).push(cs@[i as int]@));
            }
            i += 1;
        }
        proof {
            assert(views(cs@).drop_first().take(cs@.len() - 1) =~= views(cs@).drop_first());
        }
        let mut out = String::from_str("/");
        out.append(crate::text::join_strings(&rest, "/").as_str());
        out
    } else {
        crate::text::join_strings(cs, "/")
    }
}

/// Lexical normalization: `.` dropped, `..` removes the previous component
/// (never the root).
pub open spec fn normalize_comps(cs: Seq<Seq<char>>) -> Seq<Seq<char>>
    decreases cs.len(),
{
    if cs.len() == 0 {
        Seq::empty()
    } else {
        let prev = normalize_comps(cs.drop_last());
        let c = cs.last();
        if c == ".."@ {
            if prev.len() > 0 && prev.last() != "/"@ {
                prev.drop_last()
            } else {
                prev
            }
        } else if c == "."@ {
            prev
        } else {
            prev.push(c)
        }
    }
}

/// `..`-resolving normalization of a path, as text.
pub open spec fn normalize_spec(p: Seq<char>) -> Seq<char> {
    render(normalize_comps(components(p)))
}

pub fn normalize_path(p: &str) -> (r: String)
    ensures
        r@ == normalize_spec(p@),
{
    let cs = components_of(p);
    let ghost cv = views(cs@);
    let mut out: Vec<String> = Vec::new();
    let mut i: usize = 0;
    proof {
        assert(cv.take(0) =~= Seq::<Seq<char>>::empty());
        assert(views(out@) =~= Seq::<Seq<char>>::empty());
    }
    while i < cs.len()
        invariant
            i <= cs@.len(),
            cv == views(cs@),
            cv == components(p@),
            views(out@) == normalize_comps(cv.take(i as int)),
        decreases cs@.len() - i,
    {
        proof {
            assert(cv.take(i + 1).drop_last() =~= cv.take(i as int));
            assert(cv.take(i + 1).last() == cs@[i as int]@);
        }
        let c = cs[i].as_str();
        let ghost before = views(out@);
        if crate::text::str_eq(c, "..") {
            if out.len() > 0 && !crate::text::str_eq(out[out.len() - 1].as_str(), "/") {
                out.pop();
                proof {
                    assert(views(out@) =~= before.drop_last());
                }
            }
        } else if crate::text::str_eq(c, ".") {
        } else {
            out.push(String::from_str(c));
            proof {
                assert(views(out@) =~= before.push(cs@[i as int]@));
            }
        }
        i += 1;
    }
    proof {
        assert(cv.take(cs@.len() as int) =~= cv);
    }
    render_components(&out)
}

/// Index of the last `.` in a file name.
pub open spec fn last_dot(name: Seq<char>) -> Option<int>
    decreases name.len(),
{
    if name.len() == 0 {
        None
    } else if name.last() == '.' {
        Some(name.len() - 1)
    } else {
        last_dot(name.drop_last())
    }
}

proof fn lemma_last_dot(name: Seq<char>)
    ensures
        last_dot(name) matches Some(k) ==> 0 <= k < name.len() && name[k] == '.' && forall|j: int|
            k < j < name.len() ==> name[j] != '.',
        last_dot(name) is None ==> forall|j: int| 0 <= j < name.len() ==> name[j] != '.',
    decreases name.len(),
{
    if name.len() > 0 && name.last() != '.' {
        lemma_last_dot(name.drop_last());
        assert forall|j: int| 0 <= j < name.len() - 1 implies name[j] == name.drop_last()[j] by {}
        assert(name[name.len() - 1] != '.');
    }
}

/// `Path::extension`: after the last `.` of the file name, unless that dot
/// starts the name.
pub open spec fn extension_spec(p: Seq<char>) -> Option<Seq<char>> {
    match file_name_spec(p) {
        Some(n) => match last_dot(n) {
            Some(k) => if k > 0 { Some(n.skip(k + 1)) } else { None },
            None => None,
        },
        None => None,
    }
}

/// `Path::file_stem`: the file name before that dot, or the whole name.
pub open spec fn file_stem_spec(p: Seq<char>) -> Option<Seq<char>> {
    match file_name_spec(p) {
        Some(n) => match last_dot(n) {
            Some(k) => if k > 0 { Some(n.take(k)) } else { Some(n) },
            None => Some(n),
        },
        None => None,
    }
}

/// Position of the last `.` of `v` (see [`last_dot`]).
fn last_dot_of(v: &[char]) -> (r: Option<usize>)
    ensures
        match r {
            Some(k) => last_dot(v@) == Some(k as int) && k < v@.len(),
            None => last_dot(v@) is None,
        },
{
    proof {
        lemma_last_dot(v@);
    }
    let mut i = v.len();
    while i > 0
        invariant
            i <= v@.len(),
            forall|j: int| i <= j < v@.len() ==> v@[j] != '.',
            last_dot(v@) matches Some(k) ==> 0 <= k < v@.len() && v@[k] == '.' && forall|j: int|
                k < j < v@.len() ==> v@[j] != '.',
            last_dot(v@) is None ==> forall|j: int| 0 <= j < v@.len() ==> v@[j] != '.',
        decreases i,
    {
        if v[i - 1] == '.' {
            proof {
                match last_dot(v@) {
                    Some(k) => {
                        if k < i - 1 {
                            assert(v@[i - 1] != '.');
                        }
                    },
                    None => {},
                }
            }
            return Some(i - 1);
        }
        i -= 1;
    }
    None
}

pub fn extension(p: &str) -> (r: Option<String>)
    ensures
        match r {
            Some(e) => extension_spec(p@) == Some(e@),
            None => extension_spec(p@) is None,
        },
{
    match file_name(p) {
        Some(n) => {
            let v = chars_of(n.as_str());
            let len = v.len();
            match last_dot_of(v.as_slice()) {
                Some(k) => if k > 0 {
                    assert(k < len);
                    proof {
                        assert(v@.subrange(k + 1, v@.len() as int) =~= v@.skip(k + 1));
                    }
                    Some(string_range(v.as_slice(), k + 1, v.len()))
                } else {
                    None
                },
                None => None,
            }
        },
        None => None,
    }
}

pub fn file_stem(p: &str) -> (r: Option<String>)
    ensures
        match r {
            Some(e) => file_stem_spec(p@) == Some(e@),
            None => file_stem_spec(p@) is None,
        },
{
    match file_name(p) {
        Some(n) => {
            let v = chars_of(n.as_str());
            match last_dot_of(v.as_slice()) {
                Some(k) => if k > 0 {
                    proof {
                        assert(v@.subrange(0, k as int) =~= v@.take(k as int));
                    }
                    Some(string_range(v.as_slice(), 0, k))
                } else {
                    Some(n)
                },
                None => Some(n),
            }
        },
        None => None,
    }
}


/// `Path::parent`: the path without its last component (none for the root
/// or an empty path).
pub open spec fn parent_spec(p: Seq<char>) -> Option<Seq<char>> {
    let c = components(p);
    if c.len() == 0 || (c.len() == 1 && c[0] == "/"@) {
        None
    } else {
        Some(render(c.drop_last()))
    }
}

pub fn parent(p: &str) -> (r: Option<String>)
    ensures
        match r {
            Some(x) => parent_spec(p@) == Some(x@),
            None => parent_spec(p@) is None,
        },
{
    let mut c = components_of(p);
    if c.len() == 0 || (c.len() == 1 && crate::text::str_eq(c[0].as_str(), "/")) {
        return None;
    }
    let ghost cv = views(c@);
    c.pop();
    proof {
        assert(views(c@) =~= cv.drop_last());
    }
    Some(render_components(&c))
}

/// The ancestors of a path, itself first, as `PathBuf::pop` visits them.
pub open spec fn ancestors_spec(p: Seq<char>) -> Seq<Seq<char>> {
    let c = components(p);
    let low: int = if c.len() > 0 && c[0] == "/"@ { 1 } else { 0 };
    Seq::new((c.len() - low + 1) as nat, |i: int| render(c.take(c.len() - i)))
}

pub fn ancestors(p: &str) -> (r: Vec<String>)
    ensures
        views(r@) == ancestors_spec(p@),
{
    let c = components_of(p);
    let ghost cv = views(c@);
    let low: usize = if c.len() > 0 && crate::text::str_eq(c[0].as_str(), "/") { 1 } else { 0 };
    let mut out: Vec<String> = Vec::new();
    let mut k = c.len();
    let mut cur: Vec<String> = Vec::new();
    let mut j: usize = 0;
    while j < c.len()
        invariant
            j <= c@.len(),
            cv == views(c@),
            views(cur@) == cv.take(j as int),
        decreases c@.len() - j,
    {
        let ghost before = views(cur@);
        cur.push(String::from_str(c[j].as_str()));
        proof {
            assert(views(cur@) =~= before.push(cv[j as int]));
            assert(cv.take(j + 1) =~= cv.take(j as int).push(cv[j as int]));
        }
        j += 1;
    }
    loop
        invariant
            low <= k <= c@.len(),
            low <= 1,
            cv == views(c@),
            cv == components(p@),
            low == (if cv.len() > 0 && cv[0] == "/"@ { 1int } else { 0int }),
            views(cur@) == cv.take(k as int),
            out@.len() == c@.len() - k,
            forall|i: int| 0 <= i < out@.len() ==> (#[trigger] out@[i])@ == render(cv.take(cv.len() - i)),
        decreases k,
    {
        out.push(render_components(&cur));
        if k == low {
            proof {
                assert(views(out@) =~= ancestors_spec(p@));
            }
            return out;
        }
        let ghost before = views(cur@);
        cur.pop();
        proof {
            assert(views(cur@) =~= cv.take(k - 1));
        }
        k -= 1;
    }
}

/// `Path::strip_prefix`: the components of `path` after those of `base`,
/// when `base` is a prefix.
pub fn strip_prefix(path: &str, base: &str) -> (r: Option<Vec<String>>)
    ensures
        match r {
            Some(v) => strip_prefix_spec(path@, base@) == Some(views(v@)),
            None => strip_prefix_spec(path@, base@) is None,
        },
{
    if !starts_with_path(path, base) {
        return None;
    }
    let pc = components_of(path);
    let bc = components_of(base);
    let ghost pv = views(pc@);
    let n = bc.len();
    let mut out: Vec<String> = Vec::new();
    let mut i = n;
    proof {
        assert(pv.skip(n as int).take(0) =~= Seq::<Seq<char>>::empty());
    }
    while i < pc.len()
        invariant
            n <= i <= pc@.len(),
            pv == views(pc@),
            views(out@) == pv.skip(n as int).take(i - n),
        decreases pc@.len() - i,
    {
        let ghost before = views(out@);
        out.push(String::from_str(pc[i].as_str()));
        proof {
            assert(views(out@) =~= before.push(pv[i as int]));
            assert(pv.skip(n as int).take(i + 1 - n) =~= pv.skip(n as int).take(i - n).push(pv[i as int]));
        }
        i += 1;
    }
    proof {
        assert(pv.skip(n as int).take(pc@.len() - n) =~= pv.skip(n as int));
    }
    Some(out)
}

/// A segment that is a component: non-empty and not `.`.
pub open spec fn is_normal_seg(s: Seq<char>) -> bool {
    s.len() > 0 && s != "."@
}

/// One past the last component segment (0 when there is none).
pub open spec fn normal_end(segs: Seq<Seq<char>>) -> int
    decreases segs.len(),
{
    if segs.len() == 0 {
        0
    } else if is_normal_seg(segs.last()) {
        segs.len() as int
    } else {
        normal_end(segs.drop_last())
    }
}

/// The segment at or after `from` that follows `n` component segments.
pub open spec fn skip_normals(segs: Seq<Seq<char>>, from: int, n: nat) -> int
    decreases segs.len() - from,
{
    if from < 0 || from >= segs.len() {
        segs.len() as int
    } else if !is_normal_seg(segs[from]) {
        skip_normals(segs, from + 1, n)
    } else if n == 0 {
        from
    } else {
        skip_normals(segs, from + 1, (n - 1) as nat)
    }
}

/// 1 when `p` starts with a root or a `.` component.
pub open spec fn lead_count(p: Seq<char>) -> nat {
    let segs = split_on(p, '/');
    if p.len() > 0 && p[0] == '/' {
        1
    } else if segs.len() > 0 && segs[0] == "."@ {
        1
    } else {
        0
    }
}

/// The text of `p` after its first `k` components, as `Path::strip_prefix`
/// leaves it: the original text from the next component on, without
/// trailing separators or `.` segments.
pub open spec fn rest_text(p: Seq<char>, k: nat) -> Seq<char> {
    let segs = split_on(p, '/');
    let e = normal_end(segs);
    if k == 0 {
        if e > 0 {
            join(segs.take(e), "/"@)
        } else {
            p
        }
    } else {
        let a = skip_normals(segs, 0, (k - lead_count(p)) as nat);
        if a < e {
            join(segs.subrange(a, e), "/"@)
        } else {
            Seq::empty()
        }
    }
}

/// `Path::strip_prefix` as text.
pub open spec fn strip_prefix_text(p: Seq<char>, base: Seq<char>) -> Option<Seq<char>> {
    if path_starts_with(p, base) {
        Some(rest_text(p, components(base).len()))
    } else {
        None
    }
}

fn is_normal_segment(s: &str) -> (r: bool)
    ensures
        r == is_normal_seg(s@),
{
    proof {
        reveal_strlit(".");
    }
    s.unicode_len() > 0 && !crate::text::str_eq(s, ".")
}

/// `Path::strip_prefix(base)` on `p`, as text (see [`strip_prefix_text`]).
pub fn strip_prefix_str(p: &str, base: &str) -> (r: Option<String>)
    ensures
        match r {
            Some(t) => strip_prefix_text(p@, base@) == Some(t@),
            None => strip_prefix_text(p@, base@) is None,
        },
{
    if !starts_with_path(p, base) {
        return None;
    }
    let bc = components_of(base);
    let k = bc.len();
    proof {
        assert(k == components(base@).len());
    }
    let v = chars_of(p);
    let ranges = split_ranges(v.as_slice(), 0, v.len(), '/');
    let ghost segs = split_on(p@, '/');
    proof {
        assert(v@.subrange(0, v@.len() as int) =~= v@);
    }
    let mut sv: Vec<String> = Vec::new();
    let mut i: usize = 0;
    while i < ranges.len()
        invariant
            i <= ranges@.len(),
            v@ == p@,
            ranges@.len() == segs.len(),
            segs == split_on(v@.subrange(0, v@.len() as int), '/'),
            forall|j: int|
                0 <= j < ranges@.len() ==> {
                    &&& (#[trigger] ranges@[j]).0 <= ranges@[j].1 <= v@.len()
                    &&& v@.subrange(ranges@[j].0 as int, ranges@[j].1 as int) == segs[j]
                },
            views(sv@) == segs.take(i as int),
        decreases ranges@.len() - i,
    {
        let (a, b) = ranges[i];
        let ghost before = views(sv@);
        sv.push(string_range(v.as_slice(), a, b));
        proof {
            assert(views(sv@) =~= before.push(segs[i as int]));
            assert(segs.take(i + 1) =~= segs.take(i as int).push(segs[i as int]));
        }
        i += 1;
    }
    proof {
        assert(segs.take(i as int) =~= segs);
    }
    let n = sv.len();
    let mut e = n;
    while e > 0 && !is_normal_segment(sv[e - 1].as_str())
        invariant
            e <= n,
            n == sv@.len(),
            views(sv@) == segs,
            normal_end(segs) == normal_end(segs.take(e as int)),
        decreases e,
    {
        proof {
            assert(segs.take(e as int).drop_last() =~= segs.take(e - 1));
            assert(segs.take(e as int).last() == sv@[e - 1]@);
        }
        e -= 1;
    }
    proof {
        if e > 0 {
            assert(segs.take(e as int).last() == sv@[e - 1]@);
            assert(is_normal_seg(segs.take(e as int).last()));
            assert(normal_end(segs.take(e as int)) == e as int);
        } else {
            assert(segs.take(0) =~= Seq::<Seq<char>>::empty());
        }
        assert(normal_end(segs) == e as int);
    }
    let mut parts: Vec<String> = Vec::new();
    if k == 0 {
        if e == 0 {
            return Some(String::from_str(p));
        }
        let mut j: usize = 0;
        while j < e
            invariant
                j <= e <= n,
                n == sv@.len(),
                views(sv@) == segs,
                views(parts@) == segs.take(j as int),
            decreases e - j,
        {
            let ghost before = views(parts@);
            parts.push(sv[j].clone());
            proof {
                assert(views(parts@) =~= before.push(segs[j as int]));
                assert(segs.take(j + 1) =~= segs.take(j as int).push(segs[j as int]));
            }
            j += 1;
        }
        return Some(join_strings(&parts, "/"));
    }
    let lead: usize = if v.len() > 0 && v[0] == '/' {
        1
    } else if n > 0 && crate::text::str_eq(sv[0].as_str(), ".") {
        1
    } else {
        0
    };
    proof {
        reveal_strlit(".");
        if n > 0 {
            assert(segs[0] == sv@[0]@);
        }
        assert(lead == lead_count(p@));
    }
    let ghost n0: nat = (k - lead) as nat;
    let mut m: usize = k - lead;
    let mut a: usize = 0;
    let mut done = false;
    while a < n && !done
        invariant
            a <= n,
            n == sv@.len(),
            views(sv@) == segs,
            skip_normals(segs, 0, n0) == skip_normals(segs, a as int, m as nat),
            done ==> a < n && is_normal_seg(segs[a as int]) && m == 0,
        decreases n - a + (if done { 0int } else { 1int }),
    {
        proof {
            assert(segs[a as int] == sv@[a as int]@);
        }
        if !is_normal_segment(sv[a].as_str()) {
            a += 1;
        } else if m == 0 {
            done = true;
        } else {
            m -= 1;
            a += 1;
        }
    }
    proof {
        if a < n {
            assert(segs[a as int] == sv@[a as int]@);
        }
        assert(skip_normals(segs, a as int, m as nat) == a as int);
        assert(skip_normals(segs, 0, (k - lead_count(p@)) as nat) == a as int);
    }
    if a >= e {
        let empty = String::new();
        proof {
            assert(empty@ =~= Seq::<char>::empty());
        }
        return Some(empty);
    }
    let mut j: usize = a;
    while j < e
        invariant
            a <= j <= e <= n,
            n == sv@.len(),
            views(sv@) == segs,
            views(parts@) == segs.subrange(a as int, j as int),
        decreases e - j,
    {
        let ghost before = views(parts@);
        parts.push(sv[j].clone());
        proof {
            assert(views(parts@) =~= before.push(segs[j as int]));
            assert(segs.subrange(a as int, j + 1) =~= segs.subrange(a as int, j as int).push(segs[j as int]));
        }
        j += 1;
    }
    Some(join_strings(&parts, "/"))
}

} // verus!

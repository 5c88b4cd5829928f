//! Build-time environment settings (`[env]`) and dotenv-style text.
//!
//! Reading `.env` / `.dev.vars` and setting process variables is the
//! application's job; this module parses the text and holds the settings.

use vstd::prelude::*;

use crate::table::{entries_view, table_insert, StrMap};
use crate::text::{
    contains_str, views, char_index, chars_of, find_char_in, has_prefix, line_ranges, lines, matches_at, string_range,
    trim, trim_range,
};

verus! {

/// `[env]` — inline vars + optional `.env` / `.dev.vars` loading.
#[derive(Debug, Clone, PartialEq, Eq)]
pub struct EnvConfig {
    /// Load `.env` and `.dev.vars` from the config directory when true.
    pub load_files: bool,
    /// Inline build-time env vars from statica.toml.
    pub vars: StrMap,
}

impl Default for EnvConfig {
    /// Files are loaded; no inline vars.
    fn default() -> (r: Self)
        ensures
            r.load_files,
            r.vars.view_entries() == Seq::<(Seq<char>, Seq<char>)>::empty(),
    {
        EnvConfig { load_files: true, vars: StrMap::new() }
    }
}

/// A value with one pair of matching surrounding quotes removed.
pub open spec fn env_value(raw: Seq<char>) -> Seq<char> {
    if raw.len() >= 2 && (raw[0] == '"' || raw[0] == '\'') && raw.last() == raw[0] {
        raw.subrange(1, raw.len() - 1)
    } else {
        raw
    }
}

/// The `KEY=VALUE` entry of one line, if it holds one: blank lines, `#`
/// comments, lines without `=` and empty keys hold none; `export ` is ignored.
pub open spec fn env_line(line: Seq<char>) -> Option<(Seq<char>, Seq<char>)> {
    let l = trim(line);
    if l.len() == 0 || l[0] == '#' {
        None
    } else {
        let l2 = trim(if has_prefix(l, "export "@) { l.skip(7) } else { l });
        match char_index(l2, '=') {
            Some(i) => {
                let key = trim(l2.take(i));
                if key.len() == 0 {
                    None
                } else {
                    Some((key, env_value(trim(l2.skip(i + 1)))))
                }
            },
            None => None,
        }
    }
}

/// Entries of `ls` inserted in order into `t` (later lines win).
pub open spec fn env_fold(t: Seq<(Seq<char>, Seq<char>)>, ls: Seq<Seq<char>>) -> Seq<(Seq<char>, Seq<char>)>
    decreases ls.len(),
{
    if ls.len() == 0 {
        t
    } else {
        let t2 = match env_line(ls[0]) {
            Some((k, v)) => table_insert(t, k, v),
            None => t,
        };
        env_fold(t2, ls.drop_first())
    }
}

/// The variables of a dotenv text.
pub open spec fn parse_env_spec(text: Seq<char>) -> Seq<(Seq<char>, Seq<char>)> {
    env_fold(Seq::empty(), lines(text))
}

/// Strip one pair of matching `"` or `'` quotes.
pub fn parse_env_value(raw: &str) -> (r: String)
    ensures
        r@ == env_value(raw@),
{
    let v = chars_of(raw);
    range_value(v.as_slice(), 0, v.len())
}

fn range_value(v: &[char], a: usize, b: usize) -> (r: String)
    requires
        a <= b <= v@.len(),
    ensures
        r@ == env_value(v@.subrange(a as int, b as int)),
{
    let ghost s = v@.subrange(a as int, b as int);
    if b - a >= 2 && (v[a] == '"' || v[a] == '\'') && v[b - 1] == v[a] {
        proof {
            assert(s[0] == v@[a as int]);
            assert(s.last() == v@[b - 1]);
            assert(s.subrange(1, s.len() - 1) =~= v@.subrange(a + 1, b - 1));
        }
        string_range(v, a + 1, b - 1)
    } else {
        proof {
            if s.len() >= 2 {
                assert(s[0] == v@[a as int]);
                assert(s.last() == v@[b - 1]);
            }
        }
        string_range(v, a, b)
    }
}

/// The entry of the line `v[a..b]` (see [`env_line`]).
fn line_entry(v: &[char], a: usize, b: usize) -> (r: Option<(String, String)>)
    requires
        a <= b <= v@.len(),
    ensures
        match r {
            Some((k, val)) => env_line(v@.subrange(a as int, b as int)) == Some((k@, val@)),
            None => env_line(v@.subrange(a as int, b as int)) is None,
        },
{
    let ghost line = v@.subrange(a as int, b as int);
    let (a1, b1) = trim_range(v, a, b);
    let ghost l = v@.subrange(a1 as int, b1 as int);
    if a1 == b1 || v[a1] == '#' {
        return None;
    }
    let ex = chars_of("export ");
    proof {
        reveal_strlit("export ");
    }
    let exported = b1 - a1 >= 7 && matches_at(v, a1, ex.as_slice());
    proof {
        if has_prefix(l, "export "@) {
            assert(l.subrange(0, 7) =~= v@.subrange(a1 as int, a1 + 7));
        }
        if exported {
            assert(l.subrange(0, 7) =~= v@.subrange(a1 as int, a1 + 7));
            assert(l.skip(7) =~= v@.subrange(a1 + 7, b1 as int));
        }
    }
    let (a2, b2) = if exported {
        trim_range(v, a1 + 7, b1)
    } else {
        trim_range(v, a1, b1)
    };
    let ghost l2 = v@.subrange(a2 as int, b2 as int);
    match find_char_in(v, a2, b2, '=') {
        Some(i) => {
            proof {
                assert(l2.take(i - a2) =~= v@.subrange(a2 as int, i as int));
                assert(l2.skip(i - a2 + 1) =~= v@.subrange(i + 1, b2 as int));
            }
            let (ka, kb) = trim_range(v, a2, i);
            if ka == kb {
                return None;
            }
            let (va, vb) = trim_range(v, i + 1, b2);
            let key = string_range(v, ka, kb);
            let value = range_value(v, va, vb);
            Some((key, value))
        },
        None => None,
    }
}

/// Parse a dotenv-style text (`KEY=VALUE`, `#` comments, optional quotes).
pub fn parse_env_text(text: &str) -> (r: StrMap)
    ensures
        r.view_entries() == parse_env_spec(text@),
{
    let v = chars_of(text);
    let ranges = line_ranges(v.as_slice());
    let ghost ls = lines(v@);
    let mut out = StrMap::new();
    let mut i: usize = 0;
    proof {
        assert(ls.skip(0) =~= ls);
    }
    while i < ranges.len()
        invariant
            i <= ranges@.len(),
            ranges@.len() == ls.len(),
            ls == lines(v@),
            v@ == text@,
            forall|k: int|
                0 <= k < ranges@.len() ==> {
                    &&& (#[trigger] ranges@[k]).0 <= ranges@[k].1 <= v@.len()
                    &&& v@.subrange(ranges@[k].0 as int, ranges@[k].1 as int) == ls[k]
                },
            parse_env_spec(text@) == env_fold(out.view_entries(), ls.skip(i as int)),
        decreases ranges@.len() - i,
    {
        let (a, b) = ranges[i];
        proof {
            assert(ls.skip(i as int).drop_first() =~= ls.skip(i + 1));
            assert(ls.skip(i as int)[0] == ls[i as int]);
        }
        match line_entry(v.as_slice(), a, b) {
            Some((k, val)) => {
                out.insert(k.as_str(), val.as_str());
            },
            None => {},
        }
        i += 1;
    }
    out
}

/// The entries of `vars` whose key is not in `present`, in order.
pub open spec fn missing_entries(
    vars: Seq<(Seq<char>, Seq<char>)>,
    present: Seq<Seq<char>>,
) -> Seq<(Seq<char>, Seq<char>)>
    decreases vars.len(),
{
    if vars.len() == 0 {
        Seq::empty()
    } else {
        let rest = missing_entries(vars.drop_last(), present);
        if present.contains(vars.last().0) {
            rest
        } else {
            rest.push(vars.last())
        }
    }
}

/// The variables of an optional dotenv file that the process lacks.
pub open spec fn file_entries(text: Option<Seq<char>>, present: Seq<Seq<char>>) -> Seq<(Seq<char>, Seq<char>)> {
    match text {
        Some(t) => missing_entries(parse_env_spec(t), present),
        None => Seq::empty(),
    }
}

/// The assignments made by [`apply`]: inline vars, then `.env`, then
/// `.dev.vars` (files only when `load_files`), each skipping the variables
/// the process already had.
pub open spec fn apply_spec(
    cfg: EnvConfig,
    present: Seq<Seq<char>>,
    dot_env: Option<Seq<char>>,
    dev_vars: Option<Seq<char>>,
) -> Seq<(Seq<char>, Seq<char>)> {
    missing_entries(cfg.vars.view_entries(), present) + if cfg.load_files {
        file_entries(dot_env, present) + file_entries(dev_vars, present)
    } else {
        Seq::empty()
    }
}

pub open spec fn opt_str_view(o: Option<&str>) -> Option<Seq<char>> {
    match o {
        Some(s) => Some(s@),
        None => None,
    }
}

/// Append the entries of `vars` whose key is not in `present`.
fn push_missing(out: &mut Vec<(String, String)>, vars: &StrMap, present: &[String])
    ensures
        entries_view(final(out)@) == entries_view(old(out)@) + missing_entries(
            vars.view_entries(),
            views(present@),
        ),
{
    let ghost t = vars.view_entries();
    let ghost pv = views(present@);
    let mut i: usize = 0;
    proof {
        assert(t.take(0) =~= Seq::<(Seq<char>, Seq<char>)>::empty());
        assert(entries_view(out@) =~= entries_view(old(out)@) + missing_entries(t.take(0), pv));
    }
    while i < vars.entries.len()
        invariant
            i <= vars.entries@.len(),
            t == vars.view_entries(),
            t.len() == vars.entries@.len(),
            pv == views(present@),
            entries_view(out@) == entries_view(old(out)@) + missing_entries(t.take(i as int), pv),
        decreases vars.entries@.len() - i,
    {
        let ghost before = out@;
        let k = &vars.entries[i].0;
        let v = &vars.entries[i].1;
        proof {
            assert(t.take(i + 1).drop_last() =~= t.take(i as int));
            assert(t.take(i + 1).last() == (k@, v@));
        }
        if !contains_str(present, k.as_str()) {
            out.push((k.clone(), v.clone()));
            proof {
                assert(entries_view(out@) =~= entries_view(before).push((k@, v@)));
            }
        }
        i += 1;
    }
    proof {
        assert(t.take(i as int) =~= t);
    }
}

/// The environment assignments to make, in order: a later one wins.
///
/// `present` holds the names of the variables the process had at start;
/// `dot_env` and `dev_vars` the texts of `.env` and `.dev.vars` where those
/// files exist. Setting the variables is the caller's job.
pub fn apply(
    cfg: &EnvConfig,
    present: &[String],
    dot_env: Option<&str>,
    dev_vars: Option<&str>,
) -> (r: Vec<(String, String)>)
    ensures
        entries_view(r@) == apply_spec(*cfg, views(present@), opt_str_view(dot_env), opt_str_view(dev_vars)),
{
    let ghost pv = views(present@);
    let mut out: Vec<(String, String)> = Vec::new();
    proof {
        assert(entries_view(out@) =~= Seq::<(Seq<char>, Seq<char>)>::empty());
    }
    push_missing(&mut out, &cfg.vars, present);
    proof {
        assert(entries_view(out@) =~= missing_entries(cfg.vars.view_entries(), pv));
    }
    if cfg.load_files {
        if let Some(text) = dot_env {
            let vars = parse_env_text(text);
            push_missing(&mut out, &vars, present);
        }
        let ghost mid = entries_view(out@);
        proof {
            assert(mid =~= missing_entries(cfg.vars.view_entries(), pv) + file_entries(opt_str_view(dot_env), pv));
        }
        if let Some(text) = dev_vars {
            let vars = parse_env_text(text);
            push_missing(&mut out, &vars, present);
        }
        proof {
            assert(entries_view(out@) =~= mid + file_entries(opt_str_view(dev_vars), pv));
            assert(entries_view(out@) =~= apply_spec(*cfg, pv, opt_str_view(dot_env), opt_str_view(dev_vars)));
        }
    } else {
        proof {
            assert(entries_view(out@) =~= apply_spec(*cfg, pv, opt_str_view(dot_env), opt_str_view(dev_vars)));
        }
    }
    out
}

} // verus!

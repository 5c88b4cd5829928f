//! Byte-offset → line/column helpers for authoring diagnostics.

use vstd::prelude::*;
use vstd::slice::slice_subrange;

use crate::text::{
    decimal, find_at, find_from, lemma_find_from_bounds, repeat, repeat_char, usize_to_string, byte_len, char_utf8_len, chars_of, lemma_byte_len_bound, lemma_byte_len_mono, lemma_split_nonempty,
    lines, split_on, split_ranges, string_of, strip_cr,
};

verus! {

/// Authoring diagnostic: `file:line:column: message` plus an optional
/// rustc-style snippet.
#[derive(Debug, Clone, PartialEq, Eq)]
pub struct Diagnostic {
    pub file: String,
    pub line: u32,
    pub column: u32,
    pub message: String,
    pub snippet: String,
}

/// Mathematical value of a [`Diagnostic`].
pub struct DiagView {
    pub file: Seq<char>,
    pub line: u32,
    pub column: u32,
    pub message: Seq<char>,
    pub snippet: Seq<char>,
}

impl View for Diagnostic {
    type V = DiagView;

    open spec fn view(&self) -> DiagView {
        DiagView {
            file: self.file@,
            line: self.line,
            column: self.column,
            message: self.message@,
            snippet: self.snippet@,
        }
    }
}

/// The diagnostic [`Diagnostic::at`] builds.
pub open spec fn diag_at(file: Seq<char>, source: Seq<char>, needles: Seq<Seq<char>>, message: Seq<char>) -> DiagView {
    let (f, l, c, snip) = locate_any_spec(file, source, needles);
    DiagView { file: f, line: l, column: c, message, snippet: snip }
}

/// The diagnostic [`Diagnostic::at_file`] builds.
pub open spec fn diag_at_file(file: Seq<char>, message: Seq<char>) -> DiagView {
    DiagView { file, line: 1, column: 1, message, snippet: Seq::empty() }
}

/// 1-based line and column reached after reading `prefix`.
pub open spec fn line_col(prefix: Seq<char>) -> (int, int)
    decreases prefix.len(),
{
    if prefix.len() == 0 {
        (1, 1)
    } else {
        let (l, c) = line_col(prefix.drop_last());
        if prefix.last() == '\n' {
            (l + 1, 1)
        } else {
            (l, c + 1)
        }
    }
}

/// `k` is the number of characters of `s` that start before byte `off`.
pub open spec fn chars_before(s: Seq<char>, off: int, k: int) -> bool {
    &&& 0 <= k <= s.len()
    &&& forall|j: int| 0 <= j < k ==> byte_len(#[trigger] s.take(j)) < off
    &&& (k == s.len() || byte_len(s.take(k)) >= off)
}

/// A pair of counters as `u32` (wrapping like the release build).
pub open spec fn as_u32_pair(p: (int, int)) -> (u32, u32) {
    (p.0 as u32, p.1 as u32)
}

pub proof fn lemma_line_col_bound(s: Seq<char>)
    ensures
        1 <= line_col(s).0 <= s.len() + 1,
        1 <= line_col(s).1 <= s.len() + 1,
    decreases s.len(),
{
    if s.len() > 0 {
        lemma_line_col_bound(s.drop_last());
    }
}

/// Byte length, line and column after the first `k` characters of `v`.
fn prefix_stats(v: &Vec<char>, k: usize) -> (r: (u64, u64, u64))
    requires
        k <= v@.len(),
        byte_len(v@) <= isize::MAX,
    ensures
        r.0 == byte_len(v@.take(k as int)),
        r.1 == line_col(v@.take(k as int)).0,
        r.2 == line_col(v@.take(k as int)).1,
{
    let mut pos: u64 = 0;
    let mut line: u64 = 1;
    let mut col: u64 = 1;
    let mut i: usize = 0;
    proof {
        assert(v@.take(0) =~= Seq::<char>::empty());
        lemma_byte_len_mono(v@, k as int, v@.len() as int);
        assert(v@.take(v@.len() as int) =~= v@);
        lemma_byte_len_bound(v@.take(k as int));
    }
    while i < k
        invariant
            i <= k <= v@.len(),
            byte_len(v@.take(k as int)) <= isize::MAX,
            k <= byte_len(v@.take(k as int)),
            pos == byte_len(v@.take(i as int)),
            line == line_col(v@.take(i as int)).0,
            col == line_col(v@.take(i as int)).1,
        decreases k - i,
    {
        let c = v[i];
        proof {
            assert(v@.take(i + 1).drop_last() =~= v@.take(i as int));
            assert(v@.take(i + 1).last() == c);
            lemma_byte_len_mono(v@, i + 1, k as int);
            lemma_line_col_bound(v@.take(i as int));
        }
        pos = pos + char_utf8_len(c) as u64;
        if c == '\n' {
            line = line + 1;
            col = 1;
        } else {
            col = col + 1;
        }
        i += 1;
    }
    (pos, line, col)
}

/// 1-based line and column for a byte offset into `source`: the position
/// reached after every character that starts before `byte_offset`.
pub fn offset_to_line_col(source: &str, byte_offset: usize) -> (r: (u32, u32))
    ensures
        exists|k: int|
            chars_before(source@, byte_offset as int, k) && r == as_u32_pair(
                line_col(#[trigger] source@.take(k)),
            ),
{
    let v = chars_of(source);
    let mut pos: u64 = 0;
    let mut line: u64 = 1;
    let mut col: u64 = 1;
    let mut i: usize = 0;
    proof {
        assert(v@.take(0) =~= Seq::<char>::empty());
        assert(v@.take(v@.len() as int) =~= v@);
        lemma_byte_len_bound(v@);
    }
    while i < v.len() && pos < byte_offset as u64
        invariant
            i <= v@.len(),
            v@ == source@,
            byte_len(v@) <= isize::MAX,
            v@.take(v@.len() as int) == v@,
            pos == byte_len(v@.take(i as int)),
            line == line_col(v@.take(i as int)).0,
            col == line_col(v@.take(i as int)).1,
            forall|j: int| 0 <= j < i ==> byte_len(#[trigger] v@.take(j)) < byte_offset,
        decreases v@.len() - i,
    {
        let c = v[i];
        proof {
            assert(v@.take(i + 1).drop_last() =~= v@.take(i as int));
            assert(v@.take(i + 1).last() == c);
            lemma_byte_len_mono(v@, i + 1, v@.len() as int);
            lemma_line_col_bound(v@.take(i as int));
            lemma_byte_len_bound(v@);
        }
        pos = pos + char_utf8_len(c) as u64;
        if c == '\n' {
            line = line + 1;
            col = 1;
        } else {
            col = col + 1;
        }
        i += 1;
    }
    proof {
        assert(chars_before(source@, byte_offset as int, i as int));
        assert(source@.take(i as int) == v@.take(i as int));
    }
    (line as u32, col as u32)
}

/// The `(line - 1)`-th entry of `str::lines`, or empty past the end.
pub open spec fn line_text_spec(source: Seq<char>, line: u32) -> Seq<char> {
    let idx = if line == 0 { 0 } else { line - 1 };
    if idx < lines(source).len() {
        lines(source)[idx]
    } else {
        Seq::empty()
    }
}

/// Text of `line` (1-based), without the trailing newline.
pub fn line_text(source: &str, line: u32) -> (r: String)
    ensures
        r@ == line_text_spec(source@, line),
{
    let v = chars_of(source);
    let parts = split_ranges(&v, 0, v.len(), '\n');
    let ghost ps = split_on(v@, '\n');
    proof {
        assert(v@.subrange(0, v@.len() as int) =~= v@);
        lemma_split_nonempty(v@, '\n');
    }
    let idx: usize = if line == 0 { 0 } else { (line - 1) as usize };
    let n = parts.len();
    let last_empty = parts[n - 1].0 == parts[n - 1].1;
    let count = if last_empty { n - 1 } else { n };
    proof {
        assert(lines(source@).len() == count);
    }
    if idx >= count {
        return String::new();
    }
    let (a, b) = parts[idx];
    let piece = slice_subrange(v.as_slice(), a, b);
    proof {
        assert(piece@ == ps[idx as int]);
    }
    if idx < n - 1 && b > a && v[b - 1] == '\r' {
        proof {
            assert(piece@.last() == '\r');
            assert(piece@.drop_last() =~= v@.subrange(a as int, b - 1));
            assert(lines(source@)[idx as int] == strip_cr(ps[idx as int]));
        }
        string_of(slice_subrange(v.as_slice(), a, b - 1))
    } else {
        proof {
            if idx < n - 1 {
                assert(lines(source@)[idx as int] == strip_cr(ps[idx as int]));
            }
        }
        string_of(piece)
    }
}

/// `str::find` position of `needle` in `s` as `(byte offset, line, column)`.
pub open spec fn find_pos_spec(s: Seq<char>, needle: Seq<char>) -> Option<(int, u32, u32)> {
    match find_from(s, needle, 0) {
        Some(k) => Some(
            (
                byte_len(s.take(k)) as int,
                as_u32_pair(line_col(s.take(k))).0,
                as_u32_pair(line_col(s.take(k))).1,
            ),
        ),
        None => None,
    }
}

/// Find `needle` in `source` and return `(offset, line, column)`.
pub fn find_pos(source: &str, needle: &str) -> (r: Option<(usize, u32, u32)>)
    ensures
        match r {
            Some((o, l, c)) => find_pos_spec(source@, needle@) == Some((o as int, l, c)),
            None => find_pos_spec(source@, needle@) is None,
        },
{
    let v = chars_of(source);
    let p = chars_of(needle);
    match find_at(v.as_slice(), 0, p.as_slice()) {
        Some(k) => {
            proof {
                lemma_find_from_bounds(v@, p@, 0);
                lemma_byte_len_mono(v@, k as int, v@.len() as int);
                assert(v@.take(v@.len() as int) =~= v@);
            }
            let (pos, line, col) = prefix_stats(&v, k);
            Some((pos as usize, line as u32, col as u32))
        },
        None => None,
    }
}

/// Earliest match among the non-empty `needles` (ties: the earlier needle),
/// with the index of the needle that matched.
pub open spec fn find_pos_any_spec(s: Seq<char>, needles: Seq<Seq<char>>) -> Option<(int, u32, u32, int)>
    decreases needles.len(),
{
    if needles.len() == 0 {
        None
    } else {
        let best = find_pos_any_spec(s, needles.drop_last());
        let n = needles.last();
        if n.len() == 0 {
            best
        } else {
            match find_pos_spec(s, n) {
                Some((o, l, c)) => match best {
                    Some(b) => if o < b.0 {
                        Some((o, l, c, needles.len() - 1))
                    } else {
                        best
                    },
                    None => Some((o, l, c, needles.len() - 1)),
                },
                None => best,
            }
        }
    }
}

/// The views of a list of string slices.
pub open spec fn str_views(v: Seq<&str>) -> Seq<Seq<char>> {
    v.map_values(|s: &str| s@)
}

/// First match among needles.
pub fn find_pos_any<'a>(source: &str, needles: &[&'a str]) -> (r: Option<(usize, u32, u32, &'a str)>)
    ensures
        match r {
            Some((o, l, c, n)) => exists|i: int|
                0 <= i < needles@.len() && needles@[i] == n
                    && find_pos_any_spec(source@, str_views(needles@)) == Some((o as int, l, c, i)),
            None => find_pos_any_spec(source@, str_views(needles@)) is None,
        },
{
    let mut best: Option<(usize, u32, u32, &'a str)> = None;
    let ghost mut best_idx: int = 0;
    let mut i: usize = 0;
    while i < needles.len()
        invariant
            i <= needles@.len(),
            match best {
                Some((o, l, c, n)) => 0 <= best_idx < i && needles@[best_idx] == n
                    && find_pos_any_spec(source@, str_views(needles@).take(i as int)) == Some((o as int, l, c, best_idx)),
                None => find_pos_any_spec(source@, str_views(needles@).take(i as int)) is None,
            },
        decreases needles@.len() - i,
    {
        let needle = needles[i];
        proof {
            assert(str_views(needles@).take(i + 1).drop_last() =~= str_views(needles@).take(i as int));
            assert(str_views(needles@).take(i + 1).last() == needle@);
        }
        let empty = needle_is_empty(needle);
        if !empty {
            match find_pos(source, needle) {
                Some((offset, line, column)) => {
                    let better = match best {
                        Some((o, _, _, _)) => offset < o,
                        None => true,
                    };
                    if better {
                        best = Some((offset, line, column, needle));
                        proof {
                            best_idx = i as int;
                        }
                    }
                },
                None => {},
            }
        }
        i += 1;
    }
    proof {
        assert(str_views(needles@).take(needles@.len() as int) =~= str_views(needles@));
    }
    best
}

fn needle_is_empty(s: &str) -> (r: bool)
    ensures
        r == (s@.len() == 0),
{
    s.is_empty()
}

/// Saturating `a - b` on naturals.
pub open spec fn sat_sub(a: int, b: int) -> int {
    if a >= b {
        a - b
    } else {
        0
    }
}

/// Rustc-style snippet under a span: a gutter line, ` LINE | text`, and a
/// caret row under `highlight_len` bytes starting at `column`.
pub open spec fn snippet_spec(source: Seq<char>, line: u32, column: u32, highlight_len: usize) -> Seq<char> {
    let text = line_text_spec(source, line);
    let gutter = decimal(line as nat);
    let pad = repeat(' ', gutter.len());
    let tlen = byte_len(text) as int;
    let caret_col = if sat_sub(column as int, 1) < tlen { sat_sub(column as int, 1) } else { tlen };
    let want = if highlight_len >= 1 { highlight_len as int } else { 1 };
    let room = if sat_sub(tlen, caret_col) >= 1 { sat_sub(tlen, caret_col) } else { 1 };
    let len = if want < room { want } else { room };
    pad + " |\n"@ + gutter + " | "@ + text + "\n"@ + pad + " | "@ + repeat(' ', caret_col as nat) + repeat('^', len as nat)
}

/// Byte length of a string.
fn str_byte_len(s: &String) -> (r: usize)
    ensures
        r == byte_len(s@),
{
    let v = chars_of(s.as_str());
    let mut n: usize = 0;
    let mut i: usize = 0;
    proof {
        assert(v@.take(0) =~= Seq::<char>::empty());
        lemma_byte_len_mono(v@, 0, v@.len() as int);
        assert(v@.take(v@.len() as int) =~= v@);
    }
    while i < v.len()
        invariant
            i <= v@.len(),
            byte_len(v@) <= isize::MAX,
            v@.take(v@.len() as int) == v@,
            n == byte_len(v@.take(i as int)),
        decreases v@.len() - i,
    {
        proof {
            assert(v@.take(i + 1).drop_last() =~= v@.take(i as int));
            lemma_byte_len_mono(v@, i + 1, v@.len() as int);
        }
        n = n + char_utf8_len(v[i]);
        i += 1;
    }
    n
}

/// Rustc-style snippet under a span: ` LINE | text` + caret row.
pub fn snippet(source: &str, line: u32, column: u32, highlight_len: usize) -> (r: String)
    ensures
        r@ == snippet_spec(source@, line, column, highlight_len),
{
    let text = line_text(source, line);
    let gutter = usize_to_string(line as usize);
    let pad = repeat_char(' ', gutter.unicode_len());
    let tlen = str_byte_len(&text);
    let c1 = (column as usize).saturating_sub(1);
    let caret_col = if c1 < tlen { c1 } else { tlen };
    let want = if highlight_len >= 1 { highlight_len } else { 1 };
    let room0 = tlen.saturating_sub(caret_col);
    let room = if room0 >= 1 { room0 } else { 1 };
    let len = if want < room { want } else { room };
    let mut out = String::new();
    out.append(pad.as_str());
    out.append(" |\n");
    out.append(gutter.as_str());
    out.append(" | ");
    out.append(text.as_str());
    out.append("\n");
    out.append(pad.as_str());
    out.append(" | ");
    out.append(repeat_char(' ', caret_col).as_str());
    out.append(repeat_char('^', len).as_str());
    out
}

/// Location + snippet for the earliest needle match, or `1:1` with an empty snippet.
pub open spec fn locate_any_spec(file: Seq<char>, source: Seq<char>, needles: Seq<Seq<char>>) -> (
    Seq<char>,
    u32,
    u32,
    Seq<char>,
) {
    match find_pos_any_spec(source, needles) {
        Some((_o, l, c, i)) => (file, l, c, snippet_spec(source, l, c, needles[i].len() as usize)),
        None => (file, 1, 1, Seq::empty()),
    }
}

/// Location + snippet for the earliest needle match, or `1:1` with empty snippet.
pub fn locate_any(file: &str, source: &str, needles: &[&str]) -> (r: (String, u32, u32, String))
    ensures
        (r.0@, r.1, r.2, r.3@) == locate_any_spec(file@, source@, str_views(needles@)),
{
    match find_pos_any(source, needles) {
        Some((_offset, line, column, needle)) => {
            let count = needle.unicode_len();
            let snip = snippet(source, line, column, count);
            (String::from_str(file), line, column, snip)
        },
        None => (String::from_str(file), 1, 1, String::new()),
    }
}

impl Diagnostic {
    /// Locate via needle search in `source`, or fall back to `file:1:1` with no snippet.
    pub fn at(file: &str, source: &str, needles: &[&str], message: &str) -> (r: Self)
        ensures
            r@ == diag_at(file@, source@, str_views(needles@), message@),
    {
        let (file, line, column, snippet) = locate_any(file, source, needles);
        Diagnostic { file, line, column, message: String::from_str(message), snippet }
    }

    /// Path known, no useful source span (still emits `file:1:1:`).
    pub fn at_file(file: &str, message: &str) -> (r: Self)
        ensures
            r@ == diag_at_file(file@, message@),
    {
        Diagnostic {
            file: String::from_str(file),
            line: 1,
            column: 1,
            message: String::from_str(message),
            snippet: String::new(),
        }
    }

    /// `file:line:column: message`, then the snippet on its own lines when present.
    pub open spec fn display(&self) -> Seq<char> {
        let head = self.file@ + ":"@ + decimal(self.line as nat) + ":"@ + decimal(self.column as nat) + ": "@ + self.message@;
        if self.snippet@.len() == 0 {
            head
        } else {
            head + "\n"@ + self.snippet@
        }
    }

    /// The rendered diagnostic (what `Display` prints).
    pub fn to_display_string(&self) -> (r: String)
        ensures
            r@ == self.display(),
    {
        let mut out = String::new();
        out.append(self.file.as_str());
        out.append(":");
        out.append(usize_to_string(self.line as usize).as_str());
        out.append(":");
        out.append(usize_to_string(self.column as usize).as_str());
        out.append(": ");
        out.append(self.message.as_str());
        if self.snippet.unicode_len() > 0 {
            out.append("\n");
            out.append(self.snippet.as_str());
        }
        out
    }
}

} // verus!

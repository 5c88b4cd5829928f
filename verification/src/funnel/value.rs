//! Funnel data values: the JSON model that data sources load into.

use vstd::prelude::*;

verus! {

/// A JSON value as the funnel holds it.
///
/// Numbers keep the text they are written with (`1`, `2.5`, `-3e2`): the
/// funnel only ever renders them. Object members keep their order; a key is
/// looked up at its first occurrence.
#[derive(Debug, PartialEq)]
pub enum Value {
    Null,
    Bool(bool),
    Number(String),
    String(String),
    Array(Vec<Value>),
    Object(Vec<(String, Value)>),
}

/// Mathematical value of a [`Value`].
#[verifier::ext_equal]
pub enum JsonView {
    Null,
    Bool(bool),
    Number(Seq<char>),
    String(Seq<char>),
    Array(Seq<JsonView>),
    Object(Seq<(Seq<char>, JsonView)>),
}

/// The view of a member list.
pub open spec fn members_view(m: Seq<(String, Value)>) -> Seq<(Seq<char>, JsonView)>
    decreases m,
{
    Seq::new(m.len(), |i: int| if 0 <= i < m.len() { (m[i].0@, value_view(m[i].1)) } else { (Seq::empty(), JsonView::Null) })
}

/// The view of an element list.
pub open spec fn elems_view(a: Seq<Value>) -> Seq<JsonView>
    decreases a,
{
    Seq::new(a.len(), |i: int| if 0 <= i < a.len() { value_view(a[i]) } else { JsonView::Null })
}

pub open spec fn value_view(v: Value) -> JsonView
    decreases v,
{
    match v {
        Value::Null => JsonView::Null,
        Value::Bool(b) => JsonView::Bool(b),
        Value::Number(n) => JsonView::Number(n@),
        Value::String(s) => JsonView::String(s@),
        Value::Array(a) => JsonView::Array(elems_view(a@)),
        Value::Object(m) => JsonView::Object(members_view(m@)),
    }
}

impl View for Value {
    type V = JsonView;

    open spec fn view(&self) -> JsonView {
        value_view(*self)
    }
}

impl Value {
    /// A copy of this value.
    pub fn copy(&self) -> (r: Value)
        ensures
            r@ == self@,
        decreases self,
    {
        match self {
            Value::Null => Value::Null,
            Value::Bool(b) => Value::Bool(*b),
            Value::Number(n) => Value::Number(n.clone()),
            Value::String(s) => Value::String(s.clone()),
            Value::Array(a) => {
                let mut out: Vec<Value> = Vec::new();
                let mut i: usize = 0;
                while i < a.len()
                    invariant
                        i <= a@.len(),
                        out@.len() == i,
                        forall|k: int| 0 <= k < i ==> (#[trigger] out@[k])@ == a@[k]@,
                        *self == Value::Array(*a),
                    decreases a@.len() - i,
                {
                    proof {
                        assert(decreases_to!(*a => a@));
                        assert(decreases_to!(a@ => a@[i as int]));
                        assert(decreases_to!(*self => (*self)->Array_0));
                    }
                    out.push(a[i].copy());
                    i += 1;
                }
                proof {
                    assert(elems_view(out@) =~= elems_view(a@));
                }
                Value::Array(out)
            },
            Value::Object(m) => {
                let mut out: Vec<(String, Value)> = Vec::new();
                let mut i: usize = 0;
                while i < m.len()
                    invariant
                        i <= m@.len(),
                        out@.len() == i,
                        forall|k: int| 0 <= k < i ==> (#[trigger] out@[k]).0@ == m@[k].0@ && out@[k].1@ == m@[k].1@,
                        *self == Value::Object(*m),
                    decreases m@.len() - i,
                {
                    proof {
                        assert(decreases_to!(*m => m@));
                        assert(decreases_to!(m@ => m@[i as int]));
                        assert(decreases_to!(m@[i as int] => m@[i as int].1));
                        assert(decreases_to!(*self => (*self)->Object_0));
                    }
                    let v = m[i].1.copy();
                    out.push((m[i].0.clone(), v));
                    i += 1;
                }
                proof {
                    assert(members_view(out@) =~= members_view(m@));
                }
                Value::Object(out)
            },
        }
    }
}

/// Copies of a list of values.
pub fn copy_values(a: &[Value]) -> (r: Vec<Value>)
    ensures
        elems_view(r@) == elems_view(a@),
{
    let mut out: Vec<Value> = Vec::new();
    let mut i: usize = 0;
    while i < a.len()
        invariant
            i <= a@.len(),
            out@.len() == i,
            forall|k: int| 0 <= k < i ==> (#[trigger] out@[k])@ == a@[k]@,
        decreases a@.len() - i,
    {
        out.push(a[i].copy());
        i += 1;
    }
    proof {
        assert(elems_view(out@) =~= elems_view(a@));
    }
    out
}

// ---------------------------------------------------------------------------
// JSON text

/// A lowercase hexadecimal digit.
pub open spec fn hex_digit(n: u32) -> char {
    if n < 10 {
        (('0' as u32) + n) as char
    } else {
        (('a' as u32) + n - 10) as char
    }
}

/// How compact JSON writes one character of a string: `"` and `\` and the
/// control characters escaped (`\b \t \n \f \r`, else `\u00XX`).
pub open spec fn json_escape_char(c: char) -> Seq<char> {
    if c == '"' {
        seq!['\\', '"']
    } else if c == '\\' {
        seq!['\\', '\\']
    } else if c == '\n' {
        seq!['\\', 'n']
    } else if c == '\r' {
        seq!['\\', 'r']
    } else if c == '\t' {
        seq!['\\', 't']
    } else if c == '\u{8}' {
        seq!['\\', 'b']
    } else if c == '\u{c}' {
        seq!['\\', 'f']
    } else if (c as u32) < 32 {
        seq!['\\', 'u', '0', '0', hex_digit((c as u32) / 16), hex_digit((c as u32) % 16)]
    } else {
        seq![c]
    }
}

pub open spec fn json_escape(s: Seq<char>) -> Seq<char>
    decreases s.len(),
{
    if s.len() == 0 {
        Seq::empty()
    } else {
        json_escape(s.drop_last()) + json_escape_char(s.last())
    }
}

/// A JSON string literal.
pub open spec fn json_string(s: Seq<char>) -> Seq<char> {
    seq!['"'] + json_escape(s) + seq!['"']
}

/// A value as compact JSON text (numbers as written).
pub open spec fn json_text(v: JsonView) -> Seq<char>
    decreases v,
{
    match v {
        JsonView::Null => "null"@,
        JsonView::Bool(b) => if b {
            "true"@
        } else {
            "false"@
        },
        JsonView::Number(n) => n,
        JsonView::String(s) => json_string(s),
        JsonView::Array(a) => seq!['['] + json_elems(a) + seq![']'],
        JsonView::Object(m) => seq!['{'] + json_members(m) + seq!['}'],
    }
}

pub open spec fn json_elems(a: Seq<JsonView>) -> Seq<char>
    decreases a,
{
    if a.len() == 0 {
        Seq::empty()
    } else {
        proof {
            assert(decreases_to!(a => a[a.len() - 1]));
        }
        let t = json_text(a[a.len() - 1]);
        if a.len() == 1 {
            t
        } else {
            json_elems(a.drop_last()) + seq![','] + t
        }
    }
}

pub open spec fn json_members(m: Seq<(Seq<char>, JsonView)>) -> Seq<char>
    decreases m,
{
    if m.len() == 0 {
        Seq::empty()
    } else {
        proof {
            assert(decreases_to!(m => m[m.len() - 1]));
        }
        let t = json_string(m[m.len() - 1].0) + seq![':'] + json_text(m[m.len() - 1].1);
        if m.len() == 1 {
            t
        } else {
            json_members(m.drop_last()) + seq![','] + t
        }
    }
}

fn hex_digit_of(n: u32) -> (r: char)
    requires
        n < 16,
    ensures
        r == hex_digit(n),
{
    if n < 10 {
        let b: u8 = 48u8 + (n as u8);
        b as char
    } else {
        let b: u8 = 87u8 + (n as u8);
        b as char
    }
}

fn push_escaped(out: &mut String, c: char)
    ensures
        final(out)@ == old(out)@ + json_escape_char(c),
{
    let ghost start = out@;
    if c == '"' {
        crate::text::push_char(out, '\\');
        crate::text::push_char(out, '"');
    } else if c == '\\' {
        crate::text::push_char(out, '\\');
        crate::text::push_char(out, '\\');
    } else if c == '\n' {
        crate::text::push_char(out, '\\');
        crate::text::push_char(out, 'n');
    } else if c == '\r' {
        crate::text::push_char(out, '\\');
        crate::text::push_char(out, 'r');
    } else if c == '\t' {
        crate::text::push_char(out, '\\');
        crate::text::push_char(out, 't');
    } else if c == '\u{8}' {
        crate::text::push_char(out, '\\');
        crate::text::push_char(out, 'b');
    } else if c == '\u{c}' {
        crate::text::push_char(out, '\\');
        crate::text::push_char(out, 'f');
    } else if (c as u32) < 32 {
        let n = c as u32;
        crate::text::push_char(out, '\\');
        crate::text::push_char(out, 'u');
        crate::text::push_char(out, '0');
        crate::text::push_char(out, '0');
        crate::text::push_char(out, hex_digit_of(n / 16));
        crate::text::push_char(out, hex_digit_of(n % 16));
    } else {
        crate::text::push_char(out, c);
    }
    proof {
        assert(out@ =~= start + json_escape_char(c));
    }
}

fn push_json_string(out: &mut String, s: &str)
    ensures
        final(out)@ == old(out)@ + json_string(s@),
{
    let v = crate::text::chars_of(s);
    let ghost start = out@;
    crate::text::push_char(out, '"');
    let mut i: usize = 0;
    proof {
        assert(v@.take(0) =~= Seq::<char>::empty());
    }
    while i < v.len()
        invariant
            i <= v@.len(),
            v@ == s@,
            out@ == start + seq!['"'] + json_escape(v@.take(i as int)),
        decreases v@.len() - i,
    {
        proof {
            assert(v@.take(i + 1).drop_last() =~= v@.take(i as int));
            assert(v@.take(i + 1).last() == v@[i as int]);
        }
        push_escaped(out, v[i]);
        proof {
            assert(out@ =~= start + seq!['"'] + json_escape(v@.take(i + 1)));
        }
        i += 1;
    }
    crate::text::push_char(out, '"');
    proof {
        assert(v@.take(i as int) =~= v@);
        assert(out@ =~= start + json_string(s@));
    }
}

/// Append `v` as compact JSON.
fn push_json(out: &mut String, v: &Value)
    ensures
        final(out)@ == old(out)@ + json_text(v@),
    decreases v,
{
    let ghost start = out@;
    match v {
        Value::Null => {
            out.append("null");
            proof {
                reveal_strlit("null");
            }
        },
        Value::Bool(b) => {
            if *b {
                out.append("true");
            } else {
                out.append("false");
            }
        },
        Value::Number(n) => {
            out.append(n.as_str());
        },
        Value::String(t) => {
            push_json_string(out, t.as_str());
        },
        Value::Array(a) => {
            crate::text::push_char(out, '[');
            let ghost av = elems_view(a@);
            let mut i: usize = 0;
            while i < a.len()
                invariant
                    i <= a@.len(),
                    *v == Value::Array(*a),
                    av == elems_view(a@),
                    out@ == start + seq!['['] + json_elems(av.take(i as int)),
                decreases a@.len() - i,
            {
                proof {
                    assert(decreases_to!(*v => (*v)->Array_0));
                    assert(decreases_to!(*a => a@));
                    assert(decreases_to!(a@ => a@[i as int]));
                    assert(av.take(i + 1).drop_last() =~= av.take(i as int));
                    assert(av.take(i + 1)[i as int] == a@[i as int]@);
                }
                if i > 0 {
                    crate::text::push_char(out, ',');
                }
                push_json(out, &a[i]);
                proof {
                    if i == 0 {
                        assert(av.take(0) =~= Seq::<JsonView>::empty());
                    }
                    assert(out@ =~= start + seq!['['] + json_elems(av.take(i + 1)));
                }
                i += 1;
            }
            crate::text::push_char(out, ']');
            proof {
                assert(av.take(i as int) =~= av);
                assert(out@ =~= start + json_text(v@));
            }
        },
        Value::Object(m) => {
            crate::text::push_char(out, '{');
            let ghost mv = members_view(m@);
            let mut i: usize = 0;
            while i < m.len()
                invariant
                    i <= m@.len(),
                    *v == Value::Object(*m),
                    mv == members_view(m@),
                    out@ == start + seq!['{'] + json_members(mv.take(i as int)),
                decreases m@.len() - i,
            {
                proof {
                    assert(decreases_to!(*v => (*v)->Object_0));
                    assert(decreases_to!(*m => m@));
                    assert(decreases_to!(m@ => m@[i as int]));
                    assert(decreases_to!(m@[i as int] => m@[i as int].1));
                    assert(mv.take(i + 1).drop_last() =~= mv.take(i as int));
                    assert(mv.take(i + 1)[i as int] == (m@[i as int].0@, m@[i as int].1@));
                }
                if i > 0 {
                    crate::text::push_char(out, ',');
                }
                push_json_string(out, m[i].0.as_str());
                crate::text::push_char(out, ':');
                push_json(out, &m[i].1);
                proof {
                    if i == 0 {
                        assert(mv.take(0) =~= Seq::<(Seq<char>, JsonView)>::empty());
                    }
                    assert(out@ =~= start + seq!['{'] + json_members(mv.take(i + 1)));
                }
                i += 1;
            }
            crate::text::push_char(out, '}');
            proof {
                assert(mv.take(i as int) =~= mv);
                assert(out@ =~= start + json_text(v@));
            }
        },
    }
}

/// `v` as compact JSON text (`serde_json`'s `Display`), numbers as written.
pub fn to_json_text(v: &Value) -> (r: String)
    ensures
        r@ == json_text(v@),
{
    let mut out = String::new();
    push_json(&mut out, v);
    proof {
        assert(out@ =~= json_text(v@));
    }
    out
}

} // verus!

//! The compact text of a JSON document: no whitespace, object members in key
//! order, strings escaped as `serde_json` writes them.
use vstd::prelude::*;
use crate::json::{Json, JsonValue, JsonMap, entries_model, values_model, lemma_entries_model, lemma_values_model};
use crate::text::{chars_of, digit_char, string_of};

verus! {

/// A hexadecimal digit in lower case.
pub open spec fn hex_char(d: nat) -> char {
    if d < 10 {
        digit_char(d)
    } else {
        ((87 + d) as u32) as char
    }
}

/// How one character of a string is written inside quotes.
pub open spec fn escape_char(c: char) -> Seq<char> {
    if c == '"' {
        seq!['\\', '"']
    } else if c == '\\' {
        seq!['\\', '\\']
    } else if c == '\x08' {
        seq!['\\', 'b']
    } else if c == '\x0c' {
        seq!['\\', 'f']
    } else if c == '\n' {
        seq!['\\', 'n']
    } else if c == '\r' {
        seq!['\\', 'r']
    } else if c == '\t' {
        seq!['\\', 't']
    } else if ' ' > c {
        seq!['\\', 'u', '0', '0', hex_char((c as u32) as nat / 16), hex_char((c as u32) as nat % 16)]
    } else {
        seq![c]
    }
}

/// The escaped characters of a string.
pub open spec fn escape_text(s: Seq<char>) -> Seq<char>
    decreases s.len(),
{
    if s.len() == 0 {
        Seq::empty()
    } else {
        escape_text(s.drop_last()) + escape_char(s.last())
    }
}

/// A string literal.
pub open spec fn quoted(s: Seq<char>) -> Seq<char> {
    seq!['"'] + escape_text(s) + seq!['"']
}

/// The compact text of a document.
pub open spec fn json_text(j: Json) -> Seq<char>
    decreases j,
{
    match j {
        Json::Null => seq!['n', 'u', 'l', 'l'],
        Json::Bool(b) => if b {
            seq!['t', 'r', 'u', 'e']
        } else {
            seq!['f', 'a', 'l', 's', 'e']
        },
        Json::Number(t) => t,
        Json::Str(s) => quoted(s),
        Json::Array(items) => seq!['['] + items_text(items) + seq![']'],
        Json::Object(es) => seq!['{'] + members_text(es) + seq!['}'],
    }
}

/// The elements of an array, separated by commas.
pub open spec fn items_text(items: Seq<Json>) -> Seq<char>
    decreases items,
{
    if items.len() == 0 {
        Seq::empty()
    } else if items.len() == 1 {
        json_text(items[0])
    } else {
        proof {
            assert(decreases_to!(items => items.drop_last()));
        }
        items_text(items.drop_last()) + seq![','] + json_text(items.last())
    }
}

/// The members of an object, separated by commas.
pub open spec fn members_text(es: Seq<(Seq<char>, Json)>) -> Seq<char>
    decreases es,
{
    if es.len() == 0 {
        Seq::empty()
    } else if es.len() == 1 {
        quoted(es[0].0) + seq![':'] + json_text(es[0].1)
    } else {
        proof {
            assert(decreases_to!(es => es.drop_last()));
        }
        members_text(es.drop_last()) + seq![','] + quoted(es.last().0) + seq![':'] + json_text(
            es.last().1,
        )
    }
}

fn hex(d: u32) -> (c: char)
    requires
        d < 16,
    ensures
        c == hex_char(d as nat),
{
    if d < 10 {
        crate::text::digit(d as usize)
    } else if d == 10 {
        'a'
    } else if d == 11 {
        'b'
    } else if d == 12 {
        'c'
    } else if d == 13 {
        'd'
    } else if d == 14 {
        'e'
    } else {
        'f'
    }
}

fn push_two(out: &mut Vec<char>, a: char, b: char)
    ensures
        final(out)@ == old(out)@ + seq![a, b],
{
    out.push(a);
    out.push(b);
    assert(out@ =~= old(out)@ + seq![a, b]);
}

fn write_escaped_char(c: char, out: &mut Vec<char>)
    ensures
        final(out)@ == old(out)@ + escape_char(c),
{
    if c == '"' {
        push_two(out, '\\', '"');
    } else if c == '\\' {
        push_two(out, '\\', '\\');
    } else if c == '\x08' {
        push_two(out, '\\', 'b');
    } else if c == '\x0c' {
        push_two(out, '\\', 'f');
    } else if c == '\n' {
        push_two(out, '\\', 'n');
    } else if c == '\r' {
        push_two(out, '\\', 'r');
    } else if c == '\t' {
        push_two(out, '\\', 't');
    } else if ' ' > c {
        let n = c as u32;
        out.push('\\');
        out.push('u');
        out.push('0');
        out.push('0');
        out.push(hex(n / 16));
        out.push(hex(n % 16));
        assert(out@ =~= old(out)@ + escape_char(c));
    } else {
        out.push(c);
        assert(out@ =~= old(out)@ + escape_char(c));
    }
}

fn write_quoted(s: &str, out: &mut Vec<char>)
    ensures
        final(out)@ == old(out)@ + quoted(s@),
{
    let cs = chars_of(s);
    out.push('"');
    let ghost base = out@;
    let mut i: usize = 0;
    assert(cs@.subrange(0, 0) =~= Seq::<char>::empty());
    assert(base =~= base + escape_text(Seq::<char>::empty()));
    while i < cs.len()
        invariant
            i <= cs.len(),
            cs@ == s@,
            out@ == base + escape_text(cs@.subrange(0, i as int)),
        decreases cs.len() - i,
    {
        write_escaped_char(cs[i], out);
        assert(cs@.subrange(0, i + 1).drop_last() =~= cs@.subrange(0, i as int));
        i = i + 1;
    }
    assert(cs@.subrange(0, cs.len() as int) =~= cs@);
    out.push('"');
    assert(out@ =~= old(out)@ + quoted(s@));
}

fn push_text(out: &mut Vec<char>, t: &str)
    ensures
        final(out)@ == old(out)@ + t@,
{
    let cs = chars_of(t);
    crate::text::extend_chars(out, &cs);
}

/// Writes the compact text of `v` after `out`.
#[verifier::loop_isolation(false)]
pub fn write_json(v: &JsonValue, out: &mut Vec<char>)
    ensures
        final(out)@ == old(out)@ + json_text(v.model()),
    decreases v,
{
    match v {
        JsonValue::Null => {
            out.push('n');
            out.push('u');
            out.push('l');
            out.push('l');
            assert(out@ =~= old(out)@ + json_text(v.model()));
        },
        JsonValue::Bool(b) => {
            if *b {
                out.push('t');
                out.push('r');
                out.push('u');
                out.push('e');
            } else {
                out.push('f');
                out.push('a');
                out.push('l');
                out.push('s');
                out.push('e');
            }
            assert(out@ =~= old(out)@ + json_text(v.model()));
        },
        JsonValue::Number(t) => {
            push_text(out, t.as_str());
        },
        JsonValue::Str(s) => {
            write_quoted(s.as_str(), out);
        },
        JsonValue::Array(items) => {
            out.push('[');
            let ghost base = out@;
            let ghost ms = values_model(items@);
            proof {
                lemma_values_model(items@);
            }
            assert(base =~= base + items_text(ms.subrange(0, 0)));
            let mut i: usize = 0;
            while i < items.len()
                invariant
                    i <= items.len(),
                    ms == values_model(items@),
                    ms.len() == items@.len(),
                    forall|k: int| 0 <= k < items@.len() ==> #[trigger] ms[k] == items@[k].model(),
                    out@ == base + items_text(ms.subrange(0, i as int)),
                decreases items.len() - i,
            {
                proof {
                    assert(decreases_to!(*v => *items));
                    assert(decreases_to!(*items => items@[i as int]));
                }
                if i > 0 {
                    out.push(',');
                }
                write_json(&items[i], out);
                proof {
                    let next = ms.subrange(0, i + 1);
                    assert(next.drop_last() =~= ms.subrange(0, i as int));
                    assert(next.last() == items@[i as int].model());
                    if i == 0 {
                        assert(items_text(ms.subrange(0, 0)) =~= Seq::<char>::empty());
                    }
                }
                i = i + 1;
            }
            assert(ms.subrange(0, items.len() as int) =~= ms);
            out.push(']');
            assert(out@ =~= old(out)@ + json_text(v.model()));
        },
        JsonValue::Object(m) => {
            write_members(m, out);
        },
    }
}

#[verifier::loop_isolation(false)]
fn write_members(m: &JsonMap, out: &mut Vec<char>)
    ensures
        final(out)@ == old(out)@ + json_text(Json::Object(m.model())),
    decreases m,
{
    let es = m.entries();
    out.push('{');
    let ghost base = out@;
    let ghost ms = entries_model(es@);
    proof {
        lemma_entries_model(es@);
    }
    assert(base =~= base + members_text(ms.subrange(0, 0)));
    let mut i: usize = 0;
    while i < es.len()
        invariant
            i <= es.len(),
            ms == entries_model(es@),
            ms.len() == es@.len(),
            forall|k: int| 0 <= k < es@.len() ==> #[trigger] ms[k] == (es@[k].0@, es@[k].1.model()),
            out@ == base + members_text(ms.subrange(0, i as int)),
        decreases es.len() - i,
    {
        proof {
            assert(decreases_to!(*m => *es));
            assert(decreases_to!(*es => es@[i as int]));
            assert(decreases_to!(es@[i as int] => es@[i as int].1));
        }
        if i > 0 {
            out.push(',');
        }
        write_quoted(es[i].0.as_str(), out);
        out.push(':');
        write_json(&es[i].1, out);
        proof {
            let next = ms.subrange(0, i + 1);
            assert(next.drop_last() =~= ms.subrange(0, i as int));
            assert(next.last() == ms[i as int]);
        }
        i = i + 1;
    }
    assert(ms.subrange(0, es.len() as int) =~= ms);
    out.push('}');
    assert(out@ =~= old(out)@ + json_text(Json::Object(m.model())));
}

/// The compact text of `v` (what `Value::to_string` gives).
pub fn to_json_text(v: &JsonValue) -> (r: String)
    ensures
        r@ == json_text(v.model()),
{
    let mut out: Vec<char> = Vec::new();
    write_json(v, &mut out);
    assert(out@ =~= json_text(v.model()));
    string_of(&out)
}

} // verus!

//! A YAML value written as one flow-style document (`[a, b]`, `{k: v}`, strings always
//! double-quoted), and the block-style text YAML prints for it.
//!
//! The flow document is this library's own framing: every string is quoted and every character
//! a YAML reader would not take literally is escaped, so that a reader gets back the value it
//! was written from. That round trip is the intent of the escaping, not a proved property: the
//! reader is `serde_yaml`, whose result is only named here (`yaml_reprinted`), and no contract
//! states what it reads. Printing the block style is left to `serde_yaml`.
use vstd::prelude::*;
use crate::text::{chars_of, owned, push_str, string_from_chars, trim, trim_str};
use crate::yaml::{YamlValue, YamlView, NumberView, number_text, seq_view, pairs_view,
    lemma_seq_view, lemma_pairs_view};

verus! {

/// Whether a character may stand unescaped inside a double-quoted YAML scalar: printable, and
/// not a line break (which the reader would fold).
pub open spec fn yaml_literal_char(c: char) -> bool {
    let n = c as u32;
    (0x20 <= n && n <= 0x7E) || (0xA0 <= n && n <= 0xD7FF && n != 0x2028 && n != 0x2029) || (
    0xE000 <= n && n <= 0xFFFD) || n >= 0x10000
}

/// The hexadecimal digit for `d`, which is below sixteen.
pub open spec fn hex_digit(d: nat) -> char {
    if d < 10 {
        crate::text::digit_char(d)
    } else if d == 10 {
        'A'
    } else if d == 11 {
        'B'
    } else if d == 12 {
        'C'
    } else if d == 13 {
        'D'
    } else if d == 14 {
        'E'
    } else {
        'F'
    }
}

/// How one character is written inside a double-quoted scalar.
pub open spec fn escape_char(c: char) -> Seq<char> {
    if c == '\\' {
        seq!['\\', '\\']
    } else if c == '"' {
        seq!['\\', '"']
    } else if c == '\n' {
        seq!['\\', 'n']
    } else if c == '\t' {
        seq!['\\', 't']
    } else if c == '\r' {
        seq!['\\', 'r']
    } else if yaml_literal_char(c) {
        seq![c]
    } else {
        let n = (c as u32) as nat;
        seq![
            '\\',
            'u',
            hex_digit((n / 4096) % 16),
            hex_digit((n / 256) % 16),
            hex_digit((n / 16) % 16),
            hex_digit(n % 16),
        ]
    }
}

/// A text with each character escaped.
pub open spec fn escaped(s: Seq<char>) -> Seq<char>
    decreases s.len(),
{
    if s.len() == 0 {
        Seq::empty()
    } else {
        escaped(s.drop_last()) + escape_char(s.last())
    }
}

/// A tag as YAML prints it after its `!`: without a leading `!` of its own.
pub open spec fn tag_name(t: Seq<char>) -> Seq<char> {
    if t.len() > 1 && t[0] == '!' {
        t.drop_first()
    } else {
        t
    }
}

/// A value as one flow-style YAML document.
pub open spec fn flow_text(v: YamlView) -> Seq<char>
    decreases v, 0int,
{
    match v {
        YamlView::Null => seq!['n', 'u', 'l', 'l'],
        YamlView::Bool(b) => if b {
            seq!['t', 'r', 'u', 'e']
        } else {
            seq!['f', 'a', 'l', 's', 'e']
        },
        YamlView::Number(n) => number_text(n),
        YamlView::Text(s) => seq!['"'] + escaped(s) + seq!['"'],
        YamlView::Sequence(items) => seq!['['] + flow_items(items) + seq![']'],
        YamlView::Mapping(entries) => seq!['{'] + flow_entries(entries) + seq!['}'],
        YamlView::Tagged(t, inner) => seq!['!'] + tag_name(t) + seq![' '] + flow_text(*inner),
    }
}

/// The items of a flow sequence, separated by `, `.
pub open spec fn flow_items(s: Seq<YamlView>) -> Seq<char>
    decreases s, 1int,
{
    if s.len() == 0 {
        Seq::empty()
    } else if s.len() == 1 {
        flow_text(s[0])
    } else {
        proof {
            assert(decreases_to!(s => s[s.len() - 1]));
            assert(s.drop_last() =~= s.subrange(0, s.len() - 1));
        }
        flow_items(s.drop_last()) + seq![',', ' '] + flow_text(s.last())
    }
}

/// The entries of a flow mapping, `key: value`, separated by `, `.
pub open spec fn flow_entries(m: Seq<(YamlView, YamlView)>) -> Seq<char>
    decreases m, 1int,
{
    if m.len() == 0 {
        Seq::empty()
    } else {
        proof {
            assert(decreases_to!(m => m[m.len() - 1]));
            assert(decreases_to!(m[m.len() - 1] => m[m.len() - 1].0));
            assert(decreases_to!(m[m.len() - 1] => m[m.len() - 1].1));
            assert(m.drop_last() =~= m.subrange(0, m.len() - 1));
        }
        let e = flow_text(m.last().0) + seq![':', ' '] + flow_text(m.last().1);
        if m.len() == 1 {
            e
        } else {
            flow_entries(m.drop_last()) + seq![',', ' '] + e
        }
    }
}

fn hex_digit_exec(d: u32) -> (c: char)
    requires
        d < 16,
    ensures
        c == hex_digit(d as nat),
{
    if d == 0 { '0' }
    else if d == 1 { '1' }
    else if d == 2 { '2' }
    else if d == 3 { '3' }
    else if d == 4 { '4' }
    else if d == 5 { '5' }
    else if d == 6 { '6' }
    else if d == 7 { '7' }
    else if d == 8 { '8' }
    else if d == 9 { '9' }
    else if d == 10 { 'A' }
    else if d == 11 { 'B' }
    else if d == 12 { 'C' }
    else if d == 13 { 'D' }
    else if d == 14 { 'E' }
    else { 'F' }
}

fn push_escaped_char(out: &mut Vec<char>, c: char)
    ensures
        final(out)@ == old(out)@ + escape_char(c),
{
    let ghost before = out@;
    if c == '\\' {
        out.push('\\');
        out.push('\\');
    } else if c == '"' {
        out.push('\\');
        out.push('"');
    } else if c == '\n' {
        out.push('\\');
        out.push('n');
    } else if c == '\t' {
        out.push('\\');
        out.push('t');
    } else if c == '\r' {
        out.push('\\');
        out.push('r');
    } else {
        let n = c as u32;
        let literal = (0x20 <= n && n <= 0x7E) || (0xA0 <= n && n <= 0xD7FF && n != 0x2028 && n
            != 0x2029) || (0xE000 <= n && n <= 0xFFFD) || n >= 0x10000;
        if literal {
            out.push(c);
        } else {
            out.push('\\');
            out.push('u');
            out.push(hex_digit_exec((n / 4096) % 16));
            out.push(hex_digit_exec((n / 256) % 16));
            out.push(hex_digit_exec((n / 16) % 16));
            out.push(hex_digit_exec(n % 16));
        }
    }
    assert(out@ =~= before + escape_char(c));
}

fn push_quoted(out: &mut Vec<char>, s: &String)
    ensures
        final(out)@ == old(out)@ + seq!['"'] + escaped(s@) + seq!['"'],
{
    let cs = chars_of(s.as_str());
    let ghost start = out@;
    out.push('"');
    let mut i: usize = 0;
    while i < cs.len()
        invariant
            i <= cs@.len(),
            cs@ == s@,
            out@ == start + seq!['"'] + escaped(cs@.subrange(0, i as int)),
        decreases cs@.len() - i,
    {
        proof {
            let next = cs@.subrange(0, i + 1);
            assert(next.drop_last() =~= cs@.subrange(0, i as int));
            assert(next.last() == cs@[i as int]);
        }
        push_escaped_char(out, cs[i]);
        i = i + 1;
    }
    assert(cs@.subrange(0, cs@.len() as int) =~= cs@);
    out.push('"');
}

fn push_text(out: &mut Vec<char>, s: &str)
    ensures
        final(out)@ == old(out)@ + s@,
{
    let mut cs = chars_of(s);
    let ghost add = cs@;
    out.append(&mut cs);
}

fn push_flow(v: &YamlValue, out: &mut Vec<char>)
    ensures
        final(out)@ == old(out)@ + flow_text(v@),
    decreases *v, 0int,
{
    let ghost before = out@;
    match v {
        YamlValue::Null => {
            out.push('n');
            out.push('u');
            out.push('l');
            out.push('l');
        },
        YamlValue::Bool(b) => {
            if *b {
                out.push('t');
                out.push('r');
                out.push('u');
                out.push('e');
            } else {
                out.push('f');
                out.push('a');
                out.push('l');
                out.push('s');
                out.push('e');
            }
        },
        YamlValue::Number(n) => {
            let t = n.to_text();
            push_text(out, t.as_str());
        },
        YamlValue::String(s) => {
            push_quoted(out, s);
        },
        YamlValue::Sequence(items) => {
            proof {
                assert(decreases_to!(*items => items@));
            }
            out.push('[');
            push_flow_items(items, out);
            out.push(']');
        },
        YamlValue::Mapping(entries) => {
            proof {
                assert(decreases_to!(*entries => entries@));
            }
            out.push('{');
            push_flow_entries(entries, out);
            out.push('}');
        },
        YamlValue::Tagged(t, inner) => {
            out.push('!');
            let tc = chars_of(t.as_str());
            if tc.len() > 1 && tc[0] == '!' {
                let mut k: usize = 1;
                while k < tc.len()
                    invariant
                        1 <= k <= tc@.len(),
                        tc@ == t@,
                        out@ == before + seq!['!'] + tc@.subrange(1, k as int),
                    decreases tc@.len() - k,
                {
                    out.push(tc[k]);
                    k = k + 1;
                }
                assert(tc@.subrange(1, tc@.len() as int) =~= tag_name(t@));
            } else {
                push_text(out, t.as_str());
            }
            out.push(' ');
            push_flow(&**inner, out);
        },
    }
    assert(out@ =~= before + flow_text(v@));
}

fn push_flow_items(items: &Vec<YamlValue>, out: &mut Vec<char>)
    ensures
        final(out)@ == old(out)@ + flow_items(seq_view(items@)),
    decreases items@, 1int,
{
    proof {
        lemma_seq_view(items@);
    }
    let ghost start = out@;
    let ghost sv = seq_view(items@);
    let mut i: usize = 0;
    while i < items.len()
        invariant
            i <= items@.len(),
            sv == seq_view(items@),
            sv.len() == items@.len(),
            forall|k: int| 0 <= k < items@.len() ==> #[trigger] sv[k] == items@[k]@,
            out@ == start + flow_items(sv.subrange(0, i as int)),
        decreases items@.len() - i,
    {
        proof {
            assert(decreases_to!(items@ => items@[i as int]));
            let next = sv.subrange(0, i + 1);
            assert(next.drop_last() =~= sv.subrange(0, i as int));
            assert(next.last() == items@[i as int]@);
            if i == 0 {
                assert(next[0] == items@[0]@);
            }
        }
        if i > 0 {
            out.push(',');
            out.push(' ');
        }
        push_flow(&items[i], out);
        i = i + 1;
    }
    assert(sv.subrange(0, items@.len() as int) =~= sv);
}

fn push_flow_entries(entries: &Vec<(YamlValue, YamlValue)>, out: &mut Vec<char>)
    ensures
        final(out)@ == old(out)@ + flow_entries(pairs_view(entries@)),
    decreases entries@, 1int,
{
    proof {
        lemma_pairs_view(entries@);
    }
    let ghost start = out@;
    let ghost pv = pairs_view(entries@);
    let mut i: usize = 0;
    while i < entries.len()
        invariant
            i <= entries@.len(),
            pv == pairs_view(entries@),
            pv.len() == entries@.len(),
            forall|k: int|
                0 <= k < entries@.len() ==> #[trigger] pv[k] == (entries@[k].0@, entries@[k].1@),
            out@ == start + flow_entries(pv.subrange(0, i as int)),
        decreases entries@.len() - i,
    {
        proof {
            assert(decreases_to!(entries@ => entries@[i as int]));
            assert(decreases_to!(entries@[i as int] => entries@[i as int].0));
            assert(decreases_to!(entries@[i as int] => entries@[i as int].1));
            let next = pv.subrange(0, i + 1);
            assert(next.drop_last() =~= pv.subrange(0, i as int));
            assert(next.last() == (entries@[i as int].0@, entries@[i as int].1@));
        }
        if i > 0 {
            out.push(',');
            out.push(' ');
        }
        push_flow(&entries[i].0, out);
        out.push(':');
        out.push(' ');
        push_flow(&entries[i].1, out);
        i = i + 1;
    }
    assert(pv.subrange(0, entries@.len() as int) =~= pv);
}

/// The value as one flow-style YAML document.
pub fn flow_document(v: &YamlValue) -> (r: String)
    ensures
        r@ == flow_text(v@),
{
    let mut out: Vec<char> = Vec::new();
    push_flow(v, &mut out);
    assert(out@ =~= flow_text(v@));
    string_from_chars(out.as_slice())
}

/// What `serde_yaml` prints (`to_string`) for the value it reads (`from_str`) from the YAML
/// document `text`, or nothing when either step fails.
pub uninterp spec fn yaml_reprinted(text: Seq<char>) -> Option<Seq<char>>;

/// Reads a YAML document and prints it back in `serde_yaml`'s block style (`serde_yaml::from_str`
/// into a `Value`, then `serde_yaml::to_string`).
#[verifier::external_body]
fn reprint_yaml(text: &str) -> (r: Option<String>)
    ensures
        match r {
            Some(t) => yaml_reprinted(text@) == Some(t@),
            None => yaml_reprinted(text@) is None,
        },
{
    match serde_yaml::from_str::<serde_yaml::Value>(text) {
        Ok(value) => serde_yaml::to_string(&value).ok(),
        Err(_) => None,
    }
}

/// The block-style text of a value, trimmed: what a cell shows for a list or map nested in it.
pub open spec fn spec_block_text(v: YamlView) -> Seq<char> {
    match yaml_reprinted(flow_text(v)) {
        Some(t) => trim(t),
        None => Seq::empty(),
    }
}

/// The block-style text of a value, trimmed.
pub fn block_text(v: &YamlValue) -> (r: String)
    ensures
        r@ == spec_block_text(v@),
{
    let doc = flow_document(v);
    match reprint_yaml(doc.as_str()) {
        Some(t) => trim_str(t.as_str()),
        None => String::new(),
    }
}

} // verus!
